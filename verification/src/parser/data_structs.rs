//! The data structures of the dump: classes, enums, fields, methods, properties.

use vstd::prelude::*;

use crate::parser::common::{Attribute, Literal, LiteralView, Visibility};
use crate::text::copy_string;

verus! {

/// The views of the items of a sequence.
pub open spec fn views<T: View>(s: Seq<T>) -> Seq<T::V> {
    s.map_values(|x: T| x@)
}

/// The texts of a sequence of attributes.
pub open spec fn attribute_texts(s: Seq<Attribute>) -> Seq<Seq<char>> {
    s.map_values(|a: Attribute| a.0@)
}

/// A modifier of a field.
#[derive(Clone, Copy, Debug, PartialEq, Eq, Structural)]
pub enum FieldModifier {
    ReadOnly,
    Const,
    Static,
}

/// A field of a class or an enum.
pub struct Field {
    pub ty: String,
    pub name: String,
    pub visibility: Visibility,
    pub modifiers: Vec<FieldModifier>,
    pub assign_value: Option<Literal>,
}

/// The mathematical value of a [`Field`].
pub struct FieldView {
    pub ty: Seq<char>,
    pub name: Seq<char>,
    pub visibility: Visibility,
    pub modifiers: Seq<FieldModifier>,
    pub assign_value: Option<LiteralView>,
}

/// The view of an optional literal.
pub open spec fn literal_option_view(l: Option<Literal>) -> Option<LiteralView> {
    match l {
        Some(l) => Some(l@),
        None => None,
    }
}

impl View for Field {
    type V = FieldView;

    open spec fn view(&self) -> FieldView {
        FieldView {
            ty: self.ty@,
            name: self.name@,
            visibility: self.visibility,
            modifiers: self.modifiers@,
            assign_value: literal_option_view(self.assign_value),
        }
    }
}

/// A copy of a sequence of modifiers.
pub fn copy_modifiers<T: Copy>(v: &Vec<T>) -> (res: Vec<T>)
    ensures
        res@ == v@,
{
    let mut res: Vec<T> = Vec::new();
    let mut i: usize = 0;
    while i < v.len()
        invariant
            i <= v@.len(),
            res@ == v@.take(i as int),
        decreases v@.len() - i,
    {
        res.push(v[i]);
        i = i + 1;
        assert(res@ =~= v@.take(i as int));
    }
    assert(v@.take(v@.len() as int) =~= v@);
    res
}

impl Field {
    /// A copy of the field.
    pub fn duplicate(&self) -> (res: Field)
        ensures
            res@ == self@,
    {
        Field {
            ty: copy_string(&self.ty),
            name: copy_string(&self.name),
            visibility: self.visibility,
            modifiers: copy_modifiers(&self.modifiers),
            assign_value: match &self.assign_value {
                Some(l) => Some(l.duplicate()),
                None => None,
            },
        }
    }
}

/// A modifier of a method parameter.
#[derive(Clone, Copy, Debug, PartialEq, Eq, Structural)]
pub enum ParamModifier {
    Out,
    In,
    Ref,
}

/// A method parameter.
pub struct Param {
    pub modifier: Option<ParamModifier>,
    pub ty: String,
    pub name: Option<String>,
    pub assign_value: Option<Literal>,
}

/// The mathematical value of a [`Param`].
pub struct ParamView {
    pub modifier: Option<ParamModifier>,
    pub ty: Seq<char>,
    pub name: Option<Seq<char>>,
    pub assign_value: Option<LiteralView>,
}

/// The view of an optional string.
pub open spec fn string_option_view(s: Option<String>) -> Option<Seq<char>> {
    match s {
        Some(s) => Some(s@),
        None => None,
    }
}

impl View for Param {
    type V = ParamView;

    open spec fn view(&self) -> ParamView {
        ParamView {
            modifier: self.modifier,
            ty: self.ty@,
            name: string_option_view(self.name),
            assign_value: literal_option_view(self.assign_value),
        }
    }
}

/// A modifier of a method.
#[derive(Clone, Copy, Debug, PartialEq, Eq, Structural)]
pub enum MethodModifier {
    Override,
    Static,
    Abstract,
    Virtual,
    Sealed,
    Extern,
}

/// A method of a class.
pub struct Method {
    pub visibility: Visibility,
    pub name: String,
    pub modifiers: Vec<MethodModifier>,
    pub ty: String,
    pub params: Vec<Param>,
}

/// The mathematical value of a [`Method`].
pub struct MethodView {
    pub visibility: Visibility,
    pub name: Seq<char>,
    pub modifiers: Seq<MethodModifier>,
    pub ty: Seq<char>,
    pub params: Seq<ParamView>,
}

impl View for Method {
    type V = MethodView;

    open spec fn view(&self) -> MethodView {
        MethodView {
            visibility: self.visibility,
            name: self.name@,
            modifiers: self.modifiers@,
            ty: self.ty@,
            params: views(self.params@),
        }
    }
}

/// An accessor of a property: `get` or `set`.
#[derive(Clone, Copy, Debug, PartialEq, Eq, Structural)]
pub enum PropertyKind {
    Getter,
    Setter,
}

/// A modifier of a property.
#[derive(Clone, Copy, Debug, PartialEq, Eq, Structural)]
pub enum PropertyModifier {
    Virtual,
    Static,
    Sealed,
    Override,
    Abstract,
}

/// A property of a class.
pub struct Property {
    pub visibility: Visibility,
    pub name: String,
    pub modifiers: Vec<PropertyModifier>,
    pub kinds: Vec<PropertyKind>,
    pub ty: String,
}

/// The mathematical value of a [`Property`].
pub struct PropertyView {
    pub visibility: Visibility,
    pub name: Seq<char>,
    pub modifiers: Seq<PropertyModifier>,
    pub kinds: Seq<PropertyKind>,
    pub ty: Seq<char>,
}

impl View for Property {
    type V = PropertyView;

    open spec fn view(&self) -> PropertyView {
        PropertyView {
            visibility: self.visibility,
            name: self.name@,
            modifiers: self.modifiers@,
            kinds: self.kinds@,
            ty: self.ty@,
        }
    }
}

/// A member of an enum: its field and the attributes before it.
pub struct EnumMember {
    pub field: Field,
    pub attributes: Vec<Attribute>,
}

/// The mathematical value of an [`EnumMember`].
pub struct EnumMemberView {
    pub field: FieldView,
    pub attributes: Seq<Seq<char>>,
}

impl View for EnumMember {
    type V = EnumMemberView;

    open spec fn view(&self) -> EnumMemberView {
        EnumMemberView { field: self.field@, attributes: attribute_texts(self.attributes@) }
    }
}

/// An enum of the dump.
pub struct Enum {
    pub visibility: Visibility,
    pub name: String,
    pub type_index: Option<u64>,
    pub members: Vec<EnumMember>,
}

/// The mathematical value of an [`Enum`].
pub struct EnumView {
    pub visibility: Visibility,
    pub name: Seq<char>,
    pub type_index: Option<u64>,
    pub members: Seq<EnumMemberView>,
}

impl View for Enum {
    type V = EnumView;

    open spec fn view(&self) -> EnumView {
        EnumView {
            visibility: self.visibility,
            name: self.name@,
            type_index: self.type_index,
            members: views(self.members@),
        }
    }
}

/// A modifier of a class.
#[derive(Clone, Copy, Debug, PartialEq, Eq, Structural)]
pub enum ClassModifier {
    Sealed,
    Static,
    Abstract,
}

/// A class of the dump.
pub struct Class {
    pub visibility: Visibility,
    pub modifier: Option<ClassModifier>,
    pub name: String,
    pub interfaces: Vec<String>,
    pub type_index: Option<u64>,
    pub methods: Vec<Method>,
    pub fields: Vec<Field>,
    pub properties: Vec<Property>,
}

/// The mathematical value of a [`Class`].
pub struct ClassView {
    pub visibility: Visibility,
    pub modifier: Option<ClassModifier>,
    pub name: Seq<char>,
    pub interfaces: Seq<Seq<char>>,
    pub type_index: Option<u64>,
    pub methods: Seq<MethodView>,
    pub fields: Seq<FieldView>,
    pub properties: Seq<PropertyView>,
}

impl View for Class {
    type V = ClassView;

    open spec fn view(&self) -> ClassView {
        ClassView {
            visibility: self.visibility,
            modifier: self.modifier,
            name: self.name@,
            interfaces: views(self.interfaces@),
            type_index: self.type_index,
            methods: views(self.methods@),
            fields: views(self.fields@),
            properties: views(self.properties@),
        }
    }
}

/// What a top-level member of the dump is.
pub enum DataStructInner {
    Class(Class),
    Enum(Enum),
    Interface,
    Struct,
}

/// The mathematical value of a [`DataStructInner`].
pub enum DataStructInnerView {
    Class(ClassView),
    Enum(EnumView),
    Interface,
    Struct,
}

impl View for DataStructInner {
    type V = DataStructInnerView;

    open spec fn view(&self) -> DataStructInnerView {
        match self {
            DataStructInner::Class(c) => DataStructInnerView::Class(c@),
            DataStructInner::Enum(e) => DataStructInnerView::Enum(e@),
            DataStructInner::Interface => DataStructInnerView::Interface,
            DataStructInner::Struct => DataStructInnerView::Struct,
        }
    }
}

/// A top-level member of the dump, with its namespace and attributes.
pub struct DataStruct {
    pub namespace: Option<String>,
    pub attributes: Vec<Attribute>,
    pub kind: DataStructInner,
}

/// The mathematical value of a [`DataStruct`].
pub struct DataStructView {
    pub namespace: Option<Seq<char>>,
    pub attributes: Seq<Seq<char>>,
    pub kind: DataStructInnerView,
}

impl View for DataStruct {
    type V = DataStructView;

    open spec fn view(&self) -> DataStructView {
        DataStructView {
            namespace: string_option_view(self.namespace),
            attributes: attribute_texts(self.attributes@),
            kind: self.kind@,
        }
    }
}

impl EnumMember {
    /// A copy of the member.
    pub fn duplicate(&self) -> (res: EnumMember)
        ensures
            res@ == self@,
    {
        let mut attributes: Vec<Attribute> = Vec::new();
        let mut i: usize = 0;
        while i < self.attributes.len()
            invariant
                i <= self.attributes@.len(),
                attributes@.len() == i,
                forall|j: int| 0 <= j < i ==> #[trigger] attributes@[j].0@ == self.attributes@[j].0@,
            decreases self.attributes@.len() - i,
        {
            attributes.push(self.attributes[i].duplicate());
            i = i + 1;
        }
        let res = EnumMember { field: self.field.duplicate(), attributes };
        assert(res@.attributes =~= self@.attributes);
        res
    }
}

impl Enum {
    /// A copy of the enum.
    pub fn duplicate(&self) -> (res: Enum)
        ensures
            res@ == self@,
    {
        let mut members: Vec<EnumMember> = Vec::new();
        let mut i: usize = 0;
        while i < self.members.len()
            invariant
                i <= self.members@.len(),
                members@.len() == i,
                forall|j: int| 0 <= j < i ==> #[trigger] members@[j]@ == self.members@[j]@,
            decreases self.members@.len() - i,
        {
            members.push(self.members[i].duplicate());
            i = i + 1;
        }
        let res = Enum {
            visibility: self.visibility,
            name: copy_string(&self.name),
            type_index: self.type_index,
            members,
        };
        assert(res@.members =~= self@.members);
        res
    }
}

} // verus!
