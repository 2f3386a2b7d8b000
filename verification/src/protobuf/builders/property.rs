//! What a C# property of a generated message class stands for in the protobuf message.

use vstd::prelude::*;

use crate::case::Case;
use crate::parser::common::Visibility;
use crate::parser::data_structs::{Property, PropertyKind, PropertyModifier, PropertyView};
use crate::protobuf::builders::field::{format_apply, string_specs_hold, StrFormat, StringSpec, StringSpecView, strip_to_snake};
use crate::text::{copy_string, try_strip_prefix_of};
use crate::case::recased;

verus! {

/// What a property of a generated message class stands for.
pub enum GenProperty {
    /// A property the message does not show.
    Blanket,
    /// The accessor of a field: name, type.
    Field(String, String),
    /// The presence test of an optional field: its name.
    HasField(String),
    /// The case accessor of a oneof: its name.
    OneOfCase(String),
    /// The accessor of a repeated field: its name.
    RepeatedField(String),
    /// The accessor of a map field: its name.
    MapField(String),
}

/// The mathematical value of a [`GenProperty`].
pub enum GenPropertyView {
    Blanket,
    Field(Seq<char>, Seq<char>),
    HasField(Seq<char>),
    OneOfCase(Seq<char>),
    RepeatedField(Seq<char>),
    MapField(Seq<char>),
}

impl View for GenProperty {
    type V = GenPropertyView;

    open spec fn view(&self) -> GenPropertyView {
        match self {
            GenProperty::Blanket => GenPropertyView::Blanket,
            GenProperty::Field(n, t) => GenPropertyView::Field(n@, t@),
            GenProperty::HasField(n) => GenPropertyView::HasField(n@),
            GenProperty::OneOfCase(n) => GenPropertyView::OneOfCase(n@),
            GenProperty::RepeatedField(n) => GenPropertyView::RepeatedField(n@),
            GenProperty::MapField(n) => GenPropertyView::MapField(n@),
        }
    }
}

/// A pattern of properties: each part that is given must match.
pub struct PropertySpec {
    visibility: Option<Visibility>,
    name: Vec<StringSpec>,
    ty: Vec<StringSpec>,
    modifiers: Option<Vec<PropertyModifier>>,
    kinds: Option<Vec<PropertyKind>>,
}

/// The mathematical value of a [`PropertySpec`].
pub struct PropertySpecView {
    pub visibility: Option<Visibility>,
    pub name: Seq<StringSpecView>,
    pub ty: Seq<StringSpecView>,
    pub modifiers: Option<Seq<PropertyModifier>>,
    pub kinds: Option<Seq<PropertyKind>>,
}

impl View for PropertySpec {
    type V = PropertySpecView;

    closed spec fn view(&self) -> PropertySpecView {
        PropertySpecView {
            visibility: self.visibility,
            name: self.name@.map_values(|x: StringSpec| x@),
            ty: self.ty@.map_values(|x: StringSpec| x@),
            modifiers: match self.modifiers {
                Some(m) => Some(m@),
                None => None,
            },
            kinds: match self.kinds {
                Some(k) => Some(k@),
                None => None,
            },
        }
    }
}

/// The pattern that matches every property.
pub open spec fn any_property() -> PropertySpecView {
    PropertySpecView { visibility: None, name: seq![], ty: seq![], modifiers: None, kinds: None }
}

/// The property `p` matches the pattern `spec`.
pub open spec fn property_spec_holds(spec: PropertySpecView, p: PropertyView) -> bool {
    &&& (spec.visibility matches Some(v) ==> v == p.visibility)
    &&& string_specs_hold(spec.name, p.name)
    &&& string_specs_hold(spec.ty, p.ty)
    &&& (spec.modifiers matches Some(m) ==> m == p.modifiers)
    &&& (spec.kinds matches Some(k) ==> k == p.kinds)
}

/// The two sequences of property modifiers are equal.
fn same_property_modifiers(a: &Vec<PropertyModifier>, b: &Vec<PropertyModifier>) -> (res: bool)
    ensures
        res == (a@ == b@),
{
    if a.len() != b.len() {
        return false;
    }
    let mut i: usize = 0;
    while i < a.len()
        invariant
            a@.len() == b@.len(),
            i <= a@.len(),
            forall|j: int| 0 <= j < i ==> a@[j] == b@[j],
        decreases a@.len() - i,
    {
        if a[i] != b[i] {
            return false;
        }
        i = i + 1;
    }
    assert(a@ =~= b@);
    true
}

/// The two sequences of property accessors are equal.
fn same_kinds(a: &Vec<PropertyKind>, b: &Vec<PropertyKind>) -> (res: bool)
    ensures
        res == (a@ == b@),
{
    if a.len() != b.len() {
        return false;
    }
    let mut i: usize = 0;
    while i < a.len()
        invariant
            a@.len() == b@.len(),
            i <= a@.len(),
            forall|j: int| 0 <= j < i ==> a@[j] == b@[j],
        decreases a@.len() - i,
    {
        if a[i] != b[i] {
            return false;
        }
        i = i + 1;
    }
    assert(a@ =~= b@);
    true
}

/// `s` meets every condition of `specs`.
fn all_match(specs: &Vec<StringSpec>, s: &str) -> (res: bool)
    ensures
        res == string_specs_hold(specs@.map_values(|x: StringSpec| x@), s@),
{
    let ghost vs = specs@.map_values(|x: StringSpec| x@);
    let mut i: usize = 0;
    while i < specs.len()
        invariant
            i <= specs@.len(),
            vs == specs@.map_values(|x: StringSpec| x@),
            forall|j: int| 0 <= j < i ==> crate::protobuf::builders::field::string_spec_holds(#[trigger] vs[j], s@),
        decreases specs@.len() - i,
    {
        if !specs[i].matches(s) {
            assert(!crate::protobuf::builders::field::string_spec_holds(vs[i as int], s@));
            return false;
        }
        i = i + 1;
    }
    true
}

impl PropertySpec {
    /// The pattern that matches every property.
    pub fn new() -> (res: PropertySpec)
        ensures
            res@ == any_property(),
    {
        let res = PropertySpec { visibility: None, name: Vec::new(), ty: Vec::new(), modifiers: None, kinds: None };
        assert(res@.name =~= seq![]);
        assert(res@.ty =~= seq![]);
        res
    }

    /// The property matches the pattern.
    pub fn matches(&self, p: &Property) -> (res: bool)
        ensures
            res == property_spec_holds(self@, p@),
    {
        (match self.visibility {
            None => true,
            Some(v) => v == p.visibility,
        }) && all_match(&self.name, p.name.as_str()) && all_match(&self.ty, p.ty.as_str()) && (
        match &self.modifiers {
            None => true,
            Some(modifiers) => same_property_modifiers(modifiers, &p.modifiers),
        }) && (match &self.kinds {
            None => true,
            Some(kinds) => same_kinds(kinds, &p.kinds),
        })
    }

    /// The pattern with one more condition on the type.
    pub fn ty(self, spec: StringSpec) -> (res: PropertySpec)
        ensures
            res@ == (PropertySpecView { ty: self@.ty.push(spec@), ..self@ }),
    {
        let mut s = self;
        s.ty.push(spec);
        proof {
            assert(s@.ty =~= self@.ty.push(spec@));
            assert(s@.name =~= self@.name);
        }
        s
    }

    /// The pattern with one more condition on the name.
    pub fn name(self, spec: StringSpec) -> (res: PropertySpec)
        ensures
            res@ == (PropertySpecView { name: self@.name.push(spec@), ..self@ }),
    {
        let mut s = self;
        s.name.push(spec);
        proof {
            assert(s@.name =~= self@.name.push(spec@));
            assert(s@.ty =~= self@.ty);
        }
        s
    }

    /// The pattern with one more modifier required, in order.
    pub fn modifier(self, modifier: PropertyModifier) -> (res: PropertySpec)
        ensures
            res@ == (PropertySpecView {
                modifiers: Some(
                    match self@.modifiers {
                        Some(m) => m,
                        None => seq![],
                    }.push(modifier),
                ),
                ..self@
            }),
    {
        let s = self;
        let mut m = match s.modifiers {
            Some(m) => m,
            None => Vec::new(),
        };
        m.push(modifier);
        let res = PropertySpec { modifiers: Some(m), ..s };
        proof {
            assert(res@.name =~= self@.name);
            assert(res@.ty =~= self@.ty);
        }
        res
    }

    /// The pattern requiring a property without modifiers.
    pub fn empty_modifiers(self) -> (res: PropertySpec)
        ensures
            res@ == (PropertySpecView { modifiers: Some(seq![]), ..self@ }),
    {
        let res = PropertySpec { modifiers: Some(Vec::new()), ..self };
        proof {
            assert(res@.name =~= self@.name);
            assert(res@.ty =~= self@.ty);
            assert(res@.modifiers->0 =~= seq![]);
        }
        res
    }

    /// The pattern requiring exactly these modifiers, in order.
    pub fn modifiers(self, modifiers: Vec<PropertyModifier>) -> (res: PropertySpec)
        ensures
            res@ == (PropertySpecView { modifiers: Some(modifiers@), ..self@ }),
    {
        let res = PropertySpec { modifiers: Some(modifiers), ..self };
        proof {
            assert(res@.name =~= self@.name);
            assert(res@.ty =~= self@.ty);
        }
        res
    }

    /// The pattern with one more accessor required, in order.
    pub fn kind(self, kind: PropertyKind) -> (res: PropertySpec)
        ensures
            res@ == (PropertySpecView {
                kinds: Some(
                    match self@.kinds {
                        Some(k) => k,
                        None => seq![],
                    }.push(kind),
                ),
                ..self@
            }),
    {
        let s = self;
        let mut k = match s.kinds {
            Some(k) => k,
            None => Vec::new(),
        };
        k.push(kind);
        let res = PropertySpec { kinds: Some(k), ..s };
        proof {
            assert(res@.name =~= self@.name);
            assert(res@.ty =~= self@.ty);
        }
        res
    }

    /// The pattern requiring a property without accessors.
    pub fn empty_kinds(self) -> (res: PropertySpec)
        ensures
            res@ == (PropertySpecView { kinds: Some(seq![]), ..self@ }),
    {
        let res = PropertySpec { kinds: Some(Vec::new()), ..self };
        proof {
            assert(res@.name =~= self@.name);
            assert(res@.ty =~= self@.ty);
            assert(res@.kinds->0 =~= seq![]);
        }
        res
    }

    /// The pattern requiring exactly these accessors, in order.
    pub fn kinds(self, kinds: Vec<PropertyKind>) -> (res: PropertySpec)
        ensures
            res@ == (PropertySpecView { kinds: Some(kinds@), ..self@ }),
    {
        let res = PropertySpec { kinds: Some(kinds), ..self };
        proof {
            assert(res@.name =~= self@.name);
            assert(res@.ty =~= self@.ty);
        }
        res
    }

    /// The pattern requiring a visibility.
    pub fn visibility(self, visibility: Visibility) -> (res: PropertySpec)
        ensures
            res@ == (PropertySpecView { visibility: Some(visibility), ..self@ }),
    {
        let res = PropertySpec { visibility: Some(visibility), ..self };
        proof {
            assert(res@.name =~= self@.name);
            assert(res@.ty =~= self@.ty);
        }
        res
    }
}

/// A pattern on names and types alone.
pub open spec fn named_pattern(name: Seq<StringSpecView>, ty: Seq<StringSpecView>) -> PropertySpecView {
    PropertySpecView { name, ty, ..any_property() }
}

/// A pattern of public getters.
pub open spec fn getter_pattern(name: Seq<StringSpecView>, ty: Seq<StringSpecView>) -> PropertySpecView {
    PropertySpecView {
        visibility: Some(Visibility::Public),
        kinds: Some(seq![PropertyKind::Getter]),
        name,
        ty,
        ..any_property()
    }
}

/// The pattern of a public property with a getter and a setter.
pub open spec fn accessor_pattern() -> PropertySpecView {
    PropertySpecView {
        visibility: Some(Visibility::Public),
        kinds: Some(seq![PropertyKind::Getter, PropertyKind::Setter]),
        ..any_property()
    }
}

/// What a property of a generated message class stands for, if anything.
pub open spec fn gen_property_of(p: PropertyView) -> Option<GenPropertyView> {
    if property_spec_holds(named_pattern(seq![StringSpecView::Eq("Parser"@)], seq![StringSpecView::StartWith("MessageParser"@)]), p)
        || property_spec_holds(named_pattern(seq![StringSpecView::Eq("Descriptor"@)], seq![StringSpecView::Eq("MessageDescriptor"@)]), p)
        || property_spec_holds(named_pattern(seq![StringSpecView::Eq("pb::Google.Protobuf.IMessage.Descriptor"@)], seq![StringSpecView::Eq("MessageDescriptor"@)]), p) {
        Some(GenPropertyView::Blanket)
    } else if property_spec_holds(getter_pattern(seq![StringSpecView::StartWith("Has"@), StringSpecView::IsCase(Case::Pascal)], seq![StringSpecView::Eq("bool"@)]), p) {
        Some(GenPropertyView::HasField(recased(try_strip_prefix_of(p.name, "Has"@), Case::Pascal, Case::Snake)))
    } else if property_spec_holds(getter_pattern(seq![StringSpecView::EndWith("Case"@)], seq![StringSpecView::EndWith("OneofCase"@)]), p) {
        Some(GenPropertyView::OneOfCase(strip_to_snake(p.name, "Case"@, Case::Pascal)))
    } else if property_spec_holds(getter_pattern(seq![], seq![StringSpecView::StartWith("RepeatedField<"@), StringSpecView::EndWith(">"@)]), p) {
        Some(GenPropertyView::RepeatedField(strip_to_snake(p.name, "_"@, Case::Pascal)))
    } else if property_spec_holds(getter_pattern(seq![], seq![StringSpecView::StartWith("MapField<"@), StringSpecView::EndWith(">"@)]), p) {
        Some(GenPropertyView::MapField(strip_to_snake(p.name, "_"@, Case::Pascal)))
    } else if property_spec_holds(accessor_pattern(), p) {
        Some(GenPropertyView::Field(strip_to_snake(p.name, "_"@, Case::Pascal), p.ty))
    } else {
        None
    }
}

/// The accessors `get` and `set`, in that order.
fn get_set() -> (res: Vec<PropertyKind>)
    ensures
        res@ == seq![PropertyKind::Getter, PropertyKind::Setter],
{
    let mut v = Vec::new();
    v.push(PropertyKind::Getter);
    v.push(PropertyKind::Setter);
    assert(v@ =~= seq![PropertyKind::Getter, PropertyKind::Setter]);
    v
}

impl GenProperty {
    /// What the property stands for, or `Err` when it stands for nothing known.
    pub fn try_from(value: &Property) -> (res: Result<GenProperty, ()>)
        ensures
            match res {
                Ok(g) => gen_property_of(value@) == Some(g@),
                Err(_) => gen_property_of(value@) is None,
            },
    {
        proof {
            reveal_with_fuel(format_apply, 3);
        }
        let spec = PropertySpec::new()
            .name(StringSpec::Eq("Parser".to_owned()))
            .ty(StringSpec::StartWith("MessageParser".to_owned()));
        assert(spec@ == named_pattern(seq![StringSpecView::Eq("Parser"@)], seq![StringSpecView::StartWith("MessageParser"@)]));
        if spec.matches(value) {
            return Ok(GenProperty::Blanket);
        }
        let spec = PropertySpec::new()
            .name(StringSpec::Eq("Descriptor".to_owned()))
            .ty(StringSpec::Eq("MessageDescriptor".to_owned()));
        assert(spec@ == named_pattern(seq![StringSpecView::Eq("Descriptor"@)], seq![StringSpecView::Eq("MessageDescriptor"@)]));
        if spec.matches(value) {
            return Ok(GenProperty::Blanket);
        }
        let spec = PropertySpec::new()
            .name(StringSpec::Eq("pb::Google.Protobuf.IMessage.Descriptor".to_owned()))
            .ty(StringSpec::Eq("MessageDescriptor".to_owned()));
        assert(spec@ == named_pattern(seq![StringSpecView::Eq("pb::Google.Protobuf.IMessage.Descriptor"@)], seq![StringSpecView::Eq("MessageDescriptor"@)]));
        if spec.matches(value) {
            return Ok(GenProperty::Blanket);
        }
        let spec = PropertySpec::new()
            .visibility(Visibility::Public)
            .kind(PropertyKind::Getter)
            .name(StringSpec::StartWith("Has".to_owned()))
            .ty(StringSpec::Eq("bool".to_owned()))
            .name(StringSpec::IsCase(Case::Pascal));
        assert(spec@.name =~= seq![StringSpecView::StartWith("Has"@), StringSpecView::IsCase(Case::Pascal)]);
        assert(spec@ == getter_pattern(seq![StringSpecView::StartWith("Has"@), StringSpecView::IsCase(Case::Pascal)], seq![StringSpecView::Eq("bool"@)]));
        if spec.matches(value) {
            let fmt_name = StrFormat::new()
                .try_strip_prefix("Has")
                .as_snake(Case::Pascal)
                .apply(value.name.as_str());
            return Ok(GenProperty::HasField(fmt_name));
        }
        let spec = PropertySpec::new()
            .visibility(Visibility::Public)
            .kind(PropertyKind::Getter)
            .name(StringSpec::EndWith("Case".to_owned()))
            .ty(StringSpec::EndWith("OneofCase".to_owned()));
        assert(spec@ == getter_pattern(seq![StringSpecView::EndWith("Case"@)], seq![StringSpecView::EndWith("OneofCase"@)]));
        if spec.matches(value) {
            let fmt_name = StrFormat::new()
                .try_strip_suffix("Case")
                .as_snake(Case::Pascal)
                .apply(value.name.as_str());
            return Ok(GenProperty::OneOfCase(fmt_name));
        }
        let spec = PropertySpec::new()
            .visibility(Visibility::Public)
            .kind(PropertyKind::Getter)
            .ty(StringSpec::StartWith("RepeatedField<".to_owned()))
            .ty(StringSpec::EndWith(">".to_owned()));
        assert(spec@.ty =~= seq![StringSpecView::StartWith("RepeatedField<"@), StringSpecView::EndWith(">"@)]);
        assert(spec@ == getter_pattern(seq![], seq![StringSpecView::StartWith("RepeatedField<"@), StringSpecView::EndWith(">"@)]));
        if spec.matches(value) {
            let fmt_name = StrFormat::new()
                .try_strip_suffix("_")
                .as_snake(Case::Pascal)
                .apply(value.name.as_str());
            return Ok(GenProperty::RepeatedField(fmt_name));
        }
        let spec = PropertySpec::new()
            .visibility(Visibility::Public)
            .kind(PropertyKind::Getter)
            .ty(StringSpec::StartWith("MapField<".to_owned()))
            .ty(StringSpec::EndWith(">".to_owned()));
        assert(spec@.ty =~= seq![StringSpecView::StartWith("MapField<"@), StringSpecView::EndWith(">"@)]);
        assert(spec@ == getter_pattern(seq![], seq![StringSpecView::StartWith("MapField<"@), StringSpecView::EndWith(">"@)]));
        if spec.matches(value) {
            let fmt_name = StrFormat::new()
                .try_strip_suffix("_")
                .as_snake(Case::Pascal)
                .apply(value.name.as_str());
            return Ok(GenProperty::MapField(fmt_name));
        }
        let spec = PropertySpec::new()
            .visibility(Visibility::Public)
            .kinds(get_set());
        assert(spec@ == accessor_pattern());
        if spec.matches(value) {
            let fmt_name = StrFormat::new()
                .try_strip_suffix("_")
                .as_snake(Case::Pascal)
                .apply(value.name.as_str());
            return Ok(GenProperty::Field(fmt_name, copy_string(&value.ty)));
        }
        Err(())
    }
}

} // verus!
