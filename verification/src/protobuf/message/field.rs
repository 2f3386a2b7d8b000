//! Fields of protobuf messages and their types.

use vstd::prelude::*;

use crate::parser::common::text_is;
use crate::text::copy_string;

verus! {

/// A scalar type of protobuf.
#[allow(non_camel_case_types)]
#[derive(Clone, Copy, Debug, PartialEq, Eq, Structural)]
pub enum Scalar {
    double,
    float,
    int32,
    int64,
    uint32,
    uint64,
    sint32,
    sint64,
    fixed32,
    fixed64,
    sfixed32,
    sfixed64,
    bool,
    string,
    bytes,
}

/// The protobuf scalar that a C# type name maps to.
pub open spec fn scalar_of(t: Seq<char>) -> Option<Scalar> {
    if t == "double"@ {
        Some(Scalar::double)
    } else if t == "float"@ {
        Some(Scalar::float)
    } else if t == "int"@ {
        Some(Scalar::int32)
    } else if t == "long"@ {
        Some(Scalar::int64)
    } else if t == "uint"@ {
        Some(Scalar::uint32)
    } else if t == "ulong"@ {
        Some(Scalar::uint64)
    } else if t == "bool"@ {
        Some(Scalar::bool)
    } else if t == "string"@ {
        Some(Scalar::string)
    } else if t == "ByteString"@ {
        Some(Scalar::bytes)
    } else {
        None
    }
}

/// The name protobuf gives a scalar type.
pub open spec fn scalar_name(s: Scalar) -> Seq<char> {
    match s {
        Scalar::double => "double"@,
        Scalar::float => "float"@,
        Scalar::int32 => "int32"@,
        Scalar::int64 => "int64"@,
        Scalar::uint32 => "uint32"@,
        Scalar::uint64 => "uint64"@,
        Scalar::sint32 => "sint32"@,
        Scalar::sint64 => "sint64"@,
        Scalar::fixed32 => "fixed32"@,
        Scalar::fixed64 => "fixed64"@,
        Scalar::sfixed32 => "sfixed32"@,
        Scalar::sfixed64 => "sfixed64"@,
        Scalar::bool => "bool"@,
        Scalar::string => "string"@,
        Scalar::bytes => "bytes"@,
    }
}

impl Scalar {
    /// The protobuf scalar that a C# type name maps to, or `Err`.
    pub fn try_from(value: &String) -> (res: Result<Scalar, ()>)
        ensures
            match res {
                Ok(s) => scalar_of(value@) == Some(s),
                Err(_) => scalar_of(value@) is None,
            },
    {
        if text_is(value, "double") {
            Ok(Scalar::double)
        } else if text_is(value, "float") {
            Ok(Scalar::float)
        } else if text_is(value, "int") {
            Ok(Scalar::int32)
        } else if text_is(value, "long") {
            Ok(Scalar::int64)
        } else if text_is(value, "uint") {
            Ok(Scalar::uint32)
        } else if text_is(value, "ulong") {
            Ok(Scalar::uint64)
        } else if text_is(value, "bool") {
            Ok(Scalar::bool)
        } else if text_is(value, "string") {
            Ok(Scalar::string)
        } else if text_is(value, "ByteString") {
            Ok(Scalar::bytes)
        } else {
            Err(())
        }
    }

    /// The name protobuf gives the scalar type.
    pub fn name(&self) -> (res: String)
        ensures
            res@ == scalar_name(*self),
    {
        let s = match self {
            Scalar::double => "double",
            Scalar::float => "float",
            Scalar::int32 => "int32",
            Scalar::int64 => "int64",
            Scalar::uint32 => "uint32",
            Scalar::uint64 => "uint64",
            Scalar::sint32 => "sint32",
            Scalar::sint64 => "sint64",
            Scalar::fixed32 => "fixed32",
            Scalar::fixed64 => "fixed64",
            Scalar::sfixed32 => "sfixed32",
            Scalar::sfixed64 => "sfixed64",
            Scalar::bool => "bool",
            Scalar::string => "string",
            Scalar::bytes => "bytes",
        };
        s.to_owned()
    }
}

/// The name of a type that is not a scalar.
pub struct TypeIdent {
    pub name: String,
}

/// The type of a message field.
pub enum Type {
    Scalar(Scalar),
    Custom(TypeIdent),
}

/// The mathematical value of a [`Type`].
pub enum TypeView {
    Scalar(Scalar),
    Custom(Seq<char>),
}

impl View for Type {
    type V = TypeView;

    open spec fn view(&self) -> TypeView {
        match self {
            Type::Scalar(s) => TypeView::Scalar(*s),
            Type::Custom(t) => TypeView::Custom(t.name@),
        }
    }
}

/// The field type a C# type name gives: its scalar, or else the name itself.
pub open spec fn type_of(t: Seq<char>) -> TypeView {
    match scalar_of(t) {
        Some(s) => TypeView::Scalar(s),
        None => TypeView::Custom(t),
    }
}

/// The text protobuf writes for a field type.
pub open spec fn type_text(t: TypeView) -> Seq<char> {
    match t {
        TypeView::Scalar(s) => scalar_name(s),
        TypeView::Custom(n) => n,
    }
}

impl Type {
    /// The field type a C# type name gives.
    pub fn from(value: &String) -> (res: Type)
        ensures
            res@ == type_of(value@),
    {
        match Scalar::try_from(value) {
            Ok(scalar) => Type::Scalar(scalar),
            Err(_) => Type::Custom(TypeIdent { name: copy_string(value) }),
        }
    }

    /// The text protobuf writes for the type.
    pub fn text(&self) -> (res: String)
        ensures
            res@ == type_text(self@),
    {
        match self {
            Type::Scalar(s) => s.name(),
            Type::Custom(t) => copy_string(&t.name),
        }
    }

    /// A copy of the type.
    pub fn duplicate(&self) -> (res: Type)
        ensures
            res@ == self@,
    {
        match self {
            Type::Scalar(s) => Type::Scalar(*s),
            Type::Custom(t) => Type::Custom(TypeIdent { name: copy_string(&t.name) }),
        }
    }
}

/// A field of a message: its type, name and number.
pub struct NormalField {
    ty: Type,
    name: String,
    number: u32,
}

/// The mathematical value of a [`NormalField`].
pub struct NormalFieldView {
    pub ty: TypeView,
    pub name: Seq<char>,
    pub number: u32,
}

impl View for NormalField {
    type V = NormalFieldView;

    closed spec fn view(&self) -> NormalFieldView {
        NormalFieldView { ty: self.ty@, name: self.name@, number: self.number }
    }
}

/// The name of the custom type a field type refers to, if any.
pub open spec fn custom_name(t: TypeView) -> Option<Seq<char>> {
    match t {
        TypeView::Custom(n) => Some(n),
        TypeView::Scalar(_) => None,
    }
}

/// The field type with its custom name replaced by `n`.
pub open spec fn with_custom_name(t: TypeView, n: Seq<char>) -> TypeView {
    match t {
        TypeView::Custom(_) => TypeView::Custom(n),
        TypeView::Scalar(s) => TypeView::Scalar(s),
    }
}

impl NormalField {
    /// The field of C# type `ty`, named `name`, numbered `number`.
    pub fn new(ty: &String, name: String, number: u32) -> (res: NormalField)
        ensures
            res@ == (NormalFieldView { ty: type_of(ty@), name: name@, number }),
    {
        NormalField { ty: Type::from(ty), name, number }
    }

    /// The name of the custom type the field refers to, if any.
    pub fn custom_type(&self) -> (res: Option<String>)
        ensures
            match res {
                Some(n) => custom_name(self@.ty) == Some(n@),
                None => custom_name(self@.ty) is None,
            },
    {
        match &self.ty {
            Type::Custom(t) => Some(copy_string(&t.name)),
            Type::Scalar(_) => None,
        }
    }

    /// Replaces the name of the custom type the field refers to.
    pub fn set_custom_type(&mut self, name: String)
        ensures
            final(self)@ == (NormalFieldView { ty: with_custom_name(old(self)@.ty, name@), ..old(self)@ }),
    {
        if let Type::Custom(t) = &mut self.ty {
            t.name = name;
        }
    }

    /// The name of the field.
    pub fn name(&self) -> (res: &String)
        ensures
            res@ == self@.name,
    {
        &self.name
    }

    /// The number of the field.
    pub fn number(&self) -> (res: u32)
        ensures
            res == self@.number,
    {
        self.number
    }

    /// The type of the field.
    pub fn ty(&self) -> (res: &Type)
        ensures
            res@ == self@.ty,
    {
        &self.ty
    }

    /// A copy of the field.
    pub fn duplicate(&self) -> (res: NormalField)
        ensures
            res@ == self@,
    {
        NormalField { ty: self.ty.duplicate(), name: copy_string(&self.name), number: self.number }
    }
}

/// A map field of a message: key and value types, name and number.
pub struct MapField {
    key_ty: Type,
    val_ty: Type,
    name: String,
    number: u32,
}

/// The mathematical value of a [`MapField`].
pub struct MapFieldView {
    pub key_ty: TypeView,
    pub val_ty: TypeView,
    pub name: Seq<char>,
    pub number: u32,
}

impl View for MapField {
    type V = MapFieldView;

    closed spec fn view(&self) -> MapFieldView {
        MapFieldView { key_ty: self.key_ty@, val_ty: self.val_ty@, name: self.name@, number: self.number }
    }
}

/// The custom type names of a map field: key first, then value.
pub open spec fn map_custom_names(m: MapFieldView) -> Seq<Seq<char>> {
    option_seq(custom_name(m.key_ty)) + option_seq(custom_name(m.val_ty))
}

/// The sequence holding the value of `o`, if any.
pub open spec fn option_seq<T>(o: Option<T>) -> Seq<T> {
    match o {
        Some(v) => seq![v],
        None => seq![],
    }
}

impl MapField {
    /// The map field from C# key type `key_ty` to value type `val_ty`.
    pub fn new(key_ty: &String, val_ty: &String, name: String, number: u32) -> (res: MapField)
        ensures
            res@ == (MapFieldView { key_ty: type_of(key_ty@), val_ty: type_of(val_ty@), name: name@, number }),
    {
        MapField { key_ty: Type::from(key_ty), val_ty: Type::from(val_ty), name, number }
    }

    /// The names of the custom types the map refers to: key first, then value.
    pub fn custom_type(&self) -> (res: Vec<String>)
        ensures
            res@.map_values(|s: String| s@) == map_custom_names(self@),
    {
        let mut tys: Vec<String> = Vec::new();
        if let Type::Custom(t) = &self.key_ty {
            tys.push(copy_string(&t.name));
        }
        if let Type::Custom(t) = &self.val_ty {
            tys.push(copy_string(&t.name));
        }
        assert(tys@.map_values(|s: String| s@) =~= map_custom_names(self@));
        tys
    }

    /// Replaces the custom type names: key first, then value.
    pub fn set_custom_types(&mut self, names: &Vec<String>)
        requires
            names@.len() == map_custom_names(old(self)@).len(),
        ensures
            final(self)@ == (MapFieldView {
                key_ty: match custom_name(old(self)@.key_ty) {
                    Some(_) => TypeView::Custom(names@[0]@),
                    None => old(self)@.key_ty,
                },
                val_ty: match custom_name(old(self)@.val_ty) {
                    Some(_) => TypeView::Custom(names@[names@.len() - 1]@),
                    None => old(self)@.val_ty,
                },
                ..old(self)@
            }),
    {
        let n = names.len();
        if let Type::Custom(t) = &mut self.key_ty {
            t.name = copy_string(&names[0]);
        }
        if let Type::Custom(t) = &mut self.val_ty {
            t.name = copy_string(&names[n - 1]);
        }
    }

    /// A copy of the map field.
    pub fn duplicate(&self) -> (res: MapField)
        ensures
            res@ == self@,
    {
        MapField {
            key_ty: self.key_ty.duplicate(),
            val_ty: self.val_ty.duplicate(),
            name: copy_string(&self.name),
            number: self.number,
        }
    }

    /// The name of the map field.
    pub fn name(&self) -> (res: &String)
        ensures
            res@ == self@.name,
    {
        &self.name
    }

    /// The number of the map field.
    pub fn number(&self) -> (res: u32)
        ensures
            res == self@.number,
    {
        self.number
    }

    /// The key type.
    pub fn key_ty(&self) -> (res: &Type)
        ensures
            res@ == self@.key_ty,
    {
        &self.key_ty
    }

    /// The value type.
    pub fn val_ty(&self) -> (res: &Type)
        ensures
            res@ == self@.val_ty,
    {
        &self.val_ty
    }
}

/// A field of a message.
pub enum Field {
    Normal(NormalField),
    OneOf(String, Vec<NormalField>),
    Repeated(NormalField),
    Optional(NormalField),
    Mapped(MapField),
}

/// The mathematical value of a [`Field`].
pub enum FieldView {
    Normal(NormalFieldView),
    OneOf(Seq<char>, Seq<NormalFieldView>),
    Repeated(NormalFieldView),
    Optional(NormalFieldView),
    Mapped(MapFieldView),
}

impl View for Field {
    type V = FieldView;

    open spec fn view(&self) -> FieldView {
        match self {
            Field::Normal(f) => FieldView::Normal(f@),
            Field::OneOf(n, fs) => FieldView::OneOf(n@, fs@.map_values(|f: NormalField| f@)),
            Field::Repeated(f) => FieldView::Repeated(f@),
            Field::Optional(f) => FieldView::Optional(f@),
            Field::Mapped(f) => FieldView::Mapped(f@),
        }
    }
}

/// The custom type names a sequence of fields refers to, in order.
pub open spec fn normal_custom_names(fs: Seq<NormalFieldView>) -> Seq<Seq<char>>
    decreases fs.len(),
{
    if fs.len() == 0 {
        seq![]
    } else {
        normal_custom_names(fs.drop_last()) + option_seq(custom_name(fs.last().ty))
    }
}

/// The custom type names a field refers to, in order.
pub open spec fn field_custom_names(f: FieldView) -> Seq<Seq<char>> {
    match f {
        FieldView::Normal(n) => option_seq(custom_name(n.ty)),
        FieldView::OneOf(_, fs) => normal_custom_names(fs),
        FieldView::Repeated(n) => option_seq(custom_name(n.ty)),
        FieldView::Optional(n) => option_seq(custom_name(n.ty)),
        FieldView::Mapped(m) => map_custom_names(m),
    }
}

/// The vector holding the value of `opt`, if any.
pub fn option_to_vec<T>(opt: Option<T>) -> (res: Vec<T>)
    ensures
        res@ == option_seq(opt),
{
    let mut v = Vec::new();
    if let Some(val) = opt {
        v.push(val);
    }
    assert(v@ =~= option_seq(opt));
    v
}

impl Field {
    /// The names of the custom types the field refers to, in order.
    pub fn custom_types(&self) -> (res: Vec<String>)
        ensures
            res@.map_values(|s: String| s@) == field_custom_names(self@),
    {
        match self {
            Field::Normal(f) => {
                let v = option_to_vec(f.custom_type());
                assert(v@.map_values(|s: String| s@) =~= field_custom_names(self@));
                v
            },
            Field::OneOf(_s, fs) => {
                let ghost vs = fs@.map_values(|f: NormalField| f@);
                let mut v: Vec<String> = Vec::new();
                let mut i: usize = 0;
                while i < fs.len()
                    invariant
                        i <= fs@.len(),
                        vs == fs@.map_values(|f: NormalField| f@),
                        v@.map_values(|s: String| s@) == normal_custom_names(vs.take(i as int)),
                    decreases fs@.len() - i,
                {
                    assert(vs.take(i + 1).drop_last() =~= vs.take(i as int));
                    if let Some(t) = fs[i].custom_type() {
                        v.push(t);
                    }
                    i = i + 1;
                    assert(v@.map_values(|s: String| s@) =~= normal_custom_names(vs.take(i as int)));
                }
                assert(vs.take(fs@.len() as int) =~= vs);
                v
            },
            Field::Repeated(f) => {
                let v = option_to_vec(f.custom_type());
                assert(v@.map_values(|s: String| s@) =~= field_custom_names(self@));
                v
            },
            Field::Optional(f) => {
                let v = option_to_vec(f.custom_type());
                assert(v@.map_values(|s: String| s@) =~= field_custom_names(self@));
                v
            },
            Field::Mapped(f) => f.custom_type(),
        }
    }
}

/// The field with the custom type it refers to, if any, renamed by the first of `ns`.
pub open spec fn renamed_normal(f: NormalFieldView, ns: Seq<Seq<char>>) -> NormalFieldView {
    NormalFieldView { ty: with_custom_name(f.ty, ns[0]), ..f }
}

/// The fields with the custom types they refer to renamed, in order, by `ns`.
pub open spec fn renamed_normals(fs: Seq<NormalFieldView>, ns: Seq<Seq<char>>) -> Seq<NormalFieldView>
    decreases fs.len(),
{
    if fs.len() == 0 {
        seq![]
    } else {
        let k = option_seq(custom_name(fs.last().ty)).len();
        renamed_normals(fs.drop_last(), ns.take(ns.len() - k)).push(renamed_normal(fs.last(), ns.skip(ns.len() - k)))
    }
}

/// The field with the custom types it refers to renamed, in order, by `ns`.
pub open spec fn renamed_field(f: FieldView, ns: Seq<Seq<char>>) -> FieldView {
    match f {
        FieldView::Normal(n) => FieldView::Normal(renamed_normal(n, ns)),
        FieldView::OneOf(s, fs) => FieldView::OneOf(s, renamed_normals(fs, ns)),
        FieldView::Repeated(n) => FieldView::Repeated(renamed_normal(n, ns)),
        FieldView::Optional(n) => FieldView::Optional(renamed_normal(n, ns)),
        FieldView::Mapped(m) => FieldView::Mapped(
            MapFieldView { key_ty: with_custom_name(m.key_ty, ns[0]), val_ty: with_custom_name(m.val_ty, ns.last()), ..m },
        ),
    }
}

fn renamed_normal_exec(f: &NormalField, names: &Vec<String>, at: usize) -> (res: NormalField)
    requires
        custom_name(f@.ty) is Some ==> at < names@.len(),
    ensures
        res@ == renamed_normal(f@, names@.map_values(|s: String| s@).skip(at as int)),
{
    let mut g = f.duplicate();
    if let Some(_) = f.custom_type() {
        g.set_custom_type(copy_string(&names[at]));
    }
    g
}

impl Field {
    /// Renames, in place and in order, the custom types the field refers
    /// to by `names`: the names [`Field::custom_types`] gives, replaced.
    pub fn set_custom_types(&mut self, names: &Vec<String>)
        requires
            names@.len() == field_custom_names(old(self)@).len(),
        ensures
            final(self)@ == renamed_field(old(self)@, names@.map_values(|s: String| s@)),
    {
        let renamed = self.with_custom_types(names);
        *self = renamed;
    }

    /// The field with the custom types it refers to renamed, in order, by `names`.
    pub fn with_custom_types(&self, names: &Vec<String>) -> (res: Field)
        requires
            names@.len() == field_custom_names(self@).len(),
        ensures
            res@ == renamed_field(self@, names@.map_values(|s: String| s@)),
    {
        let ghost ns = names@.map_values(|s: String| s@);
        assert(ns.skip(0) =~= ns);
        match self {
            Field::Normal(f) => Field::Normal(renamed_normal_exec(f, names, 0)),
            Field::Repeated(f) => Field::Repeated(renamed_normal_exec(f, names, 0)),
            Field::Optional(f) => Field::Optional(renamed_normal_exec(f, names, 0)),
            Field::Mapped(m) => {
                let mut g = m.duplicate();
                g.set_custom_types(names);
                Field::Mapped(g)
            },
            Field::OneOf(s, fs) => {
                let ghost vs = fs@.map_values(|f: NormalField| f@);
                let mut out: Vec<NormalField> = Vec::new();
                let nn = names.len();
                let mut j: usize = 0;
                let mut i: usize = 0;
                assert(vs.take(0) =~= Seq::<NormalFieldView>::empty());
                while i < fs.len()
                    invariant
                        i <= fs@.len(),
                        vs == fs@.map_values(|f: NormalField| f@),
                        ns == names@.map_values(|s: String| s@),
                        nn == names@.len(),
                        ns.len() == normal_custom_names(vs).len(),
                        j == normal_custom_names(vs.take(i as int)).len(),
                        out@.map_values(|f: NormalField| f@) == renamed_normals(vs.take(i as int), ns.take(j as int)),
                    decreases fs@.len() - i,
                {
                    proof {
                        lemma_custom_names_prefix(vs, i as int);
                        assert(vs.take(i + 1).drop_last() =~= vs.take(i as int));
                        assert(vs.take(i + 1).last() == vs[i as int]);
                    }
                    let ghost k = option_seq(custom_name(vs[i as int].ty)).len();
                    assert(vs[i as int] == fs@[i as int]@);
                    let g = renamed_normal_exec(&fs[i], names, j);
                    out.push(g);
                    proof {
                        let j2 = j + k;
                        assert(ns.take(j2).take(j2 - k) =~= ns.take(j as int));
                        if k == 1 {
                            assert(ns.take(j2).skip(j2 - k)[0] == ns[j as int]);
                            assert(ns.skip(j as int)[0] == ns[j as int]);
                        }
                        assert(renamed_normal(vs[i as int], ns.take(j2).skip(j2 - k)) == renamed_normal(vs[i as int], ns.skip(j as int)));
                        assert(out@.map_values(|f: NormalField| f@) =~= renamed_normals(vs.take(i + 1), ns.take(j2)));
                    }
                    if let Some(_) = fs[i].custom_type() {
                        assert(k == 1);
                        assert(j + 1 <= normal_custom_names(vs.take(i + 1)).len());
                        assert(j + 1 <= nn);
                        j = j + 1;
                    }
                    i = i + 1;
                }
                assert(vs.take(i as int) =~= vs);
                assert(ns.take(j as int) =~= ns);
                Field::OneOf(copy_string(s), out)
            },
        }
    }
}

proof fn lemma_custom_names_prefix(vs: Seq<NormalFieldView>, i: int)
    requires
        0 <= i < vs.len(),
    ensures
        normal_custom_names(vs.take(i + 1)) == normal_custom_names(vs.take(i)) + option_seq(custom_name(vs[i].ty)),
        normal_custom_names(vs.take(i + 1)).len() <= normal_custom_names(vs).len(),
    decreases vs.len() - i,
{
    assert(vs.take(i + 1).drop_last() =~= vs.take(i));
    if i + 1 < vs.len() {
        lemma_custom_names_prefix(vs, i + 1);
    } else {
        assert(vs.take(i + 1) =~= vs);
    }
}

} // verus!
