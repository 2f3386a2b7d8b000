//! What a C# field of a generated message class stands for in the protobuf message.

use vstd::prelude::*;

use crate::case::{cased, convert_case, is_case, recased, Case};
use crate::parser::common::{LiteralView, Literal, Visibility};
use crate::parser::data_structs::{copy_modifiers, Field, FieldModifier, FieldView};
use crate::text::{copy_string, ends_with, has_prefix, has_suffix, starts_with, str_eq,
    try_strip_prefix, try_strip_prefix_of, try_strip_suffix, try_strip_suffix_of};

verus! {

/// What a field of a generated message class stands for.
pub enum GenField {
    /// The field number of a field: name, number.
    Number(String, u32),
    /// A plain field: name, type.
    Type(String, String),
    /// A repeated field: name, element type.
    RepeatedType(String, String),
    /// A map field: name, `key, value` types.
    MapType(String, String),
    /// The default value of an optional field: name, type.
    DefaultValue(String, String),
    /// The codec of a repeated field: name, type.
    RepeatedCodec(String, String),
    /// The codec of a map field: name, type.
    MapCodec(String, String),
    /// The object that holds the value of a oneof: its name.
    OneofCaseObject(String),
    /// The case of a oneof: its name.
    OneofCaseType(String),
    /// A field the message does not show.
    Blanket,
}

/// The mathematical value of a [`GenField`].
pub enum GenFieldView {
    Number(Seq<char>, u32),
    Type(Seq<char>, Seq<char>),
    RepeatedType(Seq<char>, Seq<char>),
    MapType(Seq<char>, Seq<char>),
    DefaultValue(Seq<char>, Seq<char>),
    RepeatedCodec(Seq<char>, Seq<char>),
    MapCodec(Seq<char>, Seq<char>),
    OneofCaseObject(Seq<char>),
    OneofCaseType(Seq<char>),
    Blanket,
}

impl View for GenField {
    type V = GenFieldView;

    open spec fn view(&self) -> GenFieldView {
        match self {
            GenField::Number(n, x) => GenFieldView::Number(n@, *x),
            GenField::Type(n, t) => GenFieldView::Type(n@, t@),
            GenField::RepeatedType(n, t) => GenFieldView::RepeatedType(n@, t@),
            GenField::MapType(n, t) => GenFieldView::MapType(n@, t@),
            GenField::DefaultValue(n, t) => GenFieldView::DefaultValue(n@, t@),
            GenField::RepeatedCodec(n, t) => GenFieldView::RepeatedCodec(n@, t@),
            GenField::MapCodec(n, t) => GenFieldView::MapCodec(n@, t@),
            GenField::OneofCaseObject(n) => GenFieldView::OneofCaseObject(n@),
            GenField::OneofCaseType(n) => GenFieldView::OneofCaseType(n@),
            GenField::Blanket => GenFieldView::Blanket,
        }
    }
}

/// A condition on a string.
pub enum StringSpec {
    Eq(String),
    StartWith(String),
    EndWith(String),
    IsCase(Case),
}

/// The mathematical value of a [`StringSpec`].
pub enum StringSpecView {
    Eq(Seq<char>),
    StartWith(Seq<char>),
    EndWith(Seq<char>),
    IsCase(Case),
}

impl View for StringSpec {
    type V = StringSpecView;

    open spec fn view(&self) -> StringSpecView {
        match self {
            StringSpec::Eq(p) => StringSpecView::Eq(p@),
            StringSpec::StartWith(p) => StringSpecView::StartWith(p@),
            StringSpec::EndWith(p) => StringSpecView::EndWith(p@),
            StringSpec::IsCase(c) => StringSpecView::IsCase(*c),
        }
    }
}

/// `s` meets the condition `spec`.
pub open spec fn string_spec_holds(spec: StringSpecView, s: Seq<char>) -> bool {
    match spec {
        StringSpecView::Eq(p) => s == p,
        StringSpecView::StartWith(p) => has_prefix(s, p),
        StringSpecView::EndWith(p) => has_suffix(s, p),
        StringSpecView::IsCase(c) => cased(s, c) == s,
    }
}

/// `s` meets every condition of `specs`.
pub open spec fn string_specs_hold(specs: Seq<StringSpecView>, s: Seq<char>) -> bool {
    forall|i: int| 0 <= i < specs.len() ==> string_spec_holds(#[trigger] specs[i], s)
}

impl StringSpec {
    /// `s` meets the condition.
    pub fn matches(&self, s: &str) -> (res: bool)
        ensures
            res == string_spec_holds(self@, s@),
    {
        match self {
            StringSpec::Eq(p) => str_eq(s, p.as_str()),
            StringSpec::StartWith(p) => starts_with(s, p.as_str()),
            StringSpec::EndWith(p) => ends_with(s, p.as_str()),
            StringSpec::IsCase(case) => is_case(s, *case),
        }
    }
}

/// `s` meets every condition of `specs`.
fn all_match(specs: &Vec<StringSpec>, s: &str) -> (res: bool)
    ensures
        res == string_specs_hold(specs@.map_values(|x: StringSpec| x@), s@),
{
    let ghost vs = specs@.map_values(|x: StringSpec| x@);
    let mut i: usize = 0;
    while i < specs.len()
        invariant
            i <= specs@.len(),
            vs == specs@.map_values(|x: StringSpec| x@),
            forall|j: int| 0 <= j < i ==> string_spec_holds(#[trigger] vs[j], s@),
        decreases specs@.len() - i,
    {
        if !specs[i].matches(s) {
            assert(!string_spec_holds(vs[i as int], s@));
            return false;
        }
        i = i + 1;
    }
    true
}

/// A condition on the value assigned to a field.
#[derive(Clone, Copy, Debug, PartialEq, Eq, Structural)]
pub enum ValueSpec {
    /// No value is assigned.
    NoValue,
    /// A number is assigned.
    IsNumber,
}

/// The assigned value `v` meets the condition `spec`.
pub open spec fn value_spec_holds(spec: ValueSpec, v: Option<LiteralView>) -> bool {
    match spec {
        ValueSpec::NoValue => v is None,
        ValueSpec::IsNumber => v matches Some(LiteralView::Number(_)),
    }
}

impl ValueSpec {
    /// The assigned value meets the condition.
    pub fn matches(&self, v: &Option<Literal>) -> (res: bool)
        ensures
            res == value_spec_holds(*self, crate::parser::data_structs::literal_option_view(*v)),
    {
        match self {
            ValueSpec::NoValue => v.is_none(),
            ValueSpec::IsNumber => match v {
                Some(Literal::Number(_)) => true,
                _ => false,
            },
        }
    }
}

/// The two sequences of field modifiers are equal.
pub fn same_modifiers(a: &Vec<FieldModifier>, b: &Vec<FieldModifier>) -> (res: bool)
    ensures
        res == (a@ == b@),
{
    if a.len() != b.len() {
        return false;
    }
    let mut i: usize = 0;
    while i < a.len()
        invariant
            a@.len() == b@.len(),
            i <= a@.len(),
            forall|j: int| 0 <= j < i ==> a@[j] == b@[j],
        decreases a@.len() - i,
    {
        if a[i] != b[i] {
            return false;
        }
        i = i + 1;
    }
    assert(a@ =~= b@);
    true
}

/// A pattern of fields: each part that is given must match.
pub struct FieldSpec {
    visibility: Option<Visibility>,
    name: Vec<StringSpec>,
    ty: Vec<StringSpec>,
    modifiers: Option<Vec<FieldModifier>>,
    assign_value: Option<ValueSpec>,
}

/// The mathematical value of a [`FieldSpec`].
pub struct FieldSpecView {
    pub visibility: Option<Visibility>,
    pub name: Seq<StringSpecView>,
    pub ty: Seq<StringSpecView>,
    pub modifiers: Option<Seq<FieldModifier>>,
    pub assign_value: Option<ValueSpec>,
}

impl View for FieldSpec {
    type V = FieldSpecView;

    closed spec fn view(&self) -> FieldSpecView {
        FieldSpecView {
            visibility: self.visibility,
            name: self.name@.map_values(|x: StringSpec| x@),
            ty: self.ty@.map_values(|x: StringSpec| x@),
            modifiers: match self.modifiers {
                Some(m) => Some(m@),
                None => None,
            },
            assign_value: self.assign_value,
        }
    }
}

/// The pattern that matches every field.
pub open spec fn any_field() -> FieldSpecView {
    FieldSpecView { visibility: None, name: seq![], ty: seq![], modifiers: None, assign_value: None }
}

/// The field `f` matches the pattern `spec`.
pub open spec fn field_spec_holds(spec: FieldSpecView, f: FieldView) -> bool {
    &&& (spec.visibility matches Some(v) ==> v == f.visibility)
    &&& string_specs_hold(spec.name, f.name)
    &&& string_specs_hold(spec.ty, f.ty)
    &&& (spec.assign_value matches Some(a) ==> value_spec_holds(a, f.assign_value))
    &&& (spec.modifiers matches Some(m) ==> m == f.modifiers)
}

impl FieldSpec {
    /// The pattern that matches every field.
    pub fn new() -> (res: FieldSpec)
        ensures
            res@ == any_field(),
    {
        let res = FieldSpec { visibility: None, name: Vec::new(), ty: Vec::new(), modifiers: None, assign_value: None };
        assert(res@.name =~= seq![]);
        assert(res@.ty =~= seq![]);
        res
    }

    /// The field matches the pattern.
    pub fn matches(&self, f: &Field) -> (res: bool)
        ensures
            res == field_spec_holds(self@, f@),
    {
        (match self.visibility {
            None => true,
            Some(v) => v == f.visibility,
        }) && all_match(&self.name, f.name.as_str()) && all_match(&self.ty, f.ty.as_str()) && (
        match &self.assign_value {
            None => true,
            Some(spec) => spec.matches(&f.assign_value),
        }) && (match &self.modifiers {
            None => true,
            Some(modifiers) => same_modifiers(modifiers, &f.modifiers),
        })
    }

    /// The pattern with one more condition on the type.
    pub fn ty(self, spec: StringSpec) -> (res: FieldSpec)
        ensures
            res@ == (FieldSpecView { ty: self@.ty.push(spec@), ..self@ }),
    {
        let mut s = self;
        s.ty.push(spec);
        proof {
            assert(s@.ty =~= self@.ty.push(spec@));
            assert(s@.name =~= self@.name);
        }
        s
    }

    /// The pattern with one more condition on the name.
    pub fn name(self, spec: StringSpec) -> (res: FieldSpec)
        ensures
            res@ == (FieldSpecView { name: self@.name.push(spec@), ..self@ }),
    {
        let mut s = self;
        s.name.push(spec);
        proof {
            assert(s@.name =~= self@.name.push(spec@));
            assert(s@.ty =~= self@.ty);
        }
        s
    }

    /// The pattern with one more modifier required, in order.
    pub fn modifier(self, modifier: FieldModifier) -> (res: FieldSpec)
        ensures
            res@ == (FieldSpecView {
                modifiers: Some(
                    match self@.modifiers {
                        Some(m) => m,
                        None => seq![],
                    }.push(modifier),
                ),
                ..self@
            }),
    {
        let mut s = self;
        let mut m = match s.modifiers {
            Some(m) => m,
            None => Vec::new(),
        };
        m.push(modifier);
        let res = FieldSpec { modifiers: Some(m), ..s };
        proof {
            assert(res@.name =~= self@.name);
            assert(res@.ty =~= self@.ty);
        }
        res
    }

    /// The pattern requiring a field without modifiers.
    pub fn empty_modifiers(self) -> (res: FieldSpec)
        ensures
            res@ == (FieldSpecView { modifiers: Some(seq![]), ..self@ }),
    {
        let res = FieldSpec { modifiers: Some(Vec::new()), ..self };
        proof {
            assert(res@.name =~= self@.name);
            assert(res@.ty =~= self@.ty);
            assert(res@.modifiers->0 =~= seq![]);
        }
        res
    }

    /// The pattern requiring exactly these modifiers, in order.
    pub fn modifiers(self, modifiers: Vec<FieldModifier>) -> (res: FieldSpec)
        ensures
            res@ == (FieldSpecView { modifiers: Some(modifiers@), ..self@ }),
    {
        let res = FieldSpec { modifiers: Some(modifiers), ..self };
        proof {
            assert(res@.name =~= self@.name);
            assert(res@.ty =~= self@.ty);
        }
        res
    }

    /// The pattern with a condition on the assigned value.
    pub fn assign_value(self, assign_value: ValueSpec) -> (res: FieldSpec)
        ensures
            res@ == (FieldSpecView { assign_value: Some(assign_value), ..self@ }),
    {
        let res = FieldSpec { assign_value: Some(assign_value), ..self };
        proof {
            assert(res@.name =~= self@.name);
            assert(res@.ty =~= self@.ty);
        }
        res
    }

    /// The pattern requiring a visibility.
    pub fn visibility(self, visibility: Visibility) -> (res: FieldSpec)
        ensures
            res@ == (FieldSpecView { visibility: Some(visibility), ..self@ }),
    {
        let res = FieldSpec { visibility: Some(visibility), ..self };
        proof {
            assert(res@.name =~= self@.name);
            assert(res@.ty =~= self@.ty);
        }
        res
    }
}

/// One step of a string transformation.
pub enum StrOperation {
    TryStripPrefix(String),
    TryStripSuffix(String),
    ToCase(Case, Case),
}

/// The mathematical value of a [`StrOperation`].
pub enum StrOperationView {
    TryStripPrefix(Seq<char>),
    TryStripSuffix(Seq<char>),
    ToCase(Case, Case),
}

impl View for StrOperation {
    type V = StrOperationView;

    open spec fn view(&self) -> StrOperationView {
        match self {
            StrOperation::TryStripPrefix(p) => StrOperationView::TryStripPrefix(p@),
            StrOperation::TryStripSuffix(p) => StrOperationView::TryStripSuffix(p@),
            StrOperation::ToCase(a, b) => StrOperationView::ToCase(*a, *b),
        }
    }
}

/// The string that one step makes of `s`.
pub open spec fn op_apply(op: StrOperationView, s: Seq<char>) -> Seq<char> {
    match op {
        StrOperationView::TryStripPrefix(p) => try_strip_prefix_of(s, p),
        StrOperationView::TryStripSuffix(p) => try_strip_suffix_of(s, p),
        StrOperationView::ToCase(from, to) => recased(s, from, to),
    }
}

/// The string that the steps `ops`, taken in order, make of `s`.
pub open spec fn format_apply(ops: Seq<StrOperationView>, s: Seq<char>) -> Seq<char>
    decreases ops.len(),
{
    if ops.len() == 0 {
        s
    } else {
        op_apply(ops.last(), format_apply(ops.drop_last(), s))
    }
}

impl StrOperation {
    /// The string the step makes of `s`.
    pub fn apply(&self, s: &str) -> (res: String)
        ensures
            res@ == op_apply(self@, s@),
    {
        match self {
            StrOperation::TryStripPrefix(pat) => try_strip_prefix(s, pat.as_str()),
            StrOperation::TryStripSuffix(pat) => try_strip_suffix(s, pat.as_str()),
            StrOperation::ToCase(from, to) => convert_case(s, *from, *to),
        }
    }
}

/// A string transformation: a sequence of steps taken in order.
pub struct StrFormat(Vec<StrOperation>);

impl View for StrFormat {
    type V = Seq<StrOperationView>;

    closed spec fn view(&self) -> Seq<StrOperationView> {
        self.0@.map_values(|x: StrOperation| x@)
    }
}

impl StrFormat {
    /// The transformation with no step.
    pub fn new() -> (res: StrFormat)
        ensures
            res@ == Seq::<StrOperationView>::empty(),
    {
        let res = StrFormat(Vec::new());
        assert(res@ =~= Seq::<StrOperationView>::empty());
        res
    }

    /// The string the transformation makes of `s`.
    pub fn apply(&self, s: &str) -> (res: String)
        ensures
            res@ == format_apply(self@, s@),
    {
        let ghost ops = self@;
        let mut cur = s.to_owned();
        let mut i: usize = 0;
        assert(ops.take(0) =~= Seq::<StrOperationView>::empty());
        while i < self.0.len()
            invariant
                ops == self@,
                ops.len() == self.0@.len(),
                i <= ops.len(),
                cur@ == format_apply(ops.take(i as int), s@),
            decreases ops.len() - i,
        {
            let next = self.0[i].apply(cur.as_str());
            assert(ops.take(i + 1).drop_last() =~= ops.take(i as int));
            assert(ops[i as int] == self.0@[i as int]@);
            cur = next;
            i = i + 1;
        }
        assert(ops.take(ops.len() as int) =~= ops);
        cur
    }

    fn push(self, op: StrOperation) -> (res: StrFormat)
        ensures
            res@ == self@.push(op@),
    {
        let mut v = self.0;
        v.push(op);
        let res = StrFormat(v);
        assert(res@ =~= self@.push(op@));
        res
    }

    /// The transformation followed by a case conversion.
    pub fn as_case(self, from: Case, to: Case) -> (res: StrFormat)
        ensures
            res@ == self@.push(StrOperationView::ToCase(from, to)),
    {
        self.push(StrOperation::ToCase(from, to))
    }

    /// The transformation followed by a conversion to snake case.
    pub fn as_snake(self, from: Case) -> (res: StrFormat)
        ensures
            res@ == self@.push(StrOperationView::ToCase(from, Case::Snake)),
    {
        self.as_case(from, Case::Snake)
    }

    /// The transformation followed by stripping the prefix `s` where present.
    pub fn try_strip_prefix(self, s: &str) -> (res: StrFormat)
        ensures
            res@ == self@.push(StrOperationView::TryStripPrefix(s@)),
    {
        self.push(StrOperation::TryStripPrefix(s.to_owned()))
    }

    /// The transformation followed by stripping the suffix `s` where present.
    pub fn try_strip_suffix(self, s: &str) -> (res: StrFormat)
        ensures
            res@ == self@.push(StrOperationView::TryStripSuffix(s@)),
    {
        self.push(StrOperation::TryStripSuffix(s.to_owned()))
    }
}

/// `s` with the suffix `a` stripped where present, then in snake case from `case`.
pub open spec fn strip_to_snake(s: Seq<char>, a: Seq<char>, case: Case) -> Seq<char> {
    recased(try_strip_suffix_of(s, a), case, Case::Snake)
}

/// `s` with the prefix `p` and then the suffix `a` stripped where present.
pub open spec fn strip_both(s: Seq<char>, p: Seq<char>, a: Seq<char>) -> Seq<char> {
    try_strip_suffix_of(try_strip_prefix_of(s, p), a)
}

/// The pattern of the constant giving a field's number:
/// `public const int XFieldNumber = <number>;`.
pub open spec fn number_pattern() -> FieldSpecView {
    FieldSpecView {
        visibility: Some(Visibility::Public),
        name: seq![StringSpecView::EndWith("FieldNumber"@)],
        ty: seq![StringSpecView::Eq("int"@)],
        modifiers: Some(seq![FieldModifier::Const]),
        assign_value: Some(ValueSpec::IsNumber),
    }
}

/// The pattern of the message parser field.
pub open spec fn parser_pattern() -> FieldSpecView {
    FieldSpecView {
        name: seq![StringSpecView::Eq("_parser"@)],
        ty: seq![StringSpecView::StartWith("MessageParser"@)],
        ..any_field()
    }
}

/// The pattern of the unknown-fields field.
pub open spec fn unknown_fields_pattern() -> FieldSpecView {
    FieldSpecView {
        name: seq![StringSpecView::Eq("_unknownFields"@)],
        ty: seq![StringSpecView::StartWith("UnknownFieldSet"@)],
        ..any_field()
    }
}

/// The pattern of the has-bits field.
pub open spec fn has_bits_pattern() -> FieldSpecView {
    FieldSpecView {
        name: seq![StringSpecView::Eq("_hasBits0"@)],
        ty: seq![StringSpecView::Eq("int"@)],
        ..any_field()
    }
}

/// The pattern of the default value of an optional field.
pub open spec fn default_value_pattern() -> FieldSpecView {
    FieldSpecView {
        visibility: Some(Visibility::Private),
        name: seq![StringSpecView::EndWith("DefaultValue"@), StringSpecView::IsCase(Case::Pascal)],
        ty: seq![],
        modifiers: Some(seq![FieldModifier::Static, FieldModifier::ReadOnly]),
        assign_value: Some(ValueSpec::NoValue),
    }
}

/// The pattern of a private backing field `name_`.
pub open spec fn backing_pattern() -> FieldSpecView {
    FieldSpecView {
        visibility: Some(Visibility::Private),
        name: seq![StringSpecView::EndWith("_"@)],
        assign_value: Some(ValueSpec::NoValue),
        ..any_field()
    }
}

/// A pattern on modifiers and type alone.
pub open spec fn typed_pattern(modifiers: Seq<FieldModifier>, ty: Seq<StringSpecView>) -> FieldSpecView {
    FieldSpecView { modifiers: Some(modifiers), ty, ..any_field() }
}

/// The pattern of the codec of a repeated or map field.
pub open spec fn codec_pattern(ty: Seq<char>, prefix: Seq<char>) -> FieldSpecView {
    FieldSpecView {
        visibility: Some(Visibility::Private),
        name: seq![StringSpecView::StartWith(prefix), StringSpecView::EndWith("_codec"@)],
        ty: seq![StringSpecView::StartWith(ty)],
        modifiers: Some(seq![FieldModifier::Static, FieldModifier::ReadOnly]),
        assign_value: Some(ValueSpec::NoValue),
    }
}

/// What a backing field `name_` stands for, if anything.
pub open spec fn backing_field_of(f: FieldView) -> Option<GenFieldView> {
    let name = recased(try_strip_suffix_of(f.name, "_"@), Case::Camel, Case::Snake);
    if field_spec_holds(typed_pattern(seq![], seq![StringSpecView::EndWith("OneofCase"@)]), f) {
        Some(GenFieldView::OneofCaseType(strip_to_snake(f.name, "Case_"@, Case::Camel)))
    } else if field_spec_holds(typed_pattern(seq![], seq![StringSpecView::Eq("object"@)]), f) {
        Some(GenFieldView::OneofCaseObject(name))
    } else if field_spec_holds(typed_pattern(seq![], seq![]), f) {
        Some(GenFieldView::Type(name, f.ty))
    } else if field_spec_holds(
        typed_pattern(seq![FieldModifier::ReadOnly], seq![StringSpecView::StartWith("RepeatedField"@)]),
        f,
    ) {
        Some(GenFieldView::RepeatedType(name, strip_both(f.ty, "RepeatedField<"@, ">"@)))
    } else if field_spec_holds(
        typed_pattern(seq![FieldModifier::ReadOnly], seq![StringSpecView::StartWith("MapField"@)]),
        f,
    ) {
        Some(GenFieldView::MapType(name, strip_both(f.ty, "MapField<"@, ">"@)))
    } else {
        None
    }
}

/// What a field of a generated message class stands for, if anything.
pub open spec fn gen_field_of(f: FieldView) -> Option<GenFieldView> {
    if field_spec_holds(number_pattern(), f) {
        Some(GenFieldView::Number(
            recased(try_strip_suffix_of(try_strip_suffix_of(f.name, "FieldNumber"@), "_"@), Case::Pascal, Case::Snake),
            literal_u32_of(f.assign_value),
        ))
    } else if field_spec_holds(parser_pattern(), f) || field_spec_holds(unknown_fields_pattern(), f)
        || field_spec_holds(has_bits_pattern(), f) {
        Some(GenFieldView::Blanket)
    } else if field_spec_holds(default_value_pattern(), f) {
        Some(GenFieldView::DefaultValue(strip_to_snake(f.name, "DefaultValue"@, Case::Pascal), f.ty))
    } else if field_spec_holds(backing_pattern(), f) && backing_field_of(f) is Some {
        backing_field_of(f)
    } else if field_spec_holds(codec_pattern("FieldCodec"@, "_repeated_"@), f) {
        Some(GenFieldView::RepeatedCodec(
            recased(strip_both(f.name, "_repeated_"@, "_codec"@), Case::Camel, Case::Snake),
            f.ty,
        ))
    } else if field_spec_holds(codec_pattern("MapField.Codec"@, "_map_"@), f) {
        Some(GenFieldView::MapCodec(
            recased(strip_both(f.name, "_map_"@, "_codec"@), Case::Camel, Case::Snake),
            f.ty,
        ))
    } else {
        None
    }
}

/// A private `static readonly` field without a value, named `XDefaultValue`
/// in Pascal case, stands for the default value of the optional field whose
/// name is `X` in snake case: the suffix `DefaultValue` comes off before the
/// case changes, and the field keeps its type.
pub proof fn lemma_default_value_names_its_field(f: FieldView, x: Seq<char>)
    requires
        f.name == x + "DefaultValue"@,
        f.visibility == Visibility::Private,
        f.modifiers == seq![FieldModifier::Static, FieldModifier::ReadOnly],
        f.assign_value is None,
        cased(f.name, Case::Pascal) == f.name,
    ensures
        gen_field_of(f) == Some(GenFieldView::DefaultValue(recased(x, Case::Pascal, Case::Snake), f.ty)),
{
    reveal_strlit("DefaultValue");
    reveal_strlit("_parser");
    reveal_strlit("_unknownFields");
    reveal_strlit("_hasBits0");
    let n = f.name;
    assert(n.last() == 'e');
    assert(!field_spec_holds(number_pattern(), f));
    assert(!string_spec_holds(parser_pattern().name[0], n));
    assert(!field_spec_holds(parser_pattern(), f));
    assert(!string_spec_holds(unknown_fields_pattern().name[0], n));
    assert(!field_spec_holds(unknown_fields_pattern(), f));
    assert(!string_spec_holds(has_bits_pattern().name[0], n));
    assert(!field_spec_holds(has_bits_pattern(), f));
    assert(n.skip(n.len() - 12) =~= "DefaultValue"@);
    assert(has_suffix(n, "DefaultValue"@));
    let d = default_value_pattern();
    assert(string_spec_holds(d.name[0], n));
    assert(string_spec_holds(d.name[1], n));
    assert(string_specs_hold(d.name, n));
    assert(string_specs_hold(d.ty, f.ty));
    assert(field_spec_holds(d, f));
    assert(n.take(n.len() - 12) =~= x);
    assert(try_strip_suffix_of(n, "DefaultValue"@) == x);
}

/// A `public const int XFieldNumber = N;` constant gives field `X` (in snake
/// case, without a trailing `_`) the number `N`.
pub proof fn lemma_number_constant_numbers_its_field(f: FieldView, x: Seq<char>, k: u32)
    requires
        f.name == x + "FieldNumber"@,
        f.visibility == Visibility::Public,
        f.ty == "int"@,
        f.modifiers == seq![FieldModifier::Const],
        f.assign_value matches Some(l) && l is Number && crate::parser::common::literal_u32(l) == Some(k),
    ensures
        gen_field_of(f) == Some(GenFieldView::Number(
            recased(try_strip_suffix_of(x, "_"@), Case::Pascal, Case::Snake),
            k,
        )),
{
    reveal_strlit("FieldNumber");
    reveal_strlit("int");
    let n = f.name;
    let p = number_pattern();
    assert(n.skip(n.len() - 11) =~= "FieldNumber"@);
    assert(string_spec_holds(p.name[0], n));
    assert(string_specs_hold(p.name, n));
    assert(string_spec_holds(p.ty[0], f.ty));
    assert(string_specs_hold(p.ty, f.ty));
    assert(field_spec_holds(p, f));
    assert(n.take(n.len() - 11) =~= x);
    assert(try_strip_suffix_of(n, "FieldNumber"@) == x);
}

/// A private backing field `x_` without modifiers or a value, whose type
/// `T` is not `object` and does not end with `OneofCase`, is the plain field
/// `x` (in snake case) of type `T`.
pub proof fn lemma_plain_backing_field(f: FieldView, x: Seq<char>)
    requires
        f.name == x + "_"@,
        f.visibility == Visibility::Private,
        f.modifiers == Seq::<FieldModifier>::empty(),
        f.assign_value is None,
        f.ty != "object"@,
        !has_suffix(f.ty, "OneofCase"@),
    ensures
        gen_field_of(f) == Some(GenFieldView::Type(recased(x, Case::Camel, Case::Snake), f.ty)),
{
    lemma_backing_field_not_special(f, x);
    let a = typed_pattern(seq![], seq![StringSpecView::EndWith("OneofCase"@)]);
    assert(!string_spec_holds(a.ty[0], f.ty));
    assert(!field_spec_holds(a, f));
    let b = typed_pattern(seq![], seq![StringSpecView::Eq("object"@)]);
    assert(!string_spec_holds(b.ty[0], f.ty));
    assert(!field_spec_holds(b, f));
    let c = typed_pattern(seq![], seq![]);
    assert(string_specs_hold(c.ty, f.ty));
    assert(string_specs_hold(c.name, f.name));
    assert(field_spec_holds(c, f));
}

/// A private `readonly` backing field `x_` of type `RepeatedField<T>`
/// without a value is the repeated field `x` (in snake case) of element
/// type `T`.
pub proof fn lemma_repeated_backing_field(f: FieldView, x: Seq<char>, t: Seq<char>)
    requires
        f.name == x + "_"@,
        f.visibility == Visibility::Private,
        f.modifiers == seq![FieldModifier::ReadOnly],
        f.assign_value is None,
        f.ty == "RepeatedField<"@ + t + ">"@,
    ensures
        gen_field_of(f) == Some(GenFieldView::RepeatedType(recased(x, Case::Camel, Case::Snake), t)),
{
    lemma_backing_field_not_special(f, x);
    assert(f.modifiers.len() == 1);
    assert(f.modifiers != Seq::<FieldModifier>::empty());
    assert(!field_spec_holds(typed_pattern(seq![], seq![StringSpecView::EndWith("OneofCase"@)]), f));
    assert(!field_spec_holds(typed_pattern(seq![], seq![StringSpecView::Eq("object"@)]), f));
    assert(!field_spec_holds(typed_pattern(seq![], seq![]), f));
    reveal_strlit("RepeatedField<");
    reveal_strlit("RepeatedField");
    reveal_strlit(">");
    let ty = f.ty;
    assert(ty.take(13) =~= "RepeatedField"@);
    let q = typed_pattern(seq![FieldModifier::ReadOnly], seq![StringSpecView::StartWith("RepeatedField"@)]);
    assert(string_spec_holds(q.ty[0], ty));
    assert(string_specs_hold(q.ty, ty));
    assert(field_spec_holds(q, f));
    assert(ty.take(14) =~= "RepeatedField<"@);
    assert(try_strip_prefix_of(ty, "RepeatedField<"@) =~= t + ">"@);
    assert((t + ">"@).skip(t.len() as int) =~= ">"@);
    assert((t + ">"@).take(t.len() as int) =~= t);
    assert(strip_both(ty, "RepeatedField<"@, ">"@) == t);
}

/// A private `readonly` backing field `x_` of type `MapField<K, V>` without
/// a value is the map field `x` (in snake case) of types `K, V`.
pub proof fn lemma_map_backing_field(f: FieldView, x: Seq<char>, kv: Seq<char>)
    requires
        f.name == x + "_"@,
        f.visibility == Visibility::Private,
        f.modifiers == seq![FieldModifier::ReadOnly],
        f.assign_value is None,
        f.ty == "MapField<"@ + kv + ">"@,
    ensures
        gen_field_of(f) == Some(GenFieldView::MapType(recased(x, Case::Camel, Case::Snake), kv)),
{
    lemma_backing_field_not_special(f, x);
    assert(f.modifiers.len() == 1);
    assert(f.modifiers != Seq::<FieldModifier>::empty());
    assert(!field_spec_holds(typed_pattern(seq![], seq![StringSpecView::EndWith("OneofCase"@)]), f));
    assert(!field_spec_holds(typed_pattern(seq![], seq![StringSpecView::Eq("object"@)]), f));
    assert(!field_spec_holds(typed_pattern(seq![], seq![]), f));
    reveal_strlit("MapField<");
    reveal_strlit("MapField");
    reveal_strlit("RepeatedField");
    reveal_strlit(">");
    let ty = f.ty;
    let r = typed_pattern(seq![FieldModifier::ReadOnly], seq![StringSpecView::StartWith("RepeatedField"@)]);
    assert(ty[0] == 'M');
    if ty.len() >= 13 {
        assert(ty.take(13)[0] != "RepeatedField"@[0]);
    }
    assert(!string_spec_holds(r.ty[0], ty));
    assert(!field_spec_holds(r, f));
    assert(ty.take(8) =~= "MapField"@);
    let q = typed_pattern(seq![FieldModifier::ReadOnly], seq![StringSpecView::StartWith("MapField"@)]);
    assert(string_spec_holds(q.ty[0], ty));
    assert(string_specs_hold(q.ty, ty));
    assert(field_spec_holds(q, f));
    assert(ty.take(9) =~= "MapField<"@);
    assert(try_strip_prefix_of(ty, "MapField<"@) =~= kv + ">"@);
    assert((kv + ">"@).skip(kv.len() as int) =~= ">"@);
    assert((kv + ">"@).take(kv.len() as int) =~= kv);
    assert(strip_both(ty, "MapField<"@, ">"@) == kv);
}

/// A private field `x_` without a value and with at most one modifier is no
/// constant, no parser, unknown-fields, has-bits or default-value field,
/// but a backing field.
proof fn lemma_backing_field_not_special(f: FieldView, x: Seq<char>)
    requires
        f.name == x + "_"@,
        f.visibility == Visibility::Private,
        f.modifiers.len() < 2,
        f.assign_value is None,
    ensures
        !field_spec_holds(number_pattern(), f),
        !field_spec_holds(parser_pattern(), f),
        !field_spec_holds(unknown_fields_pattern(), f),
        !field_spec_holds(has_bits_pattern(), f),
        !field_spec_holds(default_value_pattern(), f),
        field_spec_holds(backing_pattern(), f),
        try_strip_suffix_of(f.name, "_"@) == x,
{
    reveal_strlit("_");
    reveal_strlit("_parser");
    reveal_strlit("_unknownFields");
    reveal_strlit("_hasBits0");
    let n = f.name;
    assert(n.last() == '_');
    assert(!string_spec_holds(parser_pattern().name[0], n));
    assert(!string_spec_holds(unknown_fields_pattern().name[0], n));
    assert(!string_spec_holds(has_bits_pattern().name[0], n));
    assert(f.modifiers != seq![FieldModifier::Static, FieldModifier::ReadOnly]);
    assert(n.skip(n.len() - 1) =~= "_"@);
    assert(string_spec_holds(backing_pattern().name[0], n));
    assert(string_specs_hold(backing_pattern().name, n));
    assert(string_specs_hold(backing_pattern().ty, f.ty));
    assert(n.take(n.len() - 1) =~= x);
}

/// The `u32` of an assigned number literal.
pub open spec fn literal_u32_of(v: Option<LiteralView>) -> u32 {
    match v {
        Some(l) => match crate::parser::common::literal_u32(l) {
            Some(n) => n,
            None => 0,
        },
        None => 0,
    }
}

/// Classifying the field panics: it is a field-number constant whose
/// number does not fit a `u32`.
pub open spec fn gen_field_panics(f: FieldView) -> bool {
    field_spec_holds(number_pattern(), f) && !(f.assign_value matches Some(l)
        && crate::parser::common::literal_u32(l) is Some)
}

/// The modifiers `static readonly`, in that order.
fn static_read_only() -> (res: Vec<FieldModifier>)
    ensures
        res@ == seq![FieldModifier::Static, FieldModifier::ReadOnly],
{
    let mut v = Vec::new();
    v.push(FieldModifier::Static);
    v.push(FieldModifier::ReadOnly);
    assert(v@ =~= seq![FieldModifier::Static, FieldModifier::ReadOnly]);
    v
}

impl GenField {
    /// The field is a field-number constant whose number does not fit a
    /// `u32`: classifying it would panic.
    pub fn number_unfit(field: &Field) -> (res: bool)
        ensures
            res == gen_field_panics(field@),
    {
        let spec = FieldSpec::new()
            .ty(StringSpec::Eq("int".to_owned()))
            .visibility(Visibility::Public)
            .modifier(FieldModifier::Const)
            .assign_value(ValueSpec::IsNumber)
            .name(StringSpec::EndWith("FieldNumber".to_owned()));
        assert(spec@ == number_pattern());
        let fits = match &field.assign_value {
            Some(l) => l.u32().is_some(),
            None => false,
        };
        spec.matches(field) && !fits
    }

    /// What the field stands for, or `Err` when it stands for nothing known.
    pub fn try_from(field: Field) -> (res: Result<GenField, ()>)
        requires
            !gen_field_panics(field@),
        ensures
            match res {
                Ok(g) => gen_field_of(field@) == Some(g@),
                Err(_) => gen_field_of(field@) is None,
            },
    {
        proof {
            reveal_with_fuel(format_apply, 4);
        }
        let name = &field.name;
        let ty = &field.ty;

        let spec = FieldSpec::new()
            .ty(StringSpec::Eq("int".to_owned()))
            .visibility(Visibility::Public)
            .modifier(FieldModifier::Const)
            .assign_value(ValueSpec::IsNumber)
            .name(StringSpec::EndWith("FieldNumber".to_owned()));
        assert(spec@ == number_pattern());
        if spec.matches(&field) {
            let name = StrFormat::new()
                .try_strip_suffix("FieldNumber")
                .try_strip_suffix("_")
                .as_snake(Case::Pascal)
                .apply(name.as_str());
            let number = match &field.assign_value {
                Some(l) => match l.u32() {
                    Some(n) => n,
                    None => {
                        proof { assert(false); }
                        0
                    }
                },
                None => {
                    proof { assert(false); }
                    0
                }
            };
            return Ok(GenField::Number(name, number));
        }
        let spec = FieldSpec::new()
            .ty(StringSpec::StartWith("MessageParser".to_owned()))
            .name(StringSpec::Eq("_parser".to_owned()));
        assert(spec@ == parser_pattern());
        if spec.matches(&field) {
            return Ok(GenField::Blanket);
        }
        let spec = FieldSpec::new()
            .ty(StringSpec::StartWith("UnknownFieldSet".to_owned()))
            .name(StringSpec::Eq("_unknownFields".to_owned()));
        assert(spec@ == unknown_fields_pattern());
        if spec.matches(&field) {
            return Ok(GenField::Blanket);
        }
        let spec = FieldSpec::new()
            .ty(StringSpec::Eq("int".to_owned()))
            .name(StringSpec::Eq("_hasBits0".to_owned()));
        assert(spec@ == has_bits_pattern());
        if spec.matches(&field) {
            return Ok(GenField::Blanket);
        }
        let spec = FieldSpec::new()
            .name(StringSpec::EndWith("DefaultValue".to_owned()))
            .name(StringSpec::IsCase(Case::Pascal))
            .visibility(Visibility::Private)
            .assign_value(ValueSpec::NoValue)
            .modifiers(static_read_only());
        assert(spec@.name =~= default_value_pattern().name);
        assert(spec@ == default_value_pattern());
        if spec.matches(&field) {
            let name = StrFormat::new()
                .try_strip_suffix("DefaultValue")
                .as_snake(Case::Pascal)
                .apply(name.as_str());
            return Ok(GenField::DefaultValue(name, copy_string(ty)));
        }
        let spec = FieldSpec::new()
            .name(StringSpec::EndWith("_".to_owned()))
            .visibility(Visibility::Private)
            .assign_value(ValueSpec::NoValue);
        assert(spec@ == backing_pattern());
        if spec.matches(&field) {
            let spec = FieldSpec::new()
                .empty_modifiers()
                .ty(StringSpec::EndWith("OneofCase".to_owned()));
            assert(spec@ == typed_pattern(seq![], seq![StringSpecView::EndWith("OneofCase"@)]));
            if spec.matches(&field) {
                let fmt_name = StrFormat::new()
                    .try_strip_suffix("Case_")
                    .as_snake(Case::Camel)
                    .apply(name.as_str());
                return Ok(GenField::OneofCaseType(fmt_name));
            }
            let fmt_name = StrFormat::new()
                .try_strip_suffix("_")
                .as_snake(Case::Camel)
                .apply(name.as_str());
            let spec = FieldSpec::new()
                .empty_modifiers()
                .ty(StringSpec::Eq("object".to_owned()));
            assert(spec@ == typed_pattern(seq![], seq![StringSpecView::Eq("object"@)]));
            if spec.matches(&field) {
                return Ok(GenField::OneofCaseObject(fmt_name));
            }
            let spec = FieldSpec::new().empty_modifiers();
            assert(spec@ == typed_pattern(seq![], seq![]));
            if spec.matches(&field) {
                return Ok(GenField::Type(fmt_name, copy_string(ty)));
            }
            let spec = FieldSpec::new()
                .modifier(FieldModifier::ReadOnly)
                .ty(StringSpec::StartWith("RepeatedField".to_owned()));
            assert(spec@ == typed_pattern(seq![FieldModifier::ReadOnly], seq![StringSpecView::StartWith("RepeatedField"@)]));
            if spec.matches(&field) {
                let ty_fmt = StrFormat::new()
                    .try_strip_prefix("RepeatedField<")
                    .try_strip_suffix(">")
                    .apply(ty.as_str());
                return Ok(GenField::RepeatedType(fmt_name, ty_fmt));
            }
            let spec = FieldSpec::new()
                .modifier(FieldModifier::ReadOnly)
                .ty(StringSpec::StartWith("MapField".to_owned()));
            assert(spec@ == typed_pattern(seq![FieldModifier::ReadOnly], seq![StringSpecView::StartWith("MapField"@)]));
            if spec.matches(&field) {
                let ty_fmt = StrFormat::new()
                    .try_strip_prefix("MapField<")
                    .try_strip_suffix(">")
                    .apply(ty.as_str());
                return Ok(GenField::MapType(fmt_name, ty_fmt));
            }
        }
        let spec = FieldSpec::new()
            .ty(StringSpec::StartWith("FieldCodec".to_owned()))
            .name(StringSpec::StartWith("_repeated_".to_owned()))
            .name(StringSpec::EndWith("_codec".to_owned()))
            .visibility(Visibility::Private)
            .modifiers(static_read_only())
            .assign_value(ValueSpec::NoValue);
        assert(spec@.name =~= codec_pattern("FieldCodec"@, "_repeated_"@).name);
        assert(spec@ == codec_pattern("FieldCodec"@, "_repeated_"@));
        if spec.matches(&field) {
            let name = StrFormat::new()
                .try_strip_prefix("_repeated_")
                .try_strip_suffix("_codec")
                .as_snake(Case::Camel)
                .apply(name.as_str());
            return Ok(GenField::RepeatedCodec(name, copy_string(ty)));
        }
        let spec = FieldSpec::new()
            .ty(StringSpec::StartWith("MapField.Codec".to_owned()))
            .name(StringSpec::StartWith("_map_".to_owned()))
            .name(StringSpec::EndWith("_codec".to_owned()))
            .visibility(Visibility::Private)
            .modifiers(static_read_only())
            .assign_value(ValueSpec::NoValue);
        assert(spec@.name =~= codec_pattern("MapField.Codec"@, "_map_"@).name);
        assert(spec@ == codec_pattern("MapField.Codec"@, "_map_"@));
        if spec.matches(&field) {
            let name = StrFormat::new()
                .try_strip_prefix("_map_")
                .try_strip_suffix("_codec")
                .as_snake(Case::Camel)
                .apply(name.as_str());
            return Ok(GenField::MapCodec(name, copy_string(ty)));
        }
        Err(())
    }
}

} // verus!
