//! Assembly of a protobuf message from a C# message class.
//!
//! A generated message class tells its fields through several members: a
//! `XFieldNumber` constant gives the number of the field `x`, a backing
//! field `x_` its type, a property `X` its accessor, a `XDefaultValue`
//! that it is optional, and a nested `XOneofCase` enum the cases of a oneof.
//! [`MessageBuilder::build`] puts these together, and refuses (panics on) a
//! class whose members do not fit together.

use vstd::prelude::*;

use crate::case::{convert_case, recased, Case};
use crate::names::NameMap;
use crate::parser::common::literal_u32;
use crate::parser::data_structs::{Class, ClassView, Enum, EnumMemberView, EnumView, FieldView as ClassFieldView, PropertyView};
use crate::protobuf::builders::field::{gen_field_of, gen_field_panics, GenField, GenFieldView};
use crate::protobuf::builders::property::{gen_property_of, GenProperty, GenPropertyView};
use crate::protobuf::message::field::{type_of, Field, FieldView, MapField, MapFieldView, NormalField, NormalFieldView};
use crate::protobuf::message::{member_views, MemberView, MessageView, PackageMember, ProtoMessage, Unresolved};
use crate::protobuf::proto_enum::{enum_members_ok, enum_variants, ProtoEnum, ProtoEnumView};
use crate::text::{copy_string, split_once, split_once_of, str_eq, strip_suffix, strip_suffix_of};

verus! {

/// A message under construction: its class, the members nested in it and
/// the oneof enums that belong to it.
pub struct MessageBuilder {
    pub class: Class,
    pub inner_members: Vec<ProtoMemberBuilderInner>,
    pub oneof: Vec<Enum>,
}

/// A member under construction: an enum or a message.
pub enum ProtoMemberBuilderInner {
    Enum(Enum),
    Message(MessageBuilder),
}

/// The mathematical value of a [`MessageBuilder`].
pub struct MessageBuilderView {
    pub class: ClassView,
    pub inner: Seq<MemberBuilderView>,
    pub oneof: Seq<EnumView>,
}

/// The mathematical value of a [`ProtoMemberBuilderInner`].
pub enum MemberBuilderView {
    Enum(EnumView),
    Message(MessageBuilderView),
}

/// The mathematical value of a message under construction.
pub closed spec fn builder_view(m: MessageBuilder) -> MessageBuilderView
    decreases m,
{
    MessageBuilderView {
        class: m.class@,
        inner: Seq::new(
            m.inner_members@.len(),
            |i: int|
                if 0 <= i < m.inner_members@.len() {
                    member_builder_view(m.inner_members@[i])
                } else {
                    MemberBuilderView::Enum(EnumView {
                        visibility: crate::parser::common::Visibility::Public,
                        name: seq![],
                        type_index: None,
                        members: seq![],
                    })
                },
        ),
        oneof: m.oneof@.map_values(|e: Enum| e@),
    }
}

/// The mathematical value of a member under construction.
pub closed spec fn member_builder_view(p: ProtoMemberBuilderInner) -> MemberBuilderView
    decreases p,
{
    match p {
        ProtoMemberBuilderInner::Enum(e) => MemberBuilderView::Enum(e@),
        ProtoMemberBuilderInner::Message(m) => MemberBuilderView::Message(builder_view(m)),
    }
}

impl View for MessageBuilder {
    type V = MessageBuilderView;

    open spec fn view(&self) -> MessageBuilderView {
        builder_view(*self)
    }
}

impl View for ProtoMemberBuilderInner {
    type V = MemberBuilderView;

    open spec fn view(&self) -> MemberBuilderView {
        member_builder_view(*self)
    }
}

/// The views of a sequence of members under construction.
pub open spec fn member_builder_views(s: Seq<ProtoMemberBuilderInner>) -> Seq<MemberBuilderView> {
    s.map_values(|p: ProtoMemberBuilderInner| p@)
}

/// The view of a message under construction is made of the views of its parts.
pub proof fn lemma_builder_view_parts(m: MessageBuilder)
    ensures
        builder_view(m).class == m.class@,
        builder_view(m).inner == member_builder_views(m.inner_members@),
        builder_view(m).oneof == m.oneof@.map_values(|e: Enum| e@),
{
    assert(builder_view(m).inner =~= member_builder_views(m.inner_members@));
}

/// The view of a member under construction is that of the enum or message it is.
pub proof fn lemma_member_builder_view(p: ProtoMemberBuilderInner)
    ensures
        p@ == match p {
            ProtoMemberBuilderInner::Enum(e) => MemberBuilderView::Enum(e@),
            ProtoMemberBuilderInner::Message(m) => MemberBuilderView::Message(m@),
        },
{
}

/// A set of names, as a map to `()`.
pub type NameSet = Map<Seq<char>, ()>;

/// What the members of a class tell, while they are put together.
pub struct Pool {
    /// Field numbers by field name.
    pub numbers: Map<Seq<char>, u32>,
    /// Field types, from the field accessors, by field name.
    pub props: Map<Seq<char>, Seq<char>>,
    /// The names of the optional fields.
    pub defaults: NameSet,
    /// The oneofs named by a oneof case field.
    pub oneof_tys: NameSet,
    /// The oneofs named by a oneof value field.
    pub oneof_objs: NameSet,
}

/// The field types the accessor properties give, the last one winning;
/// `None` when a property stands for nothing known.
pub open spec fn props_of(ps: Seq<PropertyView>) -> Option<Map<Seq<char>, Seq<char>>>
    decreases ps.len(),
{
    if ps.len() == 0 {
        Some(Map::empty())
    } else {
        match props_of(ps.drop_last()) {
            None => None,
            Some(m) => match gen_property_of(ps.last()) {
                None => None,
                Some(GenPropertyView::Field(n, t)) => Some(m.insert(n, t)),
                Some(_) => Some(m),
            },
        }
    }
}

/// What the fields stand for; `None` when one stands for nothing known or
/// cannot be classified.
pub open spec fn gens_of(fs: Seq<ClassFieldView>) -> Option<Seq<GenFieldView>>
    decreases fs.len(),
{
    if fs.len() == 0 {
        Some(seq![])
    } else {
        match gens_of(fs.drop_last()) {
            None => None,
            Some(gs) => if gen_field_panics(fs.last()) {
                None
            } else {
                match gen_field_of(fs.last()) {
                    None => None,
                    Some(g) => Some(gs.push(g)),
                }
            },
        }
    }
}

/// The field numbers, the last one winning.
pub open spec fn numbers_of(gs: Seq<GenFieldView>) -> Map<Seq<char>, u32>
    decreases gs.len(),
{
    if gs.len() == 0 {
        Map::empty()
    } else {
        match gs.last() {
            GenFieldView::Number(n, x) => numbers_of(gs.drop_last()).insert(n, x),
            _ => numbers_of(gs.drop_last()),
        }
    }
}

/// Which of the kinds of [`GenFieldView`] a name list collects.
pub enum GenKind {
    Type,
    Repeated,
    MapType,
    Default,
    OneofType,
    OneofObject,
}

/// The name and type of a classified field, when it is of the kind `k`.
pub open spec fn gen_entry(g: GenFieldView, k: GenKind) -> Option<(Seq<char>, Seq<char>)> {
    match (g, k) {
        (GenFieldView::Type(n, t), GenKind::Type) => Some((n, t)),
        (GenFieldView::RepeatedType(n, t), GenKind::Repeated) => Some((n, t)),
        (GenFieldView::MapType(n, t), GenKind::MapType) => Some((n, t)),
        (GenFieldView::DefaultValue(n, t), GenKind::Default) => Some((n, t)),
        (GenFieldView::OneofCaseType(n), GenKind::OneofType) => Some((n, seq![])),
        (GenFieldView::OneofCaseObject(n), GenKind::OneofObject) => Some((n, seq![])),
        _ => None,
    }
}

/// The names and types of the classified fields of kind `k`, in order.
pub open spec fn entries_of(gs: Seq<GenFieldView>, k: GenKind) -> Seq<(Seq<char>, Seq<char>)>
    decreases gs.len(),
{
    if gs.len() == 0 {
        seq![]
    } else {
        match gen_entry(gs.last(), k) {
            Some(e) => entries_of(gs.drop_last(), k).push(e),
            None => entries_of(gs.drop_last(), k),
        }
    }
}

/// The names of the classified fields of kind `k`.
pub open spec fn names_of(gs: Seq<GenFieldView>, k: GenKind) -> NameSet
    decreases gs.len(),
{
    if gs.len() == 0 {
        Map::empty()
    } else {
        match gen_entry(gs.last(), k) {
            Some(e) => names_of(gs.drop_last(), k).insert(e.0, ()),
            None => names_of(gs.drop_last(), k),
        }
    }
}

/// The field named `n` of C# type `t`, numbered as the pool says.
pub open spec fn pool_field(pool: Pool, n: Seq<char>, t: Seq<char>) -> NormalFieldView {
    NormalFieldView { ty: type_of(t), name: n, number: pool.numbers[n] }
}

/// Puts the plain fields together: each takes its number and its accessor
/// out of the pool, and is optional when it has a default value.
pub open spec fn take_types(pool: Pool, tys: Seq<(Seq<char>, Seq<char>)>) -> Option<(Pool, Seq<FieldView>)>
    decreases tys.len(),
{
    if tys.len() == 0 {
        Some((pool, seq![]))
    } else {
        match take_types(pool, tys.drop_last()) {
            None => None,
            Some((p, fs)) => {
                let (n, t) = tys.last();
                if p.numbers.contains_key(n) && p.props.contains_key(n) {
                    let f = pool_field(p, n, t);
                    let field = if p.defaults.contains_key(n) {
                        FieldView::Optional(f)
                    } else {
                        FieldView::Normal(f)
                    };
                    Some((
                        Pool {
                            numbers: p.numbers.remove(n),
                            props: p.props.remove(n),
                            defaults: p.defaults.remove(n),
                            ..p
                        },
                        fs.push(field),
                    ))
                } else {
                    None
                }
            },
        }
    }
}

/// Puts the repeated fields together: each takes its number out of the pool.
pub open spec fn take_repeated(pool: Pool, tys: Seq<(Seq<char>, Seq<char>)>) -> Option<(Pool, Seq<FieldView>)>
    decreases tys.len(),
{
    if tys.len() == 0 {
        Some((pool, seq![]))
    } else {
        match take_repeated(pool, tys.drop_last()) {
            None => None,
            Some((p, fs)) => {
                let (n, t) = tys.last();
                if p.numbers.contains_key(n) {
                    Some((
                        Pool { numbers: p.numbers.remove(n), ..p },
                        fs.push(FieldView::Repeated(pool_field(p, n, t))),
                    ))
                } else {
                    None
                }
            },
        }
    }
}

/// Puts the map fields together: each takes its number out of the pool,
/// and its type `K, V` gives the key and value types.
pub open spec fn take_maps(pool: Pool, tys: Seq<(Seq<char>, Seq<char>)>) -> Option<(Pool, Seq<FieldView>)>
    decreases tys.len(),
{
    if tys.len() == 0 {
        Some((pool, seq![]))
    } else {
        match take_maps(pool, tys.drop_last()) {
            None => None,
            Some((p, fs)) => {
                let (n, t) = tys.last();
                match split_once_of(t, ", "@) {
                    Some((k, v)) => if p.numbers.contains_key(n) {
                        Some((
                            Pool { numbers: p.numbers.remove(n), ..p },
                            fs.push(FieldView::Mapped(MapFieldView {
                                key_ty: type_of(k),
                                val_ty: type_of(v),
                                name: n,
                                number: p.numbers[n],
                            })),
                        ))
                    } else {
                        None
                    },
                    None => None,
                }
            },
        }
    }
}

/// A member of a oneof enum that names no case.
pub open spec fn is_case_filler(m: EnumMemberView) -> bool {
    m.field.name == "value__"@ || m.field.name == "None"@
}

/// The name, in the pool, of the field that a oneof case names: its name in
/// snake case, or that name without a trailing `_`.
pub open spec fn case_field_name(pool: Pool, m: EnumMemberView) -> Option<Seq<char>> {
    let n = recased(m.field.name, Case::Pascal, Case::Snake);
    if pool.numbers.contains_key(n) {
        Some(n)
    } else {
        match strip_suffix_of(n, "_"@) {
            Some(s) => if pool.numbers.contains_key(s) {
                Some(s)
            } else {
                None
            },
            None => None,
        }
    }
}

/// The value of a oneof case: the number assigned to it.
pub open spec fn case_number(m: EnumMemberView) -> Option<u32> {
    match m.field.assign_value {
        Some(l) => literal_u32(l),
        None => None,
    }
}

/// Puts the cases of a oneof together: each takes its number and its
/// accessor out of the pool; its value is its field number.
pub open spec fn take_cases(pool: Pool, ms: Seq<EnumMemberView>) -> Option<(Pool, Seq<NormalFieldView>)>
    decreases ms.len(),
{
    if ms.len() == 0 {
        Some((pool, seq![]))
    } else {
        match take_cases(pool, ms.drop_last()) {
            None => None,
            Some((p, fs)) => {
                let m = ms.last();
                if is_case_filler(m) {
                    Some((p, fs))
                } else {
                    match (case_number(m), case_field_name(p, m)) {
                        (Some(x), Some(n)) => if p.props.contains_key(n) {
                            Some((
                                Pool { numbers: p.numbers.remove(n), props: p.props.remove(n), ..p },
                                fs.push(NormalFieldView { ty: type_of(p.props[n]), name: n, number: x }),
                            ))
                        } else {
                            None
                        },
                        _ => None,
                    }
                }
            },
        }
    }
}

/// Puts the oneofs together, one for each enum named `XOneofCase`.
pub open spec fn take_oneofs(pool: Pool, es: Seq<EnumView>) -> Option<(Pool, Seq<FieldView>)>
    decreases es.len(),
{
    if es.len() == 0 {
        Some((pool, seq![]))
    } else {
        match take_oneofs(pool, es.drop_last()) {
            None => None,
            Some((p, fs)) => match strip_suffix_of(es.last().name, "OneofCase"@) {
                None => Some((p, fs)),
                Some(base) => {
                    let name = recased(base, Case::Pascal, Case::Snake);
                    let p1 = Pool {
                        oneof_tys: p.oneof_tys.remove(name),
                        oneof_objs: p.oneof_objs.remove(name),
                        ..p
                    };
                    match take_cases(p1, es.last().members) {
                        None => None,
                        Some((p2, cases)) => Some((p2, fs.push(FieldView::OneOf(name, cases)))),
                    }
                },
            },
        }
    }
}

/// The pool that the members of a class make.
pub open spec fn pool_of(props: Map<Seq<char>, Seq<char>>, gs: Seq<GenFieldView>) -> Pool {
    Pool {
        numbers: numbers_of(gs),
        props,
        defaults: names_of(gs, GenKind::Default),
        oneof_tys: names_of(gs, GenKind::OneofType),
        oneof_objs: names_of(gs, GenKind::OneofObject),
    }
}

#[verifier::opaque]
/// The fields of the message a class and its oneof enums make: the plain
/// fields, then the repeated ones, the maps and the oneofs; `None` when the
/// members do not fit together (the builder panics).
pub open spec fn message_fields(class: ClassView, oneof: Seq<EnumView>) -> Option<Seq<FieldView>> {
    match (props_of(class.properties), gens_of(class.fields)) {
        (Some(props), Some(gs)) => {
            let p0 = pool_of(props, gs);
            match take_types(p0, entries_of(gs, GenKind::Type)) {
                None => None,
                Some((p1, f1)) => match take_repeated(p1, entries_of(gs, GenKind::Repeated)) {
                    None => None,
                    Some((p2, f2)) => match take_maps(p2, entries_of(gs, GenKind::MapType)) {
                        None => None,
                        Some((p3, f3)) => match take_oneofs(p3, oneof) {
                            None => None,
                            Some((p4, f4)) => if p4.numbers == Map::<Seq<char>, u32>::empty()
                                && p4.props == Map::<Seq<char>, Seq<char>>::empty()
                                && p4.oneof_objs == Map::<Seq<char>, ()>::empty()
                                && p4.oneof_tys == Map::<Seq<char>, ()>::empty() {
                                Some(f1 + f2 + f3 + f4)
                            } else {
                                None
                            },
                        },
                    },
                },
            }
        },
        _ => None,
    }
}

/// The members of a class fit together into a message.
pub open spec fn fields_fit(class: ClassView, oneof: Seq<EnumView>) -> bool {
    message_fields(class, oneof) is Some
}

/// The message under construction, and every one nested in it, can be built.
pub open spec fn buildable(m: MessageBuilderView) -> bool
    decreases m,
{
    &&& fields_fit(m.class, m.oneof)
    &&& forall|i: int| 0 <= i < m.inner.len() ==> member_buildable(#[trigger] m.inner[i])
}

/// The member under construction can be built.
pub open spec fn member_buildable(p: MemberBuilderView) -> bool
    decreases p,
{
    match p {
        MemberBuilderView::Enum(e) => enum_members_ok(e.members),
        MemberBuilderView::Message(m) => buildable(m),
    }
}

/// The message that building gives.
pub open spec fn built(m: MessageBuilderView) -> MessageView
    decreases m,
{
    MessageView {
        name: m.class.name,
        fields: message_fields(m.class, m.oneof).unwrap(),
        inner: Seq::new(
            m.inner.len(),
            |i: int|
                if 0 <= i < m.inner.len() {
                    member_built(m.inner[i])
                } else {
                    MemberView::Enum(ProtoEnumView { name: seq![], variants: seq![] })
                },
        ),
    }
}

/// The member that building gives.
pub open spec fn member_built(p: MemberBuilderView) -> MemberView
    decreases p,
{
    match p {
        MemberBuilderView::Enum(e) => MemberView::Enum(ProtoEnumView { name: e.name, variants: enum_variants(e.members) }),
        MemberBuilderView::Message(m) => MemberView::Message(built(m)),
    }
}

proof fn lemma_props_none(ps: Seq<PropertyView>, i: int)
    requires
        0 <= i <= ps.len(),
        props_of(ps.take(i)) is None,
    ensures
        props_of(ps) is None,
    decreases ps.len() - i,
{
    if i < ps.len() {
        assert(ps.drop_last().take(i) =~= ps.take(i));
        lemma_props_none(ps.drop_last(), i);
    } else {
        assert(ps.take(i) =~= ps);
    }
}

proof fn lemma_gens_none(fs: Seq<ClassFieldView>, i: int)
    requires
        0 <= i <= fs.len(),
        gens_of(fs.take(i)) is None,
    ensures
        gens_of(fs) is None,
    decreases fs.len() - i,
{
    if i < fs.len() {
        assert(fs.drop_last().take(i) =~= fs.take(i));
        lemma_gens_none(fs.drop_last(), i);
    } else {
        assert(fs.take(i) =~= fs);
    }
}

/// The field types the accessor properties give.
fn collect_props(ps: &Vec<crate::parser::data_structs::Property>) -> (res: Option<NameMap<String>>)
    ensures
        match res {
            Some(m) => m.wf() && props_of(crate::parser::data_structs::views(ps@)) == Some(m.map()),
            None => props_of(crate::parser::data_structs::views(ps@)) is None,
        },
{
    let ghost vs = crate::parser::data_structs::views(ps@);
    let mut res: NameMap<String> = NameMap::new();
    let mut i: usize = 0;
    assert(vs.take(0) =~= Seq::<PropertyView>::empty());
    while i < ps.len()
        invariant
            i <= ps@.len(),
            vs == crate::parser::data_structs::views(ps@),
            res.wf(),
            props_of(vs.take(i as int)) == Some(res.map()),
        decreases ps@.len() - i,
    {
        assert(vs.take(i + 1).drop_last() =~= vs.take(i as int));
        assert(vs.take(i + 1).last() == ps@[i as int]@);
        match GenProperty::try_from(&ps[i]) {
            Ok(GenProperty::Field(n, t)) => {
                res.insert(n, t);
            },
            Ok(_) => {},
            Err(_) => {
                proof {
                    lemma_props_none(vs, i + 1);
                }
                return None;
            },
        }
        i = i + 1;
    }
    assert(vs.take(i as int) =~= vs);
    Some(res)
}

/// What each field stands for.
fn classify_fields(fs: &Vec<crate::parser::data_structs::Field>) -> (res: Option<Vec<GenField>>)
    ensures
        match res {
            Some(v) => gens_of(crate::parser::data_structs::views(fs@)) == Some(v@.map_values(|g: GenField| g@)),
            None => gens_of(crate::parser::data_structs::views(fs@)) is None,
        },
{
    let ghost vs = crate::parser::data_structs::views(fs@);
    let mut res: Vec<GenField> = Vec::new();
    let mut i: usize = 0;
    assert(vs.take(0) =~= Seq::<ClassFieldView>::empty());
    while i < fs.len()
        invariant
            i <= fs@.len(),
            vs == crate::parser::data_structs::views(fs@),
            gens_of(vs.take(i as int)) == Some(res@.map_values(|g: GenField| g@)),
        decreases fs@.len() - i,
    {
        assert(vs.take(i + 1).drop_last() =~= vs.take(i as int));
        assert(vs.take(i + 1).last() == fs@[i as int]@);
        if GenField::number_unfit(&fs[i]) {
            proof { lemma_gens_none(vs, i + 1); }
            return None;
        }
        match GenField::try_from(fs[i].duplicate()) {
            Ok(g) => {
                res.push(g);
                assert(res@.map_values(|g: GenField| g@) =~= gens_of(vs.take(i + 1)).unwrap());
            },
            Err(_) => {
                proof { lemma_gens_none(vs, i + 1); }
                return None;
            },
        }
        i = i + 1;
    }
    assert(vs.take(i as int) =~= vs);
    Some(res)
}

/// The views of a vector of name and type pairs.
pub open spec fn pair_views(v: Seq<(String, String)>) -> Seq<(Seq<char>, Seq<char>)> {
    v.map_values(|p: (String, String)| (p.0@, p.1@))
}

/// What the classified fields tell, gathered.
struct Tally {
    numbers: NameMap<u32>,
    types: Vec<(String, String)>,
    repeated: Vec<(String, String)>,
    maps: Vec<(String, String)>,
    defaults: NameMap<()>,
    oneof_tys: NameMap<()>,
    oneof_objs: NameMap<()>,
}

fn push_pair(v: &mut Vec<(String, String)>, n: &String, t: &String)
    ensures
        pair_views(final(v)@) == pair_views(old(v)@).push((n@, t@)),
{
    v.push((copy_string(n), copy_string(t)));
    assert(pair_views(v@) =~= pair_views(old(v)@).push((n@, t@)));
}

/// Gathers what the classified fields tell.
fn tally(gs: &Vec<GenField>) -> (res: Tally)
    ensures
        res.numbers.wf(),
        res.defaults.wf(),
        res.oneof_tys.wf(),
        res.oneof_objs.wf(),
        res.numbers.map() == numbers_of(gs@.map_values(|g: GenField| g@)),
        pair_views(res.types@) == entries_of(gs@.map_values(|g: GenField| g@), GenKind::Type),
        pair_views(res.repeated@) == entries_of(gs@.map_values(|g: GenField| g@), GenKind::Repeated),
        pair_views(res.maps@) == entries_of(gs@.map_values(|g: GenField| g@), GenKind::MapType),
        res.defaults.map() == names_of(gs@.map_values(|g: GenField| g@), GenKind::Default),
        res.oneof_tys.map() == names_of(gs@.map_values(|g: GenField| g@), GenKind::OneofType),
        res.oneof_objs.map() == names_of(gs@.map_values(|g: GenField| g@), GenKind::OneofObject),
{
    let ghost vs = gs@.map_values(|g: GenField| g@);
    let mut t = Tally {
        numbers: NameMap::new(),
        types: Vec::new(),
        repeated: Vec::new(),
        maps: Vec::new(),
        defaults: NameMap::new(),
        oneof_tys: NameMap::new(),
        oneof_objs: NameMap::new(),
    };
    assert(pair_views(t.types@) =~= seq![]);
    assert(pair_views(t.repeated@) =~= seq![]);
    assert(pair_views(t.maps@) =~= seq![]);
    let mut i: usize = 0;
    assert(vs.take(0) =~= Seq::<GenFieldView>::empty());
    while i < gs.len()
        invariant
            i <= gs@.len(),
            vs == gs@.map_values(|g: GenField| g@),
            t.numbers.wf(),
            t.defaults.wf(),
            t.oneof_tys.wf(),
            t.oneof_objs.wf(),
            t.numbers.map() == numbers_of(vs.take(i as int)),
            pair_views(t.types@) == entries_of(vs.take(i as int), GenKind::Type),
            pair_views(t.repeated@) == entries_of(vs.take(i as int), GenKind::Repeated),
            pair_views(t.maps@) == entries_of(vs.take(i as int), GenKind::MapType),
            t.defaults.map() == names_of(vs.take(i as int), GenKind::Default),
            t.oneof_tys.map() == names_of(vs.take(i as int), GenKind::OneofType),
            t.oneof_objs.map() == names_of(vs.take(i as int), GenKind::OneofObject),
        decreases gs@.len() - i,
    {
        assert(vs.take(i + 1).drop_last() =~= vs.take(i as int));
        assert(vs.take(i + 1).last() == gs@[i as int]@);
        match &gs[i] {
            GenField::Number(n, x) => {
                t.numbers.insert(copy_string(n), *x);
            },
            GenField::Type(n, ty) => {
                push_pair(&mut t.types, n, ty);
            },
            GenField::RepeatedType(n, ty) => {
                push_pair(&mut t.repeated, n, ty);
            },
            GenField::MapType(n, ty) => {
                push_pair(&mut t.maps, n, ty);
            },
            GenField::DefaultValue(n, _ty) => {
                t.defaults.insert(copy_string(n), ());
            },
            GenField::OneofCaseType(n) => {
                t.oneof_tys.insert(copy_string(n), ());
            },
            GenField::OneofCaseObject(n) => {
                t.oneof_objs.insert(copy_string(n), ());
            },
            _ => {},
        }
        i = i + 1;
    }
    assert(vs.take(i as int) =~= vs);
    t
}

/// The state of the pool while the message is put together.
struct PoolState {
    numbers: NameMap<u32>,
    props: NameMap<String>,
    defaults: NameMap<()>,
    oneof_tys: NameMap<()>,
    oneof_objs: NameMap<()>,
}

impl PoolState {
    spec fn wf(&self) -> bool {
        &&& self.numbers.wf()
        &&& self.props.wf()
        &&& self.defaults.wf()
        &&& self.oneof_tys.wf()
        &&& self.oneof_objs.wf()
    }

    spec fn pool(&self) -> Pool {
        Pool {
            numbers: self.numbers.map(),
            props: self.props.map(),
            defaults: self.defaults.map(),
            oneof_tys: self.oneof_tys.map(),
            oneof_objs: self.oneof_objs.map(),
        }
    }
}

/// The views of a vector of message fields.
pub open spec fn field_views(v: Seq<Field>) -> Seq<FieldView> {
    v.map_values(|f: Field| f@)
}

proof fn lemma_take_types_none(pool: Pool, tys: Seq<(Seq<char>, Seq<char>)>, i: int)
    requires
        0 <= i <= tys.len(),
        take_types(pool, tys.take(i)) is None,
    ensures
        take_types(pool, tys) is None,
    decreases tys.len() - i,
{
    if i < tys.len() {
        assert(tys.drop_last().take(i) =~= tys.take(i));
        lemma_take_types_none(pool, tys.drop_last(), i);
    } else {
        assert(tys.take(i) =~= tys);
    }
}

proof fn lemma_take_repeated_none(pool: Pool, tys: Seq<(Seq<char>, Seq<char>)>, i: int)
    requires
        0 <= i <= tys.len(),
        take_repeated(pool, tys.take(i)) is None,
    ensures
        take_repeated(pool, tys) is None,
    decreases tys.len() - i,
{
    if i < tys.len() {
        assert(tys.drop_last().take(i) =~= tys.take(i));
        lemma_take_repeated_none(pool, tys.drop_last(), i);
    } else {
        assert(tys.take(i) =~= tys);
    }
}

proof fn lemma_take_maps_none(pool: Pool, tys: Seq<(Seq<char>, Seq<char>)>, i: int)
    requires
        0 <= i <= tys.len(),
        take_maps(pool, tys.take(i)) is None,
    ensures
        take_maps(pool, tys) is None,
    decreases tys.len() - i,
{
    if i < tys.len() {
        assert(tys.drop_last().take(i) =~= tys.take(i));
        lemma_take_maps_none(pool, tys.drop_last(), i);
    } else {
        assert(tys.take(i) =~= tys);
    }
}

proof fn lemma_take_cases_none(pool: Pool, ms: Seq<EnumMemberView>, i: int)
    requires
        0 <= i <= ms.len(),
        take_cases(pool, ms.take(i)) is None,
    ensures
        take_cases(pool, ms) is None,
    decreases ms.len() - i,
{
    if i < ms.len() {
        assert(ms.drop_last().take(i) =~= ms.take(i));
        lemma_take_cases_none(pool, ms.drop_last(), i);
    } else {
        assert(ms.take(i) =~= ms);
    }
}

proof fn lemma_take_oneofs_none(pool: Pool, es: Seq<EnumView>, i: int)
    requires
        0 <= i <= es.len(),
        take_oneofs(pool, es.take(i)) is None,
    ensures
        take_oneofs(pool, es) is None,
    decreases es.len() - i,
{
    if i < es.len() {
        assert(es.drop_last().take(i) =~= es.take(i));
        lemma_take_oneofs_none(pool, es.drop_last(), i);
    } else {
        assert(es.take(i) =~= es);
    }
}

/// Puts the plain fields together.
fn take_types_exec(st: &mut PoolState, tys: &Vec<(String, String)>) -> (res: Option<Vec<Field>>)
    requires
        old(st).wf(),
    ensures
        final(st).wf(),
        match res {
            Some(v) => take_types(old(st).pool(), pair_views(tys@)) == Some((final(st).pool(), field_views(v@))),
            None => take_types(old(st).pool(), pair_views(tys@)) is None,
        },
{
    let ghost p0 = st.pool();
    let ghost ts = pair_views(tys@);
    let mut res: Vec<Field> = Vec::new();
    let mut i: usize = 0;
    assert(ts.take(0) =~= Seq::<(Seq<char>, Seq<char>)>::empty());
    assert(field_views(res@) =~= seq![]);
    while i < tys.len()
        invariant
            i <= tys@.len(),
            ts == pair_views(tys@),
            st.wf(),
            p0 == old(st).pool(),
            take_types(p0, ts.take(i as int)) == Some((st.pool(), field_views(res@))),
        decreases tys@.len() - i,
    {
        assert(ts.take(i + 1).drop_last() =~= ts.take(i as int));
        assert(ts.take(i + 1).last() == (tys@[i as int].0@, tys@[i as int].1@));
        let (n, t) = &tys[i];
        let ghost before = st.pool();
        let x = match st.numbers.remove(n.as_str()) {
            Some(x) => x,
            None => {
                proof { lemma_take_types_none(p0, ts, i + 1); }
                return None;
            },
        };
        match st.props.remove(n.as_str()) {
            Some(_) => {},
            None => {
                proof { lemma_take_types_none(p0, ts, i + 1); }
                return None;
            },
        }
        let optional = st.defaults.remove(n.as_str()).is_some();
        let f = NormalField::new(t, copy_string(n), x);
        let ghost fv = pool_field(before, n@, t@);
        assert(f@ == fv);
        if optional {
            res.push(Field::Optional(f));
        } else {
            res.push(Field::Normal(f));
        }
        proof {
            let expected = Pool {
                numbers: before.numbers.remove(n@),
                props: before.props.remove(n@),
                defaults: before.defaults.remove(n@),
                ..before
            };
            assert(st.defaults.map() =~= before.defaults.remove(n@));
            assert(st.pool() == expected);
            assert(field_views(res@) =~= take_types(p0, ts.take(i + 1)).unwrap().1);
        }
        i = i + 1;
    }
    assert(ts.take(i as int) =~= ts);
    Some(res)
}

/// Puts the repeated fields together.
fn take_repeated_exec(st: &mut PoolState, tys: &Vec<(String, String)>) -> (res: Option<Vec<Field>>)
    requires
        old(st).wf(),
    ensures
        final(st).wf(),
        match res {
            Some(v) => take_repeated(old(st).pool(), pair_views(tys@)) == Some((final(st).pool(), field_views(v@))),
            None => take_repeated(old(st).pool(), pair_views(tys@)) is None,
        },
{
    let ghost p0 = st.pool();
    let ghost ts = pair_views(tys@);
    let mut res: Vec<Field> = Vec::new();
    let mut i: usize = 0;
    assert(ts.take(0) =~= Seq::<(Seq<char>, Seq<char>)>::empty());
    assert(field_views(res@) =~= seq![]);
    while i < tys.len()
        invariant
            i <= tys@.len(),
            ts == pair_views(tys@),
            st.wf(),
            p0 == old(st).pool(),
            take_repeated(p0, ts.take(i as int)) == Some((st.pool(), field_views(res@))),
        decreases tys@.len() - i,
    {
        assert(ts.take(i + 1).drop_last() =~= ts.take(i as int));
        assert(ts.take(i + 1).last() == (tys@[i as int].0@, tys@[i as int].1@));
        let (n, t) = &tys[i];
        let x = match st.numbers.remove(n.as_str()) {
            Some(x) => x,
            None => {
                proof { lemma_take_repeated_none(p0, ts, i + 1); }
                return None;
            },
        };
        res.push(Field::Repeated(NormalField::new(t, copy_string(n), x)));
        assert(field_views(res@) =~= take_repeated(p0, ts.take(i + 1)).unwrap().1);
        i = i + 1;
    }
    assert(ts.take(i as int) =~= ts);
    Some(res)
}

/// Puts the map fields together.
#[verifier::rlimit(30)]
fn take_maps_exec(st: &mut PoolState, tys: &Vec<(String, String)>) -> (res: Option<Vec<Field>>)
    requires
        old(st).wf(),
    ensures
        final(st).wf(),
        match res {
            Some(v) => take_maps(old(st).pool(), pair_views(tys@)) == Some((final(st).pool(), field_views(v@))),
            None => take_maps(old(st).pool(), pair_views(tys@)) is None,
        },
{
    let ghost p0 = st.pool();
    let ghost ts = pair_views(tys@);
    let mut res: Vec<Field> = Vec::new();
    let mut i: usize = 0;
    assert(ts.take(0) =~= Seq::<(Seq<char>, Seq<char>)>::empty());
    assert(field_views(res@) =~= seq![]);
    while i < tys.len()
        invariant
            i <= tys@.len(),
            ts == pair_views(tys@),
            st.wf(),
            p0 == old(st).pool(),
            take_maps(p0, ts.take(i as int)) == Some((st.pool(), field_views(res@))),
        decreases tys@.len() - i,
    {
        assert(ts.take(i + 1).drop_last() =~= ts.take(i as int));
        assert(ts.take(i + 1).last() == (tys@[i as int].0@, tys@[i as int].1@));
        let (n, t) = &tys[i];
        let ghost before = st.pool();
        proof { reveal_strlit(", "); }
        let x = match st.numbers.remove(n.as_str()) {
            Some(x) => x,
            None => {
                proof { lemma_take_maps_none(p0, ts, i + 1); }
                return None;
            },
        };
        let (key_ty, val_ty) = match split_once(t.as_str(), ", ") {
            Some(kv) => kv,
            None => {
                proof { lemma_take_maps_none(p0, ts, i + 1); }
                return None;
            },
        };
        res.push(Field::Mapped(MapField::new(&key_ty, &val_ty, copy_string(n), x)));
        proof {
            assert(st.pool() == Pool { numbers: before.numbers.remove(n@), ..before });
            assert(field_views(res@) =~= take_maps(p0, ts.take(i + 1)).unwrap().1);
        }
        i = i + 1;
    }
    assert(ts.take(i as int) =~= ts);
    Some(res)
}

/// The views of a vector of fields.
pub open spec fn normal_views(v: Seq<NormalField>) -> Seq<NormalFieldView> {
    v.map_values(|f: NormalField| f@)
}

/// Puts the cases of a oneof together.
#[verifier::rlimit(30)]
fn take_cases_exec(st: &mut PoolState, e: &Enum) -> (res: Option<Vec<NormalField>>)
    requires
        old(st).wf(),
    ensures
        final(st).wf(),
        match res {
            Some(v) => take_cases(old(st).pool(), e@.members) == Some((final(st).pool(), normal_views(v@))),
            None => take_cases(old(st).pool(), e@.members) is None,
        },
{
    let ghost p0 = st.pool();
    let ghost ms = e@.members;
    let mut res: Vec<NormalField> = Vec::new();
    let mut i: usize = 0;
    assert(ms.take(0) =~= Seq::<EnumMemberView>::empty());
    assert(normal_views(res@) =~= seq![]);
    while i < e.members.len()
        invariant
            i <= e.members@.len(),
            ms == e@.members,
            ms.len() == e.members@.len(),
            st.wf(),
            p0 == old(st).pool(),
            take_cases(p0, ms.take(i as int)) == Some((st.pool(), normal_views(res@))),
        decreases e.members@.len() - i,
    {
        let m = &e.members[i];
        assert(ms.take(i + 1).drop_last() =~= ms.take(i as int));
        assert(ms.take(i + 1).last() == m@);
        let ghost before = st.pool();
        if !(str_eq(m.field.name.as_str(), "value__") || str_eq(m.field.name.as_str(), "None")) {
            let x = match &m.field.assign_value {
                Some(l) => l.u32(),
                None => None,
            };
            let x = match x {
                Some(x) => x,
                None => {
                    proof { lemma_take_cases_none(p0, ms, i + 1); }
                    return None;
                },
            };
            let snake = convert_case(m.field.name.as_str(), Case::Pascal, Case::Snake);
            let name = match st.numbers.remove(snake.as_str()) {
                Some(_) => snake,
                None => match strip_suffix(snake.as_str(), "_") {
                    Some(stripped) => {
                        match st.numbers.remove(stripped.as_str()) {
                            Some(_) => {},
                            None => {
                                proof { lemma_take_cases_none(p0, ms, i + 1); }
                                return None;
                            },
                        }
                        stripped
                    },
                    None => {
                        proof { lemma_take_cases_none(p0, ms, i + 1); }
                        return None;
                    },
                },
            };
            assert(case_field_name(before, m@) == Some(name@));
            let ty = match st.props.remove(name.as_str()) {
                Some(ty) => ty,
                None => {
                    proof { lemma_take_cases_none(p0, ms, i + 1); }
                    return None;
                },
            };
            res.push(NormalField::new(&ty, name, x));
            proof {
                assert(st.pool() == Pool { numbers: before.numbers.remove(name@), props: before.props.remove(name@), ..before });
                assert(normal_views(res@) =~= take_cases(p0, ms.take(i + 1)).unwrap().1);
            }
        }
        i = i + 1;
    }
    assert(ms.take(i as int) =~= ms);
    Some(res)
}

/// Puts the oneofs together.
fn take_oneofs_exec(st: &mut PoolState, es: &Vec<Enum>) -> (res: Option<Vec<Field>>)
    requires
        old(st).wf(),
    ensures
        final(st).wf(),
        match res {
            Some(v) => take_oneofs(old(st).pool(), es@.map_values(|e: Enum| e@)) == Some((final(st).pool(), field_views(v@))),
            None => take_oneofs(old(st).pool(), es@.map_values(|e: Enum| e@)) is None,
        },
{
    let ghost p0 = st.pool();
    let ghost vs = es@.map_values(|e: Enum| e@);
    let mut res: Vec<Field> = Vec::new();
    let mut i: usize = 0;
    assert(vs.take(0) =~= Seq::<EnumView>::empty());
    assert(field_views(res@) =~= seq![]);
    while i < es.len()
        invariant
            i <= es@.len(),
            vs == es@.map_values(|e: Enum| e@),
            st.wf(),
            p0 == old(st).pool(),
            take_oneofs(p0, vs.take(i as int)) == Some((st.pool(), field_views(res@))),
        decreases es@.len() - i,
    {
        let e = &es[i];
        assert(vs.take(i + 1).drop_last() =~= vs.take(i as int));
        assert(vs.take(i + 1).last() == e@);
        let ghost before = st.pool();
        match strip_suffix(e.name.as_str(), "OneofCase") {
            None => {},
            Some(base) => {
                let name = convert_case(base.as_str(), Case::Pascal, Case::Snake);
                st.oneof_tys.remove(name.as_str());
                st.oneof_objs.remove(name.as_str());
                let ghost p1 = st.pool();
                proof {
                    assert(st.oneof_tys.map() =~= before.oneof_tys.remove(name@));
                    assert(st.oneof_objs.map() =~= before.oneof_objs.remove(name@));
                    assert(p1 == Pool {
                        oneof_tys: before.oneof_tys.remove(name@),
                        oneof_objs: before.oneof_objs.remove(name@),
                        ..before
                    });
                }
                let cases = match take_cases_exec(st, e) {
                    Some(cases) => cases,
                    None => {
                        proof { lemma_take_oneofs_none(p0, vs, i + 1); }
                        return None;
                    },
                };
                res.push(Field::OneOf(name, cases));
                assert(field_views(res@) =~= take_oneofs(p0, vs.take(i + 1)).unwrap().1);
            },
        }
        i = i + 1;
    }
    assert(vs.take(i as int) =~= vs);
    Some(res)
}

/// Moves the fields of `src` to the end of `dst`.
fn append_fields(dst: &mut Vec<Field>, src: Vec<Field>)
    ensures
        field_views(final(dst)@) == field_views(old(dst)@) + field_views(src@),
{
    let ghost s0 = src@;
    let mut src = src;
    dst.append(&mut src);
    assert(field_views(dst@) =~= field_views(old(dst)@) + field_views(s0));
}

/// The fields of the message a class and its oneof enums make, or `None`
/// when its members do not fit together.
fn message_fields_exec(class: &Class, oneof: &Vec<Enum>) -> (res: Option<Vec<Field>>)
    ensures
        match res {
            Some(v) => message_fields(class@, oneof@.map_values(|e: Enum| e@)) == Some(field_views(v@)),
            None => message_fields(class@, oneof@.map_values(|e: Enum| e@)) is None,
        },
{
    proof { reveal(message_fields); }
    let props = match collect_props(&class.properties) {
        Some(p) => p,
        None => return None,
    };
    let gens = match classify_fields(&class.fields) {
        Some(g) => g,
        None => return None,
    };
    let t = tally(&gens);
    let mut st = PoolState {
        numbers: t.numbers,
        props,
        defaults: t.defaults,
        oneof_tys: t.oneof_tys,
        oneof_objs: t.oneof_objs,
    };
    let mut fields = match take_types_exec(&mut st, &t.types) {
        Some(f) => f,
        None => return None,
    };
    let f2 = match take_repeated_exec(&mut st, &t.repeated) {
        Some(f) => f,
        None => return None,
    };
    let f3 = match take_maps_exec(&mut st, &t.maps) {
        Some(f) => f,
        None => return None,
    };
    let f4 = match take_oneofs_exec(&mut st, oneof) {
        Some(f) => f,
        None => return None,
    };
    let done = st.numbers.is_empty() && st.props.is_empty() && st.oneof_objs.is_empty() && st.oneof_tys.is_empty();
    if !done {
        return None;
    }
    append_fields(&mut fields, f2);
    append_fields(&mut fields, f3);
    append_fields(&mut fields, f4);
    Some(fields)
}

/// The member under construction, renamed `n`.
pub open spec fn renamed(p: MemberBuilderView, n: Seq<char>) -> MemberBuilderView {
    match p {
        MemberBuilderView::Enum(e) => MemberBuilderView::Enum(EnumView { name: n, ..e }),
        MemberBuilderView::Message(m) => MemberBuilderView::Message(
            MessageBuilderView { class: ClassView { name: n, ..m.class }, ..m },
        ),
    }
}

/// The name of the member under construction.
pub open spec fn member_builder_name(p: MemberBuilderView) -> Seq<char> {
    match p {
        MemberBuilderView::Enum(e) => e.name,
        MemberBuilderView::Message(m) => m.class.name,
    }
}

/// The type index of the member under construction.
pub open spec fn member_type_index(p: MemberBuilderView) -> Option<u64> {
    match p {
        MemberBuilderView::Enum(e) => e.type_index,
        MemberBuilderView::Message(m) => m.class.type_index,
    }
}

/// The member is a message under construction named `n`.
pub open spec fn is_message_named(p: MemberBuilderView, n: Seq<char>) -> bool {
    p matches MemberBuilderView::Message(m) && m.class.name == n
}

/// The position of the first nested message named `n`.
pub open spec fn first_message_named(inner: Seq<MemberBuilderView>, n: Seq<char>) -> int {
    choose|i: int| 0 <= i < inner.len() && is_message_named(inner[i], n)
        && forall|j: int| 0 <= j < i ==> !is_message_named(#[trigger] inner[j], n)
}

/// Some nested message is named `n`.
pub open spec fn has_message_named(inner: Seq<MemberBuilderView>, n: Seq<char>) -> bool {
    exists|i: int| 0 <= i < inner.len() && is_message_named(#[trigger] inner[i], n)
}

/// The message under construction at the position of the first nested
/// message named `n`.
pub open spec fn message_at(inner: Seq<MemberBuilderView>, n: Seq<char>) -> MessageBuilderView {
    match inner[first_message_named(inner, n)] {
        MemberBuilderView::Message(m) => m,
        MemberBuilderView::Enum(_) => arbitrary(),
    }
}

/// A member can be put at `path` below the message: the path is not empty,
/// and all but its last name lead through nested messages, the first
/// message of that name at each level.
pub open spec fn can_insert(m: MessageBuilderView, path: Seq<Seq<char>>) -> bool
    decreases path.len(),
{
    if path.len() == 0 {
        false
    } else if path.len() == 1 {
        true
    } else {
        has_message_named(m.inner, path[0]) && can_insert(message_at(m.inner, path[0]), path.drop_first())
    }
}

/// The message with `member`, renamed by the last name of `path`, added
/// to the nested members of the message that the other names lead to.
pub open spec fn inserted(m: MessageBuilderView, path: Seq<Seq<char>>, member: MemberBuilderView) -> MessageBuilderView
    decreases path.len(),
{
    if path.len() <= 1 {
        MessageBuilderView { inner: m.inner.push(renamed(member, path[0])), ..m }
    } else {
        let i = first_message_named(m.inner, path[0]);
        MessageBuilderView {
            inner: m.inner.update(i, MemberBuilderView::Message(inserted(message_at(m.inner, path[0]), path.drop_first(), member))),
            ..m
        }
    }
}

/// The message with the oneof enum `e`, renamed by the last name of `path`,
/// added to the oneofs of the message that the other names lead to.
pub open spec fn oneof_inserted(m: MessageBuilderView, path: Seq<Seq<char>>, e: EnumView) -> MessageBuilderView
    decreases path.len(),
{
    if path.len() <= 1 {
        MessageBuilderView { oneof: m.oneof.push(EnumView { name: path[0], ..e }), ..m }
    } else {
        let i = first_message_named(m.inner, path[0]);
        MessageBuilderView {
            inner: m.inner.update(i, MemberBuilderView::Message(oneof_inserted(message_at(m.inner, path[0]), path.drop_first(), e))),
            ..m
        }
    }
}

/// The views of the names of a path, from `start` on.
pub open spec fn path_from(path: Seq<String>, start: int) -> Seq<Seq<char>> {
    path.map_values(|s: String| s@).skip(start)
}

/// The position of the first message named `name` among `inner`.
fn find_message(inner: &Vec<ProtoMemberBuilderInner>, name: &str) -> (res: Option<usize>)
    ensures
        match res {
            Some(i) => i < inner@.len() && first_message_named(member_builder_views(inner@), name@) == i
                && is_message_named(member_builder_views(inner@)[i as int], name@),
            None => !has_message_named(member_builder_views(inner@), name@),
        },
{
    let ghost vs = member_builder_views(inner@);
    let mut i: usize = 0;
    while i < inner.len()
        invariant
            i <= inner@.len(),
            vs == member_builder_views(inner@),
            forall|j: int| 0 <= j < i ==> !is_message_named(#[trigger] vs[j], name@),
        decreases inner@.len() - i,
    {
        let named = match &inner[i] {
            ProtoMemberBuilderInner::Message(message) => {
                proof { lemma_builder_view_parts(*message); }
                str_eq(message.class.name.as_str(), name)
            },
            ProtoMemberBuilderInner::Enum(_) => false,
        };
        assert(vs[i as int] == inner@[i as int]@);
        if named {
            proof {
                let k = first_message_named(vs, name@);
                assert(0 <= i < vs.len() && is_message_named(vs[i as int], name@)
                    && forall|j: int| 0 <= j < i ==> !is_message_named(#[trigger] vs[j], name@));
                if k < i {
                    assert(!is_message_named(vs[k], name@));
                } else if k > i {
                }
            }
            return Some(i);
        }
        i = i + 1;
    }
    None
}

impl MessageBuilder {
    /// The message under construction for a class, with nothing nested yet.
    pub fn from(value: Class) -> (res: MessageBuilder)
        ensures
            res@ == (MessageBuilderView { class: value@, inner: seq![], oneof: seq![] }),
    {
        let res = MessageBuilder { class: value, inner_members: Vec::new(), oneof: Vec::new() };
        proof {
            lemma_builder_view_parts(res);
            assert(res@.inner =~= seq![]);
            assert(res@.oneof =~= seq![]);
        }
        res
    }

    /// Builds the message and all that is nested in it.
    pub fn build(self) -> (res: ProtoMessage<Unresolved>)
        requires
            buildable(self@),
        ensures
            res@ == built(self@),
    {
        self.build_ref()
    }

    #[verifier::loop_isolation(false)]
    fn build_ref(&self) -> (res: ProtoMessage<Unresolved>)
        requires
            buildable(self@),
        ensures
            res@ == built(self@),
        decreases self,
    {
        proof { lemma_builder_view_parts(*self); }
        let mut inner: Vec<PackageMember<Unresolved>> = Vec::new();
        let mut i: usize = 0;
        while i < self.inner_members.len()
            invariant
                i <= self.inner_members@.len(),
                inner@.len() == i,
                forall|j: int| 0 <= j < i ==> #[trigger] inner@[j]@ == member_built(self@.inner[j]),
            decreases self.inner_members@.len() - i,
        {
            assert(member_buildable(self@.inner[i as int]));
            let m = self.inner_members[i].build_ref();
            inner.push(m);
            i = i + 1;
        }
        let fields = match message_fields_exec(&self.class, &self.oneof) {
            Some(f) => f,
            None => {
                assert(false);
                Vec::new()
            },
        };
        let res = ProtoMessage::new(copy_string(&self.class.name), fields, inner);
        assert(res@.inner =~= built(self@).inner);
        res
    }

    /// The message built, or `None` when it, or one nested in it, cannot
    /// be built.
    pub fn try_build(self) -> (res: Option<ProtoMessage<Unresolved>>)
        ensures
            res is Some <==> buildable(self@),
            res matches Some(m) ==> m@ == built(self@),
    {
        if self.can_build() {
            Some(self.build())
        } else {
            None
        }
    }

    /// Whether the message, and every one nested in it, can be built.
    #[verifier::loop_isolation(false)]
    pub fn can_build(&self) -> (res: bool)
        ensures
            res == buildable(self@),
        decreases self,
    {
        proof { lemma_builder_view_parts(*self); }
        if message_fields_exec(&self.class, &self.oneof).is_none() {
            return false;
        }
        let mut i: usize = 0;
        while i < self.inner_members.len()
            invariant
                i <= self.inner_members@.len(),
                forall|j: int| 0 <= j < i ==> member_buildable(#[trigger] self@.inner[j]),
            decreases self.inner_members@.len() - i,
        {
            if !self.inner_members[i].can_build() {
                assert(self@.inner[i as int] == self.inner_members@[i as int]@);
                return false;
            }
            i = i + 1;
        }
        true
    }

    /// Whether a member can be put at the names of `path` from `start` on,
    /// below the message.
    pub fn can_insert_at(&self, path: &Vec<String>, start: usize) -> (res: bool)
        requires
            start <= path@.len(),
        ensures
            res == can_insert(self@, path_from(path@, start as int)),
        decreases path@.len() - start,
    {
        let ghost p = path_from(path@, start as int);
        proof { lemma_builder_view_parts(*self); }
        let n = path.len();
        if start == n {
            return false;
        }
        assert(p[0] == path@[start as int]@);
        if start == n - 1 {
            return true;
        }
        assert(p.drop_first() =~= path_from(path@, start + 1));
        match find_message(&self.inner_members, path[start].as_str()) {
            Some(i) => {
                let child = &self.inner_members[i];
                proof { lemma_member_builder_view(*child); }
                match child {
                    ProtoMemberBuilderInner::Message(m) => m.can_insert_at(path, start + 1),
                    ProtoMemberBuilderInner::Enum(_) => {
                        assert(false);
                        false
                    },
                }
            },
            None => false,
        }
    }

    /// Adds `member`, renamed by the last name of `path`, below the
    /// message that the other names lead to.
    pub fn insert(&mut self, path: &Vec<String>, member: ProtoMemberBuilderInner)
        requires
            can_insert(old(self)@, path_from(path@, 0)),
        ensures
            final(self)@ == inserted(old(self)@, path_from(path@, 0), member@),
    {
        self.insert_from(path, 0, member)
    }

    #[verifier::rlimit(80)]
    #[verifier::spinoff_prover]
    fn insert_from(&mut self, path: &Vec<String>, start: usize, member: ProtoMemberBuilderInner)
        requires
            start <= path@.len(),
            can_insert(old(self)@, path_from(path@, start as int)),
        ensures
            final(self)@ == inserted(old(self)@, path_from(path@, start as int), member@),
        decreases path@.len() - start,
    {
        let ghost p = path_from(path@, start as int);
        proof { lemma_builder_view_parts(*self); }
        assert(p[0] == path@[start as int]@);
        let ghost mv = member@;
        let n = path.len();
        if start == n - 1 {
            let mut member = member;
            member.set_name(copy_string(&path[start]));
            self.inner_members.push(member);
            proof {
                lemma_builder_view_parts(*self);
                assert(self@.inner =~= old(self)@.inner.push(renamed(mv, p[0])));
            }
            return;
        }
        assert(p.drop_first() =~= path_from(path@, start + 1));
        let ghost k = first_message_named(old(self)@.inner, p[0]);
        match find_message(&self.inner_members, path[start].as_str()) {
            Some(i) => {
                assert(i == k);
                let child = self.inner_members.remove(i);
                let child = match child {
                    ProtoMemberBuilderInner::Message(mut message) => {
                        message.insert_from(path, start + 1, member);
                        ProtoMemberBuilderInner::Message(message)
                    },
                    other => other,
                };
                self.inner_members.insert(i, child);
                proof {
                    lemma_builder_view_parts(*self);
                    assert(self@.inner =~= inserted(old(self)@, p, member@).inner);
                }
            },
            None => {
                assert(false);
            },
        }
    }

    /// Adds the oneof enum `member`, renamed by the last name of `path`, to
    /// the message that the other names lead to.
    pub fn insert_oneof(&mut self, path: &Vec<String>, member: Enum)
        requires
            can_insert(old(self)@, path_from(path@, 0)),
        ensures
            final(self)@ == oneof_inserted(old(self)@, path_from(path@, 0), member@),
    {
        self.insert_oneof_from(path, 0, member)
    }

    #[verifier::rlimit(80)]
    #[verifier::spinoff_prover]
    fn insert_oneof_from(&mut self, path: &Vec<String>, start: usize, member: Enum)
        requires
            start <= path@.len(),
            can_insert(old(self)@, path_from(path@, start as int)),
        ensures
            final(self)@ == oneof_inserted(old(self)@, path_from(path@, start as int), member@),
        decreases path@.len() - start,
    {
        let ghost p = path_from(path@, start as int);
        proof { lemma_builder_view_parts(*self); }
        assert(p[0] == path@[start as int]@);
        let ghost mv = member@;
        let n = path.len();
        if start == n - 1 {
            let mut member = member;
            member.name = copy_string(&path[start]);
            self.oneof.push(member);
            proof {
                lemma_builder_view_parts(*self);
                assert(self@.oneof =~= old(self)@.oneof.push(EnumView { name: p[0], ..mv }));
            }
            return;
        }
        assert(p.drop_first() =~= path_from(path@, start + 1));
        let ghost k = first_message_named(old(self)@.inner, p[0]);
        match find_message(&self.inner_members, path[start].as_str()) {
            Some(i) => {
                assert(i == k);
                let child = self.inner_members.remove(i);
                let child = match child {
                    ProtoMemberBuilderInner::Message(mut message) => {
                        message.insert_oneof_from(path, start + 1, member);
                        ProtoMemberBuilderInner::Message(message)
                    },
                    other => other,
                };
                self.inner_members.insert(i, child);
                proof {
                    lemma_builder_view_parts(*self);
                    assert(self@.inner =~= oneof_inserted(old(self)@, p, member@).inner);
                }
            },
            None => {
                assert(false);
            },
        }
    }
}

impl ProtoMemberBuilderInner {
    /// The member under construction for a class.
    pub fn from_class(value: Class) -> (res: ProtoMemberBuilderInner)
        ensures
            res@ == MemberBuilderView::Message(MessageBuilderView { class: value@, inner: seq![], oneof: seq![] }),
    {
        ProtoMemberBuilderInner::Message(MessageBuilder::from(value))
    }

    /// The member under construction for an enum.
    pub fn from_enum(value: Enum) -> (res: ProtoMemberBuilderInner)
        ensures
            res@ == MemberBuilderView::Enum(value@),
    {
        ProtoMemberBuilderInner::Enum(value)
    }

    /// Builds the member.
    pub fn build(self) -> (res: PackageMember<Unresolved>)
        requires
            member_buildable(self@),
        ensures
            res@ == member_built(self@),
    {
        self.build_ref()
    }

    fn build_ref(&self) -> (res: PackageMember<Unresolved>)
        requires
            member_buildable(self@),
        ensures
            res@ == member_built(self@),
        decreases self,
    {
        match self {
            ProtoMemberBuilderInner::Enum(e) => PackageMember::from_enum(ProtoEnum::from(e.duplicate())),
            ProtoMemberBuilderInner::Message(m) => PackageMember::from_message(m.build_ref()),
        }
    }

    /// The member built, or `None` when it cannot be built.
    pub fn try_build(self) -> (res: Option<PackageMember<Unresolved>>)
        ensures
            res is Some <==> member_buildable(self@),
            res matches Some(m) ==> m@ == member_built(self@),
    {
        if self.can_build() {
            Some(self.build())
        } else {
            None
        }
    }

    /// Whether the member can be built.
    pub fn can_build(&self) -> (res: bool)
        ensures
            res == member_buildable(self@),
        decreases self,
    {
        match self {
            ProtoMemberBuilderInner::Enum(e) => crate::protobuf::proto_enum::members_ok(e),
            ProtoMemberBuilderInner::Message(m) => m.can_build(),
        }
    }

    /// The type index of the member, if it has one.
    pub fn declared_index(&self) -> (res: Option<u64>)
        ensures
            res == member_type_index(self@),
    {
        match self {
            ProtoMemberBuilderInner::Enum(e) => e.type_index,
            ProtoMemberBuilderInner::Message(m) => {
                proof { lemma_builder_view_parts(*m); }
                m.class.type_index
            },
        }
    }

    /// The name of the member.
    pub fn name(&self) -> (res: &String)
        ensures
            res@ == member_builder_name(self@),
    {
        match self {
            ProtoMemberBuilderInner::Enum(e) => &e.name,
            ProtoMemberBuilderInner::Message(m) => {
                proof { lemma_builder_view_parts(*m); }
                &m.class.name
            },
        }
    }

    /// Renames the member.
    pub fn set_name(&mut self, name: String)
        ensures
            final(self)@ == renamed(old(self)@, name@),
    {
        match self {
            ProtoMemberBuilderInner::Enum(e) => {
                e.name = name;
            },
            ProtoMemberBuilderInner::Message(m) => {
                proof { lemma_builder_view_parts(*m); }
                m.class.name = name;
                proof { lemma_builder_view_parts(*m); }
            },
        }
    }

    /// The type index of the member.
    pub fn type_index(&self) -> (res: u64)
        requires
            member_type_index(self@) is Some,
        ensures
            member_type_index(self@) == Some(res),
    {
        match self {
            ProtoMemberBuilderInner::Enum(e) => match e.type_index {
                Some(t) => t,
                None => 0,
            },
            ProtoMemberBuilderInner::Message(m) => {
                proof { lemma_builder_view_parts(*m); }
                match m.class.type_index {
                    Some(t) => t,
                    None => 0,
                }
            },
        }
    }
}

/// Every number in the pool `a` is in the pool `b`, for the same name.
pub open spec fn numbers_within(a: Map<Seq<char>, u32>, b: Map<Seq<char>, u32>) -> bool {
    forall|k: Seq<char>| a.contains_key(k) ==> b.contains_key(k) && #[trigger] a[k] == b[k]
}

proof fn lemma_take_repeated_fields(pool: Pool, tys: Seq<(Seq<char>, Seq<char>)>)
    requires
        take_repeated(pool, tys) is Some,
    ensures
        numbers_within(take_repeated(pool, tys).unwrap().0.numbers, pool.numbers),
        take_repeated(pool, tys).unwrap().1.len() == tys.len(),
        forall|i: int| 0 <= i < tys.len() ==> pool.numbers.contains_key(tys[i].0)
            && #[trigger] take_repeated(pool, tys).unwrap().1[i] == FieldView::Repeated(
            NormalFieldView { ty: type_of(tys[i].1), name: tys[i].0, number: pool.numbers[tys[i].0] },
        ),
    decreases tys.len(),
{
    if tys.len() > 0 {
        let init = tys.drop_last();
        lemma_take_repeated_fields(pool, init);
        let (p, fs) = take_repeated(pool, init).unwrap();
        let res = take_repeated(pool, tys).unwrap();
        assert(res.0.numbers == p.numbers.remove(tys.last().0));
        assert forall|k: Seq<char>| #[trigger] res.0.numbers.contains_key(k) implies pool.numbers.contains_key(k)
            && res.0.numbers[k] == pool.numbers[k] by {
            assert(p.numbers.contains_key(k));
            assert(res.0.numbers[k] == p.numbers[k]);
        }
        assert forall|i: int| 0 <= i < tys.len() implies pool.numbers.contains_key(tys[i].0)
            && #[trigger] res.1[i] == FieldView::Repeated(
            NormalFieldView { ty: type_of(tys[i].1), name: tys[i].0, number: pool.numbers[tys[i].0] },
        ) by {
            if i < init.len() {
                assert(init[i] == tys[i]);
                assert(take_repeated(pool, init).unwrap().1[i] == res.1[i]);
            } else {
                assert(p.numbers.contains_key(tys.last().0));
                assert(p.numbers[tys.last().0] == pool.numbers[tys.last().0]);
            }
        }
    }
}

proof fn lemma_take_maps_fields(pool: Pool, tys: Seq<(Seq<char>, Seq<char>)>)
    requires
        take_maps(pool, tys) is Some,
    ensures
        numbers_within(take_maps(pool, tys).unwrap().0.numbers, pool.numbers),
        take_maps(pool, tys).unwrap().1.len() == tys.len(),
        forall|i: int| 0 <= i < tys.len() ==> {
            &&& pool.numbers.contains_key(tys[i].0)
            &&& split_once_of(tys[i].1, ", "@) matches Some((k, v))
            &&& #[trigger] take_maps(pool, tys).unwrap().1[i] == FieldView::Mapped(
                MapFieldView { key_ty: type_of(k), val_ty: type_of(v), name: tys[i].0, number: pool.numbers[tys[i].0] },
            )
        },
    decreases tys.len(),
{
    if tys.len() > 0 {
        let init = tys.drop_last();
        lemma_take_maps_fields(pool, init);
        let (p, fs) = take_maps(pool, init).unwrap();
        let res = take_maps(pool, tys).unwrap();
        assert(res.0.numbers == p.numbers.remove(tys.last().0));
        assert forall|k: Seq<char>| #[trigger] res.0.numbers.contains_key(k) implies pool.numbers.contains_key(k)
            && res.0.numbers[k] == pool.numbers[k] by {
            assert(p.numbers.contains_key(k));
            assert(res.0.numbers[k] == p.numbers[k]);
        }
        assert forall|i: int| 0 <= i < tys.len() implies {
            &&& pool.numbers.contains_key(tys[i].0)
            &&& split_once_of(tys[i].1, ", "@) matches Some((k, v))
            &&& #[trigger] res.1[i] == FieldView::Mapped(
                MapFieldView { key_ty: type_of(k), val_ty: type_of(v), name: tys[i].0, number: pool.numbers[tys[i].0] },
            )
        } by {
            if i < init.len() {
                assert(init[i] == tys[i]);
                assert(take_maps(pool, init).unwrap().1[i] == res.1[i]);
            } else {
                assert(p.numbers.contains_key(tys.last().0));
                assert(p.numbers[tys.last().0] == pool.numbers[tys.last().0]);
            }
        }
    }
}

/// The classified fields of a class of kind `k`: name and type.
pub open spec fn class_entries(class: ClassView, k: GenKind) -> Seq<(Seq<char>, Seq<char>)> {
    entries_of(gens_of(class.fields).unwrap(), k)
}

/// The field numbers the constants of a class give.
pub open spec fn class_numbers(class: ClassView) -> Map<Seq<char>, u32> {
    numbers_of(gens_of(class.fields).unwrap())
}

/// Every repeated field of a class, a backing field of type
/// `RepeatedField<T>`, becomes a repeated field of the message built from
/// it: of the element type, under its own name, numbered by its
/// field-number constant.
pub proof fn lemma_repeated_fields_stay_repeated(class: ClassView, oneof: Seq<EnumView>)
    requires
        message_fields(class, oneof) is Some,
    ensures
        gens_of(class.fields) is Some,
        forall|i: int| 0 <= i < class_entries(class, GenKind::Repeated).len() ==>
            exists|j: int| 0 <= j < message_fields(class, oneof).unwrap().len()
                && message_fields(class, oneof).unwrap()[j] == FieldView::Repeated(
                    NormalFieldView {
                        ty: type_of((#[trigger] class_entries(class, GenKind::Repeated)[i]).1),
                        name: class_entries(class, GenKind::Repeated)[i].0,
                        number: class_numbers(class)[class_entries(class, GenKind::Repeated)[i].0],
                    },
                ),
{
    reveal(message_fields);
    let props = props_of(class.properties).unwrap();
    let gs = gens_of(class.fields).unwrap();
    let p0 = pool_of(props, gs);
    let (p1, f1) = take_types(p0, entries_of(gs, GenKind::Type)).unwrap();
    let reps = entries_of(gs, GenKind::Repeated);
    let (p2, f2) = take_repeated(p1, reps).unwrap();
    let (p3, f3) = take_maps(p2, entries_of(gs, GenKind::MapType)).unwrap();
    let (p4, f4) = take_oneofs(p3, oneof).unwrap();
    let fs = message_fields(class, oneof).unwrap();
    assert(fs == f1 + f2 + f3 + f4);
    lemma_take_types_fields(p0, entries_of(gs, GenKind::Type));
    lemma_take_repeated_fields(p1, reps);
    assert forall|i: int| 0 <= i < reps.len() implies {
        let e = #[trigger] reps[i];
        exists|j: int| 0 <= j < fs.len()
            && fs[j] == FieldView::Repeated(NormalFieldView { ty: type_of(e.1), name: e.0, number: numbers_of(gs)[e.0] })
    } by {
        let e = reps[i];
        assert(f2[i] == take_repeated(p1, reps).unwrap().1[i]);
        assert(p1.numbers.contains_key(e.0));
        assert(p1.numbers[e.0] == p0.numbers[e.0]);
        assert(fs[f1.len() + i] == f2[i]);
    }
}

/// Every map field of a class, a backing field of type `MapField<K, V>`,
/// becomes a map field of the message built from it, with `K` as its key
/// type and `V` as its value type, under its own name, numbered by its
/// field-number constant.
pub proof fn lemma_map_fields_keep_key_then_value(class: ClassView, oneof: Seq<EnumView>)
    requires
        message_fields(class, oneof) is Some,
    ensures
        gens_of(class.fields) is Some,
        forall|i: int| 0 <= i < class_entries(class, GenKind::MapType).len() ==> {
            &&& split_once_of((#[trigger] class_entries(class, GenKind::MapType)[i]).1, ", "@) is Some
            &&& exists|j: int| 0 <= j < message_fields(class, oneof).unwrap().len()
                && message_fields(class, oneof).unwrap()[j] == FieldView::Mapped(
                    MapFieldView {
                        key_ty: type_of(split_once_of(class_entries(class, GenKind::MapType)[i].1, ", "@).unwrap().0),
                        val_ty: type_of(split_once_of(class_entries(class, GenKind::MapType)[i].1, ", "@).unwrap().1),
                        name: class_entries(class, GenKind::MapType)[i].0,
                        number: class_numbers(class)[class_entries(class, GenKind::MapType)[i].0],
                    },
                )
        },
{
    reveal(message_fields);
    let props = props_of(class.properties).unwrap();
    let gs = gens_of(class.fields).unwrap();
    let p0 = pool_of(props, gs);
    let (p1, f1) = take_types(p0, entries_of(gs, GenKind::Type)).unwrap();
    let (p2, f2) = take_repeated(p1, entries_of(gs, GenKind::Repeated)).unwrap();
    let maps = entries_of(gs, GenKind::MapType);
    let (p3, f3) = take_maps(p2, maps).unwrap();
    let (p4, f4) = take_oneofs(p3, oneof).unwrap();
    let fs = message_fields(class, oneof).unwrap();
    assert(fs == f1 + f2 + f3 + f4);
    lemma_take_types_fields(p0, entries_of(gs, GenKind::Type));
    lemma_take_repeated_fields(p1, entries_of(gs, GenKind::Repeated));
    lemma_take_maps_fields(p2, maps);
    assert forall|i: int| 0 <= i < maps.len() implies {
        let e = #[trigger] maps[i];
        &&& split_once_of(e.1, ", "@) matches Some((k, v))
        &&& exists|j: int| 0 <= j < fs.len()
            && fs[j] == FieldView::Mapped(MapFieldView { key_ty: type_of(k), val_ty: type_of(v), name: e.0, number: numbers_of(gs)[e.0] })
    } by {
        let e = maps[i];
        assert(f3[i] == take_maps(p2, maps).unwrap().1[i]);
        assert(p2.numbers.contains_key(e.0));
        assert(p2.numbers[e.0] == p1.numbers[e.0]);
        assert(p1.numbers[e.0] == p0.numbers[e.0]);
        assert(fs[f1.len() + f2.len() + i] == f3[i]);
    }
}

proof fn lemma_take_types_fields(pool: Pool, tys: Seq<(Seq<char>, Seq<char>)>)
    requires
        take_types(pool, tys) is Some,
    ensures
        numbers_within(take_types(pool, tys).unwrap().0.numbers, pool.numbers),
        forall|k: Seq<char>| #[trigger] take_types(pool, tys).unwrap().0.numbers.contains_key(k) ==>
            (take_types(pool, tys).unwrap().0.defaults.contains_key(k) == pool.defaults.contains_key(k)),
        forall|i: int| 0 <= i < tys.len() ==> !take_types(pool, tys).unwrap().0.numbers.contains_key(#[trigger] tys[i].0),
        take_types(pool, tys).unwrap().1.len() == tys.len(),
        forall|i: int| 0 <= i < tys.len() ==> pool.numbers.contains_key(tys[i].0)
            && #[trigger] take_types(pool, tys).unwrap().1[i] == (if pool.defaults.contains_key(tys[i].0) {
                FieldView::Optional(NormalFieldView { ty: type_of(tys[i].1), name: tys[i].0, number: pool.numbers[tys[i].0] })
            } else {
                FieldView::Normal(NormalFieldView { ty: type_of(tys[i].1), name: tys[i].0, number: pool.numbers[tys[i].0] })
            }),
    decreases tys.len(),
{
    if tys.len() > 0 {
        let init = tys.drop_last();
        lemma_take_types_fields(pool, init);
        let (p, fs) = take_types(pool, init).unwrap();
        let res = take_types(pool, tys).unwrap();
        let n = tys.last().0;
        assert(p.numbers.contains_key(n));
        assert(res.0.numbers == p.numbers.remove(n));
        assert(res.0.defaults == p.defaults.remove(n));
        assert forall|k: Seq<char>| #[trigger] res.0.numbers.contains_key(k) implies pool.numbers.contains_key(k)
            && res.0.numbers[k] == pool.numbers[k] by {
            assert(p.numbers.contains_key(k));
            assert(res.0.numbers[k] == p.numbers[k]);
        }
        assert forall|k: Seq<char>| #[trigger] res.0.numbers.contains_key(k) implies
            (res.0.defaults.contains_key(k) == pool.defaults.contains_key(k)) by {
            assert(p.numbers.contains_key(k));
        }
        assert forall|i: int| 0 <= i < tys.len() implies !res.0.numbers.contains_key(#[trigger] tys[i].0) by {
            if i < init.len() {
                assert(init[i] == tys[i]);
                assert(!p.numbers.contains_key(init[i].0));
            }
        }
        assert forall|i: int| 0 <= i < tys.len() implies pool.numbers.contains_key(tys[i].0)
            && #[trigger] res.1[i] == (if pool.defaults.contains_key(tys[i].0) {
                FieldView::Optional(NormalFieldView { ty: type_of(tys[i].1), name: tys[i].0, number: pool.numbers[tys[i].0] })
            } else {
                FieldView::Normal(NormalFieldView { ty: type_of(tys[i].1), name: tys[i].0, number: pool.numbers[tys[i].0] })
            }) by {
            if i < init.len() {
                assert(init[i] == tys[i]);
                assert(take_types(pool, init).unwrap().1[i] == res.1[i]);
            } else {
                assert(p.numbers[n] == pool.numbers[n]);
                assert(p.defaults.contains_key(n) == pool.defaults.contains_key(n));
            }
        }
    }
}

/// The names of the optional fields of a class: those with a default value.
pub open spec fn class_defaults(class: ClassView) -> NameSet {
    names_of(gens_of(class.fields).unwrap(), GenKind::Default)
}

/// Every plain field of a class, a backing field with its accessor,
/// becomes a field of the message built from it, under its own name,
/// numbered by its field-number constant: an optional field when the class
/// holds a default value for it, a plain one otherwise.
pub proof fn lemma_fields_with_default_are_optional(class: ClassView, oneof: Seq<EnumView>)
    requires
        message_fields(class, oneof) is Some,
    ensures
        gens_of(class.fields) is Some,
        forall|i: int| 0 <= i < class_entries(class, GenKind::Type).len() ==>
            exists|j: int| 0 <= j < message_fields(class, oneof).unwrap().len()
                && message_fields(class, oneof).unwrap()[j] == ({
                    let e = #[trigger] class_entries(class, GenKind::Type)[i];
                    let f = NormalFieldView { ty: type_of(e.1), name: e.0, number: class_numbers(class)[e.0] };
                    if class_defaults(class).contains_key(e.0) {
                        FieldView::Optional(f)
                    } else {
                        FieldView::Normal(f)
                    }
                }),
{
    reveal(message_fields);
    let props = props_of(class.properties).unwrap();
    let gs = gens_of(class.fields).unwrap();
    let p0 = pool_of(props, gs);
    let tys = entries_of(gs, GenKind::Type);
    let (p1, f1) = take_types(p0, tys).unwrap();
    let (p2, f2) = take_repeated(p1, entries_of(gs, GenKind::Repeated)).unwrap();
    let (p3, f3) = take_maps(p2, entries_of(gs, GenKind::MapType)).unwrap();
    let (p4, f4) = take_oneofs(p3, oneof).unwrap();
    let fs = message_fields(class, oneof).unwrap();
    assert(fs == f1 + f2 + f3 + f4);
    lemma_take_types_fields(p0, tys);
    assert forall|i: int| 0 <= i < tys.len() implies {
        let e = #[trigger] tys[i];
        let f = NormalFieldView { ty: type_of(e.1), name: e.0, number: numbers_of(gs)[e.0] };
        exists|j: int| 0 <= j < fs.len() && fs[j] == (if names_of(gs, GenKind::Default).contains_key(e.0) {
            FieldView::Optional(f)
        } else {
            FieldView::Normal(f)
        })
    } by {
        assert(f1[i] == take_types(p0, tys).unwrap().1[i]);
        assert(fs[i] == f1[i]);
    }
}

proof fn lemma_take_oneofs_all_oneof(pool: Pool, es: Seq<EnumView>)
    requires
        take_oneofs(pool, es) is Some,
    ensures
        forall|i: int| 0 <= i < take_oneofs(pool, es).unwrap().1.len() ==>
            #[trigger] take_oneofs(pool, es).unwrap().1[i] is OneOf,
    decreases es.len(),
{
    if es.len() > 0 {
        let init = es.drop_last();
        lemma_take_oneofs_all_oneof(pool, init);
        let fs = take_oneofs(pool, init).unwrap().1;
        let res = take_oneofs(pool, es).unwrap().1;
        assert forall|i: int| 0 <= i < res.len() implies #[trigger] res[i] is OneOf by {
            if i < fs.len() {
                assert(res[i] == fs[i]);
            }
        }
    }
}

/// The fields of a built message come in a fixed order: first one plain or
/// optional field for each plain field of the class, then the repeated
/// fields, then the maps, then the oneofs.
pub proof fn lemma_message_field_order(class: ClassView, oneof: Seq<EnumView>)
    requires
        message_fields(class, oneof) is Some,
    ensures
        gens_of(class.fields) is Some,
        ({
            let fs = message_fields(class, oneof).unwrap();
            let t = class_entries(class, GenKind::Type).len();
            let r = class_entries(class, GenKind::Repeated).len();
            let m = class_entries(class, GenKind::MapType).len();
            &&& t + r + m <= fs.len()
            &&& forall|i: int| 0 <= i < t ==> (#[trigger] fs[i] is Normal || fs[i] is Optional)
            &&& forall|i: int| t <= i < t + r ==> #[trigger] fs[i] is Repeated
            &&& forall|i: int| t + r <= i < t + r + m ==> #[trigger] fs[i] is Mapped
            &&& forall|i: int| t + r + m <= i < fs.len() ==> #[trigger] fs[i] is OneOf
        }),
{
    reveal(message_fields);
    let props = props_of(class.properties).unwrap();
    let gs = gens_of(class.fields).unwrap();
    let p0 = pool_of(props, gs);
    let tys = entries_of(gs, GenKind::Type);
    let reps = entries_of(gs, GenKind::Repeated);
    let maps = entries_of(gs, GenKind::MapType);
    let (p1, f1) = take_types(p0, tys).unwrap();
    let (p2, f2) = take_repeated(p1, reps).unwrap();
    let (p3, f3) = take_maps(p2, maps).unwrap();
    let (p4, f4) = take_oneofs(p3, oneof).unwrap();
    let fs = message_fields(class, oneof).unwrap();
    assert(fs == f1 + f2 + f3 + f4);
    lemma_take_types_fields(p0, tys);
    lemma_take_repeated_fields(p1, reps);
    lemma_take_maps_fields(p2, maps);
    lemma_take_oneofs_all_oneof(p3, oneof);
    let t = tys.len();
    let r = reps.len();
    let m = maps.len();
    assert forall|i: int| 0 <= i < t implies (#[trigger] fs[i] is Normal || fs[i] is Optional) by {
        assert(fs[i] == f1[i]);
        assert(f1[i] == take_types(p0, tys).unwrap().1[i]);
    }
    assert forall|i: int| t <= i < t + r implies #[trigger] fs[i] is Repeated by {
        assert(fs[i] == f2[i - t]);
        assert(f2[i - t] == take_repeated(p1, reps).unwrap().1[i - t]);
    }
    assert forall|i: int| t + r <= i < t + r + m implies #[trigger] fs[i] is Mapped by {
        assert(fs[i] == f3[i - t - r]);
        assert(f3[i - t - r] == take_maps(p2, maps).unwrap().1[i - t - r]);
    }
    assert forall|i: int| t + r + m <= i < fs.len() implies #[trigger] fs[i] is OneOf by {
        assert(fs[i] == f4[i - t - r - m]);
        assert(f4[i - t - r - m] == take_oneofs(p3, oneof).unwrap().1[i - t - r - m]);
    }
}

} // verus!
