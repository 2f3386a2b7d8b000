//! The steps from the members of a dump to the members of each package:
//! choosing the message classes and enums, placing the nested ones in the
//! messages that declare them, and grouping what is left by package.

use vstd::prelude::*;

use crate::names::{group_push, groups_flat, has_key, keys_distinct, lemma_group_push_distinct, lemma_group_push_values};
use crate::parser::data_structs::{Class, ClassView, DataStruct, DataStructInner, DataStructInnerView, DataStructView, Enum, EnumView};
use crate::protobuf::builders::message::{
    can_insert, inserted, member_buildable, member_built, member_type_index, oneof_inserted, MemberBuilderView,
    MessageBuilderView, ProtoMemberBuilderInner,
};
use crate::protobuf::builders::package::{
    bucket_pushed, buckets_by_length, buckets_flat, lemma_bucket_pushed_by_length, lemma_shorter_paths_first, builder_views, host, host_found, nested_view, with_host, NestedMembers, ProtoMemberBuilder,
    TopLevelMembers,
};
use crate::protobuf::message::MemberView;
use crate::protobuf::package::filter::{regex_matches, NamespaceFilter};
use crate::protobuf::package::TopMap;
use crate::protobuf::type_path::{type_path_of, TypePath};
use crate::text::{has_suffix, str_eq, string_views, to_lowercase, unicode_lowercase};
use crate::vecs::{lemma_reversed_rest, reversed};

verus! {

/// The members chosen from a dump, before nested ones are placed: the
/// top-level members by name, the nested ones by path length, and the
/// oneof enums with their paths.
pub struct Gathered {
    pub top: Seq<(Seq<char>, Seq<(MemberBuilderView, Seq<char>)>)>,
    pub nested: Seq<Seq<(Seq<Seq<char>>, MemberBuilderView)>>,
    pub oneof: Seq<(Seq<Seq<char>>, EnumView)>,
}

/// The class implements `IMessage`.
pub open spec fn is_message_class(c: ClassView) -> bool {
    c.interfaces.contains("IMessage"@)
}

/// The message under construction for a class, with nothing nested yet.
pub open spec fn class_builder(c: ClassView) -> MemberBuilderView {
    MemberBuilderView::Message(MessageBuilderView { class: c, inner: seq![], oneof: seq![] })
}

/// What one member of the dump adds. A message class or an enum with a
/// namespace goes to the top level if the namespace matches `pattern`; one
/// without a namespace is nested if its name is a path of two names or
/// more, and an enum whose path ends in `OneofCase` is a oneof. Anything
/// else is left out.
pub open spec fn gather_step(g: Gathered, d: DataStructView, pattern: Seq<char>) -> Gathered {
    match d.kind {
        DataStructInnerView::Class(c) => if !is_message_class(c) {
            g
        } else {
            match d.namespace {
                Some(ns) => if regex_matches(pattern, ns) {
                    Gathered { top: group_push(g.top, c.name, (class_builder(c), ns)), ..g }
                } else {
                    g
                },
                None => match type_path_of(c.name) {
                    Some(p) => if p.len() >= 2 {
                        Gathered { nested: bucket_pushed(g.nested, (p, class_builder(c))), ..g }
                    } else {
                        g
                    },
                    None => g,
                },
            }
        },
        DataStructInnerView::Enum(e) => match d.namespace {
            Some(ns) => if regex_matches(pattern, ns) {
                Gathered { top: group_push(g.top, e.name, (MemberBuilderView::Enum(e), ns)), ..g }
            } else {
                g
            },
            None => match type_path_of(e.name) {
                Some(p) => if has_suffix(p.last(), "OneofCase"@) {
                    Gathered { oneof: g.oneof.push((p, e)), ..g }
                } else if p.len() >= 2 {
                    Gathered { nested: bucket_pushed(g.nested, (p, MemberBuilderView::Enum(e))), ..g }
                } else {
                    g
                },
                None => g,
            },
        },
        _ => g,
    }
}

/// What the members of a dump add, in order.
pub open spec fn gathered(ds: Seq<DataStructView>, pattern: Seq<char>) -> Gathered
    decreases ds.len(),
{
    if ds.len() == 0 {
        Gathered { top: seq![], nested: seq![], oneof: seq![] }
    } else {
        gather_step(gathered(ds.drop_last(), pattern), ds.last(), pattern)
    }
}

/// The views of oneof enums with their paths.
pub open spec fn oneof_views(s: Seq<(Vec<String>, Enum)>) -> Seq<(Seq<Seq<char>>, EnumView)> {
    s.map_values(|e: (Vec<String>, Enum)| (string_views(e.0@), e.1@))
}

/// The class implements `IMessage`.
fn implements_message(c: &Class) -> (res: bool)
    ensures
        res == is_message_class(c@),
{
    let mut i: usize = 0;
    while i < c.interfaces.len()
        invariant
            i <= c.interfaces@.len(),
            forall|j: int| 0 <= j < i ==> c@.interfaces[j] != "IMessage"@,
        decreases c.interfaces@.len() - i,
    {
        assert(c@.interfaces[i as int] == c.interfaces@[i as int]@);
        if str_eq(c.interfaces[i].as_str(), "IMessage") {
            assert(c@.interfaces[i as int] == "IMessage"@);
            return true;
        }
        i = i + 1;
    }
    false
}

/// Chooses the message classes and enums of a dump and sorts them into
/// top-level, nested and oneof members; namespaces are kept when the
/// filter matches them.
pub fn gather(members: Vec<DataStruct>, filter: &NamespaceFilter) -> (res: (TopLevelMembers, NestedMembers, Vec<(Vec<String>, Enum)>))
    ensures
        keys_distinct(res.0@),
        res.0@ == gathered(members@.map_values(|d: DataStruct| d@), filter.pattern()).top,
        res.1@ == gathered(members@.map_values(|d: DataStruct| d@), filter.pattern()).nested,
        oneof_views(res.2@) == gathered(members@.map_values(|d: DataStruct| d@), filter.pattern()).oneof,
{
    let ghost ms = members@;
    let ghost ds = members@.map_values(|d: DataStruct| d@);
    let ghost pattern = filter.pattern();
    let mut top = TopLevelMembers::new();
    let mut nested = NestedMembers::new();
    let mut oneof: Vec<(Vec<String>, Enum)> = Vec::new();
    let mut rest = reversed(members);
    let ghost mut i: int = 0;
    assert(ms.skip(0) =~= ms);
    assert(oneof_views(oneof@) =~= Seq::<(Seq<Seq<char>>, EnumView)>::empty());
    assert(ds.take(0) =~= Seq::<DataStructView>::empty());
    while rest.len() > 0
        invariant
            0 <= i <= ms.len(),
            ds == ms.map_values(|d: DataStruct| d@),
            pattern == filter.pattern(),
            rest@ == ms.skip(i).reverse(),
            keys_distinct(top@),
            top@ == gathered(ds.take(i), pattern).top,
            nested@ == gathered(ds.take(i), pattern).nested,
            oneof_views(oneof@) == gathered(ds.take(i), pattern).oneof,
        decreases rest@.len(),
    {
        assert(i < ms.len());
        proof { lemma_reversed_rest(ms, i); }
        let d = rest.pop().unwrap();
        assert(d@ == ds[i]);
        assert(ds.take(i + 1).drop_last() =~= ds.take(i));
        let ghost g = gathered(ds.take(i), pattern);
        let ghost before_oneof = oneof@;
        let DataStruct { namespace, attributes: _, kind } = d;
        match kind {
            DataStructInner::Class(class) => {
                if implements_message(&class) {
                    match namespace {
                        Some(ns) => {
                            if filter.is_match(ns.as_str()) {
                                top.insert_top(ProtoMemberBuilderInner::from_class(class), ns);
                            }
                        },
                        None => {
                            match TypePath::try_from_str(class.name.as_str()) {
                                Ok(path) => {
                                    if path.is_nested() {
                                        let names = path.to_owned();
                                        nested.insert(names, ProtoMemberBuilderInner::from_class(class));
                                    }
                                },
                                Err(_) => {},
                            }
                        },
                    }
                }
            },
            DataStructInner::Enum(e) => {
                match namespace {
                    Some(ns) => {
                        if filter.is_match(ns.as_str()) {
                            top.insert_top(ProtoMemberBuilderInner::from_enum(e), ns);
                        }
                    },
                    None => {
                        match TypePath::try_from_str(e.name.as_str()) {
                            Ok(path) => {
                                proof { crate::protobuf::type_path::lemma_type_path_nonempty(e.name@); }
                                if path.is_onecase() {
                                    let names = path.to_owned();
                                    oneof.push((names, e));
                                    assert(oneof_views(oneof@) =~= oneof_views(before_oneof).push((path@, e@)));
                                } else if path.is_nested() {
                                    let names = path.to_owned();
                                    nested.insert(names, ProtoMemberBuilderInner::from_enum(e));
                                }
                            },
                            Err(_) => {},
                        }
                    },
                }
            },
            _ => {},
        }
        proof { i = i + 1; }
    }
    assert(ds.take(i) =~= ds);
    (top, nested, oneof)
}


/// The members with the nested member `item` put in the message that
/// declares it, if its first name names any member.
pub open spec fn place_one(
    top: Seq<(Seq<char>, Seq<(MemberBuilderView, Seq<char>)>)>,
    item: (Seq<Seq<char>>, MemberBuilderView),
) -> Seq<(Seq<char>, Seq<(MemberBuilderView, Seq<char>)>)> {
    let t = member_type_index(item.1).unwrap();
    if has_key(top, item.0[0]) {
        with_host(top, item.0, t, inserted(host(top, item.0, t), item.0.skip(1), item.1))
    } else {
        top
    }
}

/// The nested member `item` can be put in the message that declares it.
pub open spec fn place_one_ok(
    top: Seq<(Seq<char>, Seq<(MemberBuilderView, Seq<char>)>)>,
    item: (Seq<Seq<char>>, MemberBuilderView),
) -> bool {
    &&& item.0.len() > 0
    &&& has_key(top, item.0[0]) ==> {
        &&& member_type_index(item.1) is Some
        &&& host_found(top, item.0, member_type_index(item.1).unwrap())
        &&& can_insert(host(top, item.0, member_type_index(item.1).unwrap()), item.0.skip(1))
    }
}

/// The members with the nested members `items` put in place, in order.
pub open spec fn placed_all(
    top: Seq<(Seq<char>, Seq<(MemberBuilderView, Seq<char>)>)>,
    items: Seq<(Seq<Seq<char>>, MemberBuilderView)>,
) -> Seq<(Seq<char>, Seq<(MemberBuilderView, Seq<char>)>)>
    decreases items.len(),
{
    if items.len() == 0 {
        top
    } else {
        place_one(placed_all(top, items.drop_last()), items.last())
    }
}

/// Each of the nested members `items` can be put in place, in order.
pub open spec fn place_all_ok(
    top: Seq<(Seq<char>, Seq<(MemberBuilderView, Seq<char>)>)>,
    items: Seq<(Seq<Seq<char>>, MemberBuilderView)>,
) -> bool
    decreases items.len(),
{
    if items.len() == 0 {
        true
    } else {
        place_all_ok(top, items.drop_last()) && place_one_ok(placed_all(top, items.drop_last()), items.last())
    }
}

/// The members with the oneof enum `item` put in the message that declares
/// it, if its first name names any member.
pub open spec fn oneof_one(
    top: Seq<(Seq<char>, Seq<(MemberBuilderView, Seq<char>)>)>,
    item: (Seq<Seq<char>>, EnumView),
) -> Seq<(Seq<char>, Seq<(MemberBuilderView, Seq<char>)>)> {
    let t = item.1.type_index.unwrap();
    if has_key(top, item.0[0]) {
        with_host(top, item.0, t, oneof_inserted(host(top, item.0, t), item.0.skip(1), item.1))
    } else {
        top
    }
}

/// The oneof enum `item` can be put in the message that declares it.
pub open spec fn oneof_one_ok(
    top: Seq<(Seq<char>, Seq<(MemberBuilderView, Seq<char>)>)>,
    item: (Seq<Seq<char>>, EnumView),
) -> bool {
    &&& item.0.len() > 0
    &&& has_key(top, item.0[0]) ==> {
        &&& item.1.type_index is Some
        &&& host_found(top, item.0, item.1.type_index.unwrap())
        &&& can_insert(host(top, item.0, item.1.type_index.unwrap()), item.0.skip(1))
    }
}

/// The members with the oneof enums `items` put in place, in order.
pub open spec fn oneofs_placed(
    top: Seq<(Seq<char>, Seq<(MemberBuilderView, Seq<char>)>)>,
    items: Seq<(Seq<Seq<char>>, EnumView)>,
) -> Seq<(Seq<char>, Seq<(MemberBuilderView, Seq<char>)>)>
    decreases items.len(),
{
    if items.len() == 0 {
        top
    } else {
        oneof_one(oneofs_placed(top, items.drop_last()), items.last())
    }
}

/// Each of the oneof enums `items` can be put in place, in order.
pub open spec fn oneofs_ok(
    top: Seq<(Seq<char>, Seq<(MemberBuilderView, Seq<char>)>)>,
    items: Seq<(Seq<Seq<char>>, EnumView)>,
) -> bool
    decreases items.len(),
{
    if items.len() == 0 {
        true
    } else {
        oneofs_ok(top, items.drop_last()) && oneof_one_ok(oneofs_placed(top, items.drop_last()), items.last())
    }
}

/// Puts each nested member, in order, in the message that declares it.
/// Returns `false`, and stops, at the first one that cannot be put in
/// place.
#[verifier::loop_isolation(false)]
pub fn place_nested(top: &mut TopLevelMembers, items: Vec<(Vec<String>, ProtoMemberBuilderInner)>) -> (ok: bool)
    requires
        keys_distinct(old(top)@),
    ensures
        keys_distinct(final(top)@),
        ok == place_all_ok(old(top)@, items@.map_values(|e: (Vec<String>, ProtoMemberBuilderInner)| nested_view(e))),
        ok ==> final(top)@ == placed_all(old(top)@, items@.map_values(|e: (Vec<String>, ProtoMemberBuilderInner)| nested_view(e))),
{
    let ghost start = top@;
    let ghost its = items@;
    let ghost vs = items@.map_values(|e: (Vec<String>, ProtoMemberBuilderInner)| nested_view(e));
    let mut rest = reversed(items);
    let ghost mut i: int = 0;
    assert(its.skip(0) =~= its);
    assert(vs.take(0) =~= Seq::<(Seq<Seq<char>>, MemberBuilderView)>::empty());
    while rest.len() > 0
        invariant
            0 <= i <= its.len(),
            vs == its.map_values(|e: (Vec<String>, ProtoMemberBuilderInner)| nested_view(e)),
            rest@ == its.skip(i).reverse(),
            keys_distinct(top@),
            top@ == placed_all(start, vs.take(i)),
            place_all_ok(start, vs.take(i)),
        decreases rest@.len(),
    {
        assert(i < its.len());
        proof {
            lemma_reversed_rest(its, i);
            assert(vs.take(i + 1).drop_last() =~= vs.take(i));
            assert(vs.take(i + 1).last() == vs[i]);
            if place_all_ok(start, vs) {
                lemma_place_all_ok_prefix(start, vs, i + 1);
            }
        }
        let (path, member) = rest.pop().unwrap();
        assert(nested_view((path, member)) == vs[i]);
        if path.len() == 0 {
            return false;
        }
        let tp = TypePath::from(&path);
        if !top.can_place(&tp, member.declared_index()) {
            return false;
        }
        let _ = top.insert_nested(tp, member);
        proof { i = i + 1; }
    }
    assert(vs.take(i) =~= vs);
    true
}

proof fn lemma_place_all_ok_prefix(
    top: Seq<(Seq<char>, Seq<(MemberBuilderView, Seq<char>)>)>,
    items: Seq<(Seq<Seq<char>>, MemberBuilderView)>,
    k: int,
)
    requires
        0 <= k <= items.len(),
        place_all_ok(top, items),
    ensures
        place_all_ok(top, items.take(k)),
    decreases items.len() - k,
{
    if k == items.len() {
        assert(items.take(k) =~= items);
    } else {
        lemma_place_all_ok_prefix(top, items, k + 1);
        assert(items.take(k + 1).drop_last() =~= items.take(k));
    }
}

proof fn lemma_oneofs_ok_prefix(
    top: Seq<(Seq<char>, Seq<(MemberBuilderView, Seq<char>)>)>,
    items: Seq<(Seq<Seq<char>>, EnumView)>,
    k: int,
)
    requires
        0 <= k <= items.len(),
        oneofs_ok(top, items),
    ensures
        oneofs_ok(top, items.take(k)),
    decreases items.len() - k,
{
    if k == items.len() {
        assert(items.take(k) =~= items);
    } else {
        lemma_oneofs_ok_prefix(top, items, k + 1);
        assert(items.take(k + 1).drop_last() =~= items.take(k));
    }
}

/// Puts each oneof enum, in order, in the message that declares it.
/// Returns `false`, and stops, at the first one that cannot be put in
/// place.
#[verifier::loop_isolation(false)]
pub fn place_oneofs(top: &mut TopLevelMembers, items: Vec<(Vec<String>, Enum)>) -> (ok: bool)
    requires
        keys_distinct(old(top)@),
    ensures
        keys_distinct(final(top)@),
        ok == oneofs_ok(old(top)@, oneof_views(items@)),
        ok ==> final(top)@ == oneofs_placed(old(top)@, oneof_views(items@)),
{
    let ghost start = top@;
    let ghost its = items@;
    let ghost vs = oneof_views(items@);
    let mut rest = reversed(items);
    let ghost mut i: int = 0;
    assert(its.skip(0) =~= its);
    assert(vs.take(0) =~= Seq::<(Seq<Seq<char>>, EnumView)>::empty());
    while rest.len() > 0
        invariant
            0 <= i <= its.len(),
            vs == oneof_views(its),
            rest@ == its.skip(i).reverse(),
            keys_distinct(top@),
            top@ == oneofs_placed(start, vs.take(i)),
            oneofs_ok(start, vs.take(i)),
        decreases rest@.len(),
    {
        assert(i < its.len());
        proof {
            lemma_reversed_rest(its, i);
            assert(vs.take(i + 1).drop_last() =~= vs.take(i));
            assert(vs.take(i + 1).last() == vs[i]);
            if oneofs_ok(start, vs) {
                lemma_oneofs_ok_prefix(start, vs, i + 1);
            }
        }
        let (path, member) = rest.pop().unwrap();
        assert((string_views(path@), member@) == vs[i]);
        if path.len() == 0 {
            return false;
        }
        let tp = TypePath::from(&path);
        if !top.can_place(&tp, member.type_index) {
            return false;
        }
        let _ = top.insert_nested_oneof(tp, member);
        proof { i = i + 1; }
    }
    assert(vs.take(i) =~= vs);
    true
}

/// The packages of the members: each member, built, goes to the package
/// named by its namespace in lower case; packages come in the order their
/// first member comes.
pub open spec fn packages_of(ms: Seq<(MemberBuilderView, Seq<char>)>) -> Seq<(Seq<char>, Seq<MemberView>)>
    decreases ms.len(),
{
    if ms.len() == 0 {
        seq![]
    } else {
        group_push(packages_of(ms.drop_last()), unicode_lowercase(ms.last().1), member_built(ms.last().0))
    }
}

/// Whether every member can be built.
pub fn all_buildable(ms: &Vec<ProtoMemberBuilder>) -> (res: bool)
    ensures
        res == forall|i: int| 0 <= i < ms@.len() ==> member_buildable(#[trigger] builder_views(ms@)[i].0),
{
    let mut i: usize = 0;
    while i < ms.len()
        invariant
            i <= ms@.len(),
            forall|k: int| 0 <= k < i ==> member_buildable(#[trigger] builder_views(ms@)[k].0),
        decreases ms@.len() - i,
    {
        assert(builder_views(ms@)[i as int] == ms@[i as int]@);
        if !ms[i].inner().can_build() {
            return false;
        }
        i = i + 1;
    }
    true
}

/// Builds each member and groups the members by package.
pub fn group_packages(ms: Vec<ProtoMemberBuilder>) -> (res: TopMap)
    requires
        forall|i: int| 0 <= i < ms@.len() ==> member_buildable(#[trigger] builder_views(ms@)[i].0),
    ensures
        keys_distinct(res@),
        res@ == packages_of(builder_views(ms@)),
{
    let ghost its = ms@;
    let ghost vs = builder_views(ms@);
    let mut map = TopMap::new();
    let mut rest = reversed(ms);
    let ghost mut i: int = 0;
    assert(its.skip(0) =~= its);
    assert(vs.take(0) =~= Seq::<(MemberBuilderView, Seq<char>)>::empty());
    while rest.len() > 0
        invariant
            0 <= i <= its.len(),
            vs == builder_views(its),
            forall|k: int| 0 <= k < vs.len() ==> member_buildable(#[trigger] vs[k].0),
            rest@ == its.skip(i).reverse(),
            keys_distinct(map@),
            map@ == packages_of(vs.take(i)),
        decreases rest@.len(),
    {
        assert(i < its.len());
        proof {
            lemma_reversed_rest(its, i);
            assert(vs.take(i + 1).drop_last() =~= vs.take(i));
            assert(vs.take(i + 1).last() == vs[i]);
        }
        let b = rest.pop().unwrap();
        assert(b@ == vs[i]);
        let (member, namespace) = b.destruct();
        assert(member_buildable(vs[i].0));
        let package = to_lowercase(namespace.as_str());
        map.push(package, member.build());
        proof { i = i + 1; }
    }
    assert(vs.take(i) =~= vs);
    map
}

/// No two packages have the same name: each package is written to a file
/// of its own.
pub proof fn lemma_packages_distinct(ms: Seq<(MemberBuilderView, Seq<char>)>)
    ensures
        keys_distinct(packages_of(ms)),
    decreases ms.len(),
{
    if ms.len() > 0 {
        lemma_packages_distinct(ms.drop_last());
        lemma_group_push_distinct(packages_of(ms.drop_last()), unicode_lowercase(ms.last().1), member_built(ms.last().0));
    }
}

/// Every member lands in exactly one package: the members of all packages
/// are the members given, built, none lost and none repeated.
pub proof fn lemma_packages_hold_all(ms: Seq<(MemberBuilderView, Seq<char>)>)
    ensures
        groups_flat(packages_of(ms)).to_multiset()
            == ms.map_values(|m: (MemberBuilderView, Seq<char>)| member_built(m.0)).to_multiset(),
    decreases ms.len(),
{
    let f = |m: (MemberBuilderView, Seq<char>)| member_built(m.0);
    if ms.len() == 0 {
        assert(ms.map_values(f) =~= Seq::<MemberView>::empty());
        assert(groups_flat(packages_of(ms)) =~= Seq::<MemberView>::empty());
    } else {
        lemma_packages_hold_all(ms.drop_last());
        lemma_group_push_values(packages_of(ms.drop_last()), unicode_lowercase(ms.last().1), member_built(ms.last().0));
        assert(ms.map_values(f) =~= ms.drop_last().map_values(f).push(member_built(ms.last().0)));
        vstd::seq_lib::to_multiset_build(ms.drop_last().map_values(f), member_built(ms.last().0));
    }
}

proof fn lemma_gathered_by_length(ds: Seq<DataStructView>, pattern: Seq<char>)
    ensures
        buckets_by_length(gathered(ds, pattern).nested),
    decreases ds.len(),
{
    if ds.len() > 0 {
        let g = gathered(ds.drop_last(), pattern);
        lemma_gathered_by_length(ds.drop_last(), pattern);
        let d = ds.last();
        match d.kind {
            DataStructInnerView::Class(c) => {
                if is_message_class(c) && d.namespace is None {
                    if let Some(p) = type_path_of(c.name) {
                        if p.len() >= 2 {
                            lemma_bucket_pushed_by_length(g.nested, (p, class_builder(c)));
                        }
                    }
                }
            },
            DataStructInnerView::Enum(e) => {
                if d.namespace is None {
                    if let Some(p) = type_path_of(e.name) {
                        if p.len() >= 2 {
                            lemma_bucket_pushed_by_length(g.nested, (p, MemberBuilderView::Enum(e)));
                        }
                    }
                }
            },
            _ => {},
        }
    }
}

/// The nested members of a dump are placed shorter paths first: a member
/// is placed after the members its path passes through.
pub proof fn lemma_nested_in_order(ds: Seq<DataStructView>, pattern: Seq<char>)
    ensures
        forall|a: int, b: int| 0 <= a < b < buckets_flat(gathered(ds, pattern).nested).len()
            ==> (#[trigger] buckets_flat(gathered(ds, pattern).nested)[a]).0.len()
                <= (#[trigger] buckets_flat(gathered(ds, pattern).nested)[b]).0.len(),
{
    lemma_gathered_by_length(ds, pattern);
    lemma_shorter_paths_first(gathered(ds, pattern).nested);
}

} // verus!
