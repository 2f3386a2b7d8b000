//! Members gathered by name before they are built, and the placing of
//! nested members and oneofs in the messages that declare them.

use vstd::prelude::*;

use crate::names::{group_push, groups_flat, has_key, index_of_key, keys_distinct};
use crate::parser::data_structs::{Enum, EnumView};
use crate::protobuf::builders::message::{
    can_insert, inserted, lemma_builder_view_parts, lemma_member_builder_view, member_type_index, oneof_inserted,
    MemberBuilderView, MessageBuilder, MessageBuilderView, ProtoMemberBuilderInner,
};
use crate::protobuf::type_path::TypePath;
use crate::text::{copy_string, str_eq};
use crate::vecs::{lemma_reversed_rest, reversed};

verus! {

/// A member under construction, with the namespace it was declared in.
pub struct ProtoMemberBuilder {
    member: ProtoMemberBuilderInner,
    namespace: String,
}

impl View for ProtoMemberBuilder {
    type V = (MemberBuilderView, Seq<char>);

    closed spec fn view(&self) -> (MemberBuilderView, Seq<char>) {
        (self.member@, self.namespace@)
    }
}

impl ProtoMemberBuilder {
    /// The member `member`, declared in `namespace`.
    pub fn new(member: ProtoMemberBuilderInner, namespace: String) -> (res: ProtoMemberBuilder)
        ensures
            res@ == (member@, namespace@),
    {
        ProtoMemberBuilder { member, namespace }
    }

    /// The member under construction.
    pub fn inner(&self) -> (res: &ProtoMemberBuilderInner)
        ensures
            res@ == self@.0,
    {
        &self.member
    }

    /// The member under construction and its namespace.
    pub fn destruct(self) -> (res: (ProtoMemberBuilderInner, String))
        ensures
            res.0@ == self@.0,
            res.1@ == self@.1,
    {
        (self.member, self.namespace)
    }
}

/// The views of a sequence of members with their namespaces.
pub open spec fn builder_views(s: Seq<ProtoMemberBuilder>) -> Seq<(MemberBuilderView, Seq<char>)> {
    s.map_values(|b: ProtoMemberBuilder| b@)
}

/// A message of `ms` can hold what is nested in it: each of them has a type index.
pub open spec fn messages_indexed(ms: Seq<(MemberBuilderView, Seq<char>)>) -> bool {
    forall|j: int| 0 <= j < ms.len() ==> ((#[trigger] ms[j]).0 matches MemberBuilderView::Message(m) ==> m.class.type_index is Some)
}

/// The member is a message declared at or after the type index `t`.
pub open spec fn eligible(p: (MemberBuilderView, Seq<char>), t: u64) -> bool {
    p.0 matches MemberBuilderView::Message(m) && m.class.type_index matches Some(x) && x >= t
}

/// How far after the type index `t` the member, a message, was declared.
pub open spec fn distance(p: (MemberBuilderView, Seq<char>), t: u64) -> int {
    match p.0 {
        MemberBuilderView::Message(m) => match m.class.type_index {
            Some(x) => x - t,
            None => 0,
        },
        MemberBuilderView::Enum(_) => 0,
    }
}

/// Among the members of one name, the `i`th is the message that declares
/// a member of type index `t`: the first of those declared the least
/// after it.
pub open spec fn is_unambiguous(ms: Seq<(MemberBuilderView, Seq<char>)>, t: u64, i: int) -> bool {
    &&& 0 <= i < ms.len()
    &&& eligible(ms[i], t)
    &&& forall|j: int| 0 <= j < ms.len() && eligible(#[trigger] ms[j], t) ==> distance(ms[i], t) <= distance(ms[j], t)
    &&& forall|j: int| 0 <= j < i && eligible(#[trigger] ms[j], t) ==> distance(ms[j], t) > distance(ms[i], t)
}

/// The position of the message that declares a member of type index `t`.
pub open spec fn unambiguous_index(ms: Seq<(MemberBuilderView, Seq<char>)>, t: u64) -> int {
    choose|i: int| is_unambiguous(ms, t, i)
}

/// The message that declares a member of type index `t` is a single one.
pub proof fn lemma_unambiguous_unique(ms: Seq<(MemberBuilderView, Seq<char>)>, t: u64, i: int, j: int)
    requires
        is_unambiguous(ms, t, i),
        is_unambiguous(ms, t, j),
    ensures
        i == j,
{
    assert(distance(ms[i], t) <= distance(ms[j], t));
    assert(distance(ms[j], t) <= distance(ms[i], t));
    if i < j {
        assert(distance(ms[i], t) > distance(ms[j], t));
    } else if j < i {
        assert(distance(ms[j], t) > distance(ms[i], t));
    }
}

/// The position, among `members`, of the message that declares a member
/// of type index `inner_type_index`: the first of the messages declared
/// the least after it.
pub fn unambiguous_messages(members: &Vec<ProtoMemberBuilder>, inner_type_index: u64) -> (res: usize)
    requires
        messages_indexed(builder_views(members@)),
        exists|j: int| 0 <= j < members@.len() && eligible(#[trigger] builder_views(members@)[j], inner_type_index),
    ensures
        is_unambiguous(builder_views(members@), inner_type_index, res as int),
{
    let ghost ms = builder_views(members@);
    let t = inner_type_index;
    let mut best: Option<(u64, usize)> = None;
    let mut j: usize = 0;
    while j < members.len()
        invariant
            j <= members@.len(),
            ms == builder_views(members@),
            messages_indexed(ms),
            match best {
                Some((d, i)) => i < j && is_unambiguous(ms.take(j as int), t, i as int) && d == distance(ms[i as int], t),
                None => forall|k: int| 0 <= k < j ==> !eligible(#[trigger] ms[k], t),
            },
        decreases members@.len() - j,
    {
        assert(ms[j as int] == members@[j as int]@);
        let inner = members[j].inner();
        proof { lemma_member_builder_view(*inner); }
        if let ProtoMemberBuilderInner::Message(message) = inner {
            proof { lemma_builder_view_parts(*message); }
            assert(ms[j as int].0 == MemberBuilderView::Message(message@));
            let x = match message.class.type_index {
                Some(x) => x,
                None => {
                    assert(false);
                    0
                },
            };
            if x >= t {
                let dif = x - t;
                let better = match best {
                    Some((d, _)) => d > dif,
                    None => true,
                };
                if better {
                    best = Some((dif, j));
                }
            }
        }
        proof {
            let tk = ms.take(j + 1);
            assert forall|k: int| 0 <= k < j implies #[trigger] tk[k] == ms[k] by {}
            assert(tk[j as int] == ms[j as int]);
            assert forall|k: int| 0 <= k <= j implies #[trigger] ms.take(j as int + 1)[k] == ms[k] by {}
            match best {
                Some((d, i)) => {
                    assert forall|k: int| 0 <= k < j implies #[trigger] ms.take(j as int)[k] == ms[k] by {}
                },
                None => {},
            }
        }
        j = j + 1;
    }
    assert(ms.take(j as int) =~= ms);
    match best {
        Some((_, i)) => i,
        None => {
            assert(false);
            0
        },
    }
}

/// The position among `members` of the message that declares a member of
/// type index `t`, when every message among them has a type index and one
/// of them is declared at or after `t`.
fn find_host(members: &Vec<ProtoMemberBuilder>, t: u64) -> (res: Option<usize>)
    ensures
        match res {
            Some(i) => messages_indexed(builder_views(members@))
                && (exists|j: int| 0 <= j < members@.len() && eligible(#[trigger] builder_views(members@)[j], t))
                && is_unambiguous(builder_views(members@), t, i as int),
            None => !(messages_indexed(builder_views(members@))
                && exists|j: int| 0 <= j < members@.len() && eligible(#[trigger] builder_views(members@)[j], t)),
        },
{
    let ghost ms = builder_views(members@);
    let mut found = false;
    let mut j: usize = 0;
    while j < members.len()
        invariant
            j <= members@.len(),
            ms == builder_views(members@),
            forall|k: int| 0 <= k < j ==> ((#[trigger] ms[k]).0 matches MemberBuilderView::Message(m) ==> m.class.type_index is Some),
            found == exists|k: int| 0 <= k < j && eligible(#[trigger] ms[k], t),
        decreases members@.len() - j,
    {
        assert(ms[j as int] == members@[j as int]@);
        let inner = members[j].inner();
        proof { lemma_member_builder_view(*inner); }
        let ghost was = found;
        if let ProtoMemberBuilderInner::Message(message) = inner {
            proof { lemma_builder_view_parts(*message); }
            match message.class.type_index {
                Some(x) => {
                    if x >= t {
                        found = true;
                    }
                },
                None => {
                    return None;
                },
            }
        }
        proof {
            if found && !was {
                assert(eligible(ms[j as int], t));
            }
            if !found {
                assert forall|k: int| 0 <= k < j + 1 implies !eligible(#[trigger] ms[k], t) by {
                    if k < j {
                        assert(!(exists|k2: int| 0 <= k2 < j && eligible(#[trigger] ms[k2], t)));
                    }
                }
            }
        }
        j = j + 1;
    }
    if !found {
        return None;
    }
    Some(unambiguous_messages(members, t))
}

/// The members gathered by name: each name with the members of that name,
/// in the order they came.
pub struct TopLevelMembers {
    entries: Vec<(String, Vec<ProtoMemberBuilder>)>,
}

/// The view of one name of a [`TopLevelMembers`].
pub open spec fn top_group_view(e: (String, Vec<ProtoMemberBuilder>)) -> (Seq<char>, Seq<(MemberBuilderView, Seq<char>)>) {
    (e.0@, builder_views(e.1@))
}

impl View for TopLevelMembers {
    type V = Seq<(Seq<char>, Seq<(MemberBuilderView, Seq<char>)>)>;

    closed spec fn view(&self) -> Seq<(Seq<char>, Seq<(MemberBuilderView, Seq<char>)>)> {
        self.entries@.map_values(|e: (String, Vec<ProtoMemberBuilder>)| top_group_view(e))
    }
}

/// The members of the name `k`.
pub open spec fn group_at(top: Seq<(Seq<char>, Seq<(MemberBuilderView, Seq<char>)>)>, k: Seq<char>) -> Seq<(MemberBuilderView, Seq<char>)> {
    top[index_of_key(top, k)].1
}

/// The message a member under construction is, if it is one.
pub open spec fn message_of(p: MemberBuilderView) -> MessageBuilderView {
    match p {
        MemberBuilderView::Message(m) => m,
        MemberBuilderView::Enum(_) => arbitrary(),
    }
}

/// Among the members named by the first name of `path`, there is a
/// message that declares a member of type index `t`.
pub open spec fn host_found(top: Seq<(Seq<char>, Seq<(MemberBuilderView, Seq<char>)>)>, path: Seq<Seq<char>>, t: u64) -> bool {
    let ms = group_at(top, path[0]);
    &&& messages_indexed(ms)
    &&& exists|j: int| 0 <= j < ms.len() && eligible(#[trigger] ms[j], t)
}

/// The message that declares a member of type index `t` whose path starts
/// with the first name of `path`.
pub open spec fn host(top: Seq<(Seq<char>, Seq<(MemberBuilderView, Seq<char>)>)>, path: Seq<Seq<char>>, t: u64) -> MessageBuilderView {
    let ms = group_at(top, path[0]);
    message_of(ms[unambiguous_index(ms, t)].0)
}

/// The members with that message replaced by `m`.
pub open spec fn with_host(
    top: Seq<(Seq<char>, Seq<(MemberBuilderView, Seq<char>)>)>,
    path: Seq<Seq<char>>,
    t: u64,
    m: MessageBuilderView,
) -> Seq<(Seq<char>, Seq<(MemberBuilderView, Seq<char>)>)> {
    let k = index_of_key(top, path[0]);
    let ms = top[k].1;
    let i = unambiguous_index(ms, t);
    top.update(k, (top[k].0, ms.update(i, (MemberBuilderView::Message(m), ms[i].1))))
}

impl TopLevelMembers {
    /// No member yet.
    pub fn new() -> (res: TopLevelMembers)
        ensures
            res@ == Seq::<(Seq<char>, Seq<(MemberBuilderView, Seq<char>)>)>::empty(),
    {
        let res = TopLevelMembers { entries: Vec::new() };
        assert(res@ =~= Seq::<(Seq<char>, Seq<(MemberBuilderView, Seq<char>)>)>::empty());
        res
    }

    fn find(&self, k: &str) -> (res: Option<usize>)
        requires
            keys_distinct(self@),
        ensures
            match res {
                Some(i) => i < self@.len() && self@[i as int].0 == k@ && index_of_key(self@, k@) == i,
                None => !has_key(self@, k@),
            },
    {
        let ghost v = self@;
        let mut i: usize = 0;
        while i < self.entries.len()
            invariant
                i <= self.entries@.len(),
                v == self@,
                keys_distinct(v),
                forall|j: int| 0 <= j < i ==> #[trigger] v[j].0 != k@,
            decreases self.entries@.len() - i,
        {
            assert(v[i as int] == top_group_view(self.entries@[i as int]));
            if str_eq(self.entries[i].0.as_str(), k) {
                proof {
                    let c = index_of_key(v, k@);
                    assert(0 <= i < v.len() && v[i as int].0 == k@);
                    assert(v[c].0 == k@);
                }
                return Some(i);
            }
            i = i + 1;
        }
        None
    }

    /// Adds `member`, declared in `namespace`, to the members of its name.
    pub fn insert_top(&mut self, member: ProtoMemberBuilderInner, namespace: String)
        requires
            keys_distinct(old(self)@),
        ensures
            keys_distinct(final(self)@),
            final(self)@ == group_push(old(self)@, crate::protobuf::builders::message::member_builder_name(member@), (member@, namespace@)),
    {
        let name = copy_string(member.name());
        let b = ProtoMemberBuilder::new(member, namespace);
        let ghost bv = b@;
        let ghost old_top = self@;
        match self.find(name.as_str()) {
            Some(i) => {
                let (key, mut group) = self.entries.remove(i);
                let ghost old_group = group@;
                group.push(b);
                self.entries.insert(i, (key, group));
                proof {
                    assert(builder_views(group@) =~= builder_views(old_group).push(bv));
                    assert(self@ =~= old_top.update(i as int, (name@, old_top[i as int].1.push(bv))));
                    assert(has_key(old_top, name@));
                }
            },
            None => {
                self.entries.push((name, vec![b]));
                proof {
                    assert(self.entries@.last().1@ =~= seq![b]);
                    assert(builder_views(seq![b]) =~= seq![bv]);
                    assert(self@ =~= old_top.push((name@, seq![bv])));
                }
            },
        }
    }

    fn host_position(&self, path: &TypePath, t: u64) -> (res: Option<(usize, usize)>)
        requires
            keys_distinct(self@),
            path@.len() > 0,
            has_key(self@, path@[0]) ==> host_found(self@, path@, t),
        ensures
            match res {
                Some((k, i)) => has_key(self@, path@[0]) && k == index_of_key(self@, path@[0]) && k < self@.len()
                    && i == unambiguous_index(group_at(self@, path@[0]), t) && i < group_at(self@, path@[0]).len()
                    && is_unambiguous(group_at(self@, path@[0]), t, i as int),
                None => !has_key(self@, path@[0]),
            },
    {
        match self.find(path.index(0).as_str()) {
            None => None,
            Some(k) => {
                assert(self@[k as int] == top_group_view(self.entries@[k as int]));
                let i = unambiguous_messages(&self.entries[k].1, t);
                proof {
                    let ms = group_at(self@, path@[0]);
                    lemma_unambiguous_unique(ms, t, i as int, unambiguous_index(ms, t));
                }
                Some((k, i))
            },
        }
    }

    /// Whether a member of type index `t` can be put at `path`: the first
    /// name of `path` names no member, or among the members it names there
    /// is a message that declares the member, and the other names lead
    /// through messages nested in it.
    pub fn can_place(&self, path: &TypePath, t: Option<u64>) -> (res: bool)
        requires
            keys_distinct(self@),
            path@.len() > 0,
        ensures
            res == (has_key(self@, path@[0]) ==> {
                &&& t is Some
                &&& host_found(self@, path@, t.unwrap())
                &&& can_insert(host(self@, path@, t.unwrap()), path@.skip(1))
            }),
    {
        match self.find(path.index(0).as_str()) {
            None => true,
            Some(k) => {
                let t = match t {
                    Some(t) => t,
                    None => return false,
                };
                assert(self@[k as int] == top_group_view(self.entries@[k as int]));
                let group = &self.entries[k].1;
                match find_host(group, t) {
                    None => false,
                    Some(i) => {
                        proof {
                            let ms = group_at(self@, path@[0]);
                            lemma_unambiguous_unique(ms, t, i as int, unambiguous_index(ms, t));
                        }
                        assert(builder_views(group@)[i as int] == group@[i as int]@);
                        let inner = group[i].inner();
                        proof { lemma_member_builder_view(*inner); }
                        let names = path.to_owned();
                        match inner {
                            ProtoMemberBuilderInner::Message(m) => m.can_insert_at(&names, 1),
                            ProtoMemberBuilderInner::Enum(_) => {
                                assert(false);
                                false
                            },
                        }
                    },
                }
            },
        }
    }

    /// Puts `member`, renamed by the last name of `path`, in the message
    /// that declares it: among the members named by the first name of
    /// `path`, the message declared the least after `member`, then down the
    /// other names. Returns whether the first name names any member; if
    /// not, nothing changes.
    pub fn insert_nested(&mut self, path: TypePath, member: ProtoMemberBuilderInner) -> (placed: bool)
        requires
            keys_distinct(old(self)@),
            path@.len() > 0,
            has_key(old(self)@, path@[0]) ==> {
                &&& member_type_index(member@) is Some
                &&& host_found(old(self)@, path@, member_type_index(member@).unwrap())
                &&& can_insert(host(old(self)@, path@, member_type_index(member@).unwrap()), path@.skip(1))
            },
        ensures
            keys_distinct(final(self)@),
            placed == has_key(old(self)@, path@[0]),
            placed ==> final(self)@ == with_host(
                old(self)@,
                path@,
                member_type_index(member@).unwrap(),
                inserted(host(old(self)@, path@, member_type_index(member@).unwrap()), path@.skip(1), member@),
            ),
            !placed ==> final(self)@ == old(self)@,
    {
        if !self.contains_first(&path) {
            return false;
        }
        let t = member.type_index();
        let (k, i) = match self.host_position(&path, t) {
            Some(p) => p,
            None => {
                assert(false);
                return false;
            },
        };
        let ghost old_top = self@;
        let ghost mv = member@;
        let (key, mut group) = self.entries.remove(k);
        assert(old_top[k as int] == top_group_view((key, group)));
        let ghost gv = builder_views(group@);
        let b = group.remove(i);
        assert(gv[i as int] == b@);
        assert(gv == group_at(old_top, path@[0]));
        assert(eligible(gv[i as int], t));
        let ProtoMemberBuilder { member: inner, namespace } = b;
        assert(inner@ == gv[i as int].0);
        let end = path.as_slice().len();
        let rest = path.index_range(1, end).to_owned();
        assert(rest@.map_values(|s: String| s@).skip(0) =~= path@.skip(1));
        proof { lemma_member_builder_view(inner); }
        let inner = match inner {
            ProtoMemberBuilderInner::Message(mut m) => {
                m.insert(&rest, member);
                ProtoMemberBuilderInner::Message(m)
            },
            ProtoMemberBuilderInner::Enum(e) => {
                assert(false);
                ProtoMemberBuilderInner::Enum(e)
            },
        };
        proof { lemma_member_builder_view(inner); }
        let nb = ProtoMemberBuilder { member: inner, namespace };
        let ghost nbv = nb@;
        group.insert(i, nb);
        assert(builder_views(group@) =~= gv.update(i as int, nbv));
        self.entries.insert(k, (key, group));
        proof {
            assert(self@ =~= old_top.update(k as int, (old_top[k as int].0, gv.update(i as int, nbv))));
            assert forall|a: int, c: int| 0 <= a < self@.len() && 0 <= c < self@.len() && a != c implies #[trigger] self@[a].0 != #[trigger] self@[c].0 by {
                assert(self@[a].0 == old_top[a].0);
                assert(self@[c].0 == old_top[c].0);
            }
        }
        true
    }

    /// Puts the oneof enum `member`, renamed by the last name of `path`, in
    /// the message that declares it, found as for [`Self::insert_nested`].
    /// Returns whether the first name names any member; if not, nothing
    /// changes.
    pub fn insert_nested_oneof(&mut self, path: TypePath, member: Enum) -> (placed: bool)
        requires
            keys_distinct(old(self)@),
            path@.len() > 0,
            has_key(old(self)@, path@[0]) ==> {
                &&& member@.type_index is Some
                &&& host_found(old(self)@, path@, member@.type_index.unwrap())
                &&& can_insert(host(old(self)@, path@, member@.type_index.unwrap()), path@.skip(1))
            },
        ensures
            keys_distinct(final(self)@),
            placed == has_key(old(self)@, path@[0]),
            placed ==> final(self)@ == with_host(
                old(self)@,
                path@,
                member@.type_index.unwrap(),
                oneof_inserted(host(old(self)@, path@, member@.type_index.unwrap()), path@.skip(1), member@),
            ),
            !placed ==> final(self)@ == old(self)@,
    {
        if !self.contains_first(&path) {
            return false;
        }
        let t = match member.type_index {
            Some(t) => t,
            None => {
                assert(false);
                return false;
            },
        };
        let (k, i) = match self.host_position(&path, t) {
            Some(p) => p,
            None => {
                assert(false);
                return false;
            },
        };
        let ghost old_top = self@;
        let ghost mv = member@;
        let (key, mut group) = self.entries.remove(k);
        assert(old_top[k as int] == top_group_view((key, group)));
        let ghost gv = builder_views(group@);
        let b = group.remove(i);
        assert(gv[i as int] == b@);
        assert(gv == group_at(old_top, path@[0]));
        assert(eligible(gv[i as int], t));
        let ProtoMemberBuilder { member: inner, namespace } = b;
        assert(inner@ == gv[i as int].0);
        let end = path.as_slice().len();
        let rest = path.index_range(1, end).to_owned();
        assert(rest@.map_values(|s: String| s@).skip(0) =~= path@.skip(1));
        proof { lemma_member_builder_view(inner); }
        let inner = match inner {
            ProtoMemberBuilderInner::Message(mut m) => {
                m.insert_oneof(&rest, member);
                ProtoMemberBuilderInner::Message(m)
            },
            ProtoMemberBuilderInner::Enum(e) => {
                assert(false);
                ProtoMemberBuilderInner::Enum(e)
            },
        };
        proof { lemma_member_builder_view(inner); }
        let nb = ProtoMemberBuilder { member: inner, namespace };
        let ghost nbv = nb@;
        group.insert(i, nb);
        assert(builder_views(group@) =~= gv.update(i as int, nbv));
        self.entries.insert(k, (key, group));
        proof {
            assert(self@ =~= old_top.update(k as int, (old_top[k as int].0, gv.update(i as int, nbv))));
            assert forall|a: int, c: int| 0 <= a < self@.len() && 0 <= c < self@.len() && a != c implies #[trigger] self@[a].0 != #[trigger] self@[c].0 by {
                assert(self@[a].0 == old_top[a].0);
                assert(self@[c].0 == old_top[c].0);
            }
        }
        true
    }

    fn contains_first(&self, path: &TypePath) -> (res: bool)
        requires
            keys_distinct(self@),
            path@.len() > 0,
        ensures
            res == has_key(self@, path@[0]),
    {
        match self.find(path.index(0).as_str()) {
            Some(_) => true,
            None => false,
        }
    }

    /// All members, name by name, each name's in the order they came.
    pub fn into_vec(self) -> (res: Vec<ProtoMemberBuilder>)
        ensures
            builder_views(res@) == groups_flat(self@),
    {
        let ghost v = self@;
        let ghost ents = self.entries@;
        let mut rest = reversed(self.entries);
        let mut res: Vec<ProtoMemberBuilder> = Vec::new();
        let ghost mut i: int = 0;
        assert(v.take(0) =~= Seq::<(Seq<char>, Seq<(MemberBuilderView, Seq<char>)>)>::empty());
        assert(ents.skip(0) =~= ents);
        while rest.len() > 0
            invariant
                0 <= i <= ents.len(),
                rest@ == ents.skip(i).reverse(),
                v == ents.map_values(|e: (String, Vec<ProtoMemberBuilder>)| top_group_view(e)),
                builder_views(res@) == groups_flat(v.take(i)),
            decreases rest@.len(),
        {
            assert(i < ents.len());
            proof { lemma_reversed_rest(ents, i); }
            let (_, mut group) = rest.pop().unwrap();
            let ghost gv = builder_views(group@);
            assert(gv == v[i].1);
            assert(v.take(i + 1).drop_last() =~= v.take(i));
            let ghost rv = res@;
            res.append(&mut group);
            proof {
                assert(builder_views(res@) =~= builder_views(rv) + gv);
                i = i + 1;
            }
        }
        assert(v.take(i) =~= v);
        res
    }
}

/// The members nested in others, each with its path, in buckets by the
/// length of the path: the first bucket holds paths of one name, the
/// next of two, and so on.
pub struct NestedMembers {
    buckets: Vec<Vec<(Vec<String>, ProtoMemberBuilderInner)>>,
}

/// A path and a member under construction, as plain values.
pub open spec fn nested_view(e: (Vec<String>, ProtoMemberBuilderInner)) -> (Seq<Seq<char>>, MemberBuilderView) {
    (e.0@.map_values(|s: String| s@), e.1@)
}

/// The views of a bucket.
pub open spec fn bucket_view(b: Vec<(Vec<String>, ProtoMemberBuilderInner)>) -> Seq<(Seq<Seq<char>>, MemberBuilderView)> {
    b@.map_values(|e: (Vec<String>, ProtoMemberBuilderInner)| nested_view(e))
}

impl View for NestedMembers {
    type V = Seq<Seq<(Seq<Seq<char>>, MemberBuilderView)>>;

    closed spec fn view(&self) -> Seq<Seq<(Seq<Seq<char>>, MemberBuilderView)>> {
        self.buckets@.map_values(|b: Vec<(Vec<String>, ProtoMemberBuilderInner)>| bucket_view(b))
    }
}

/// The buckets with `e` added to the bucket of its path's length, after
/// adding empty buckets up to that length.
pub open spec fn bucket_pushed(
    bs: Seq<Seq<(Seq<Seq<char>>, MemberBuilderView)>>,
    e: (Seq<Seq<char>>, MemberBuilderView),
) -> Seq<Seq<(Seq<Seq<char>>, MemberBuilderView)>> {
    let n = e.0.len();
    let grown = if n > bs.len() {
        bs + Seq::new((n - bs.len()) as nat, |i: int| Seq::<(Seq<Seq<char>>, MemberBuilderView)>::empty())
    } else {
        bs
    };
    grown.update(n - 1, grown[n - 1].push(e))
}

/// The entries of all buckets, bucket by bucket.
pub open spec fn buckets_flat<T>(bs: Seq<Seq<T>>) -> Seq<T>
    decreases bs.len(),
{
    if bs.len() == 0 {
        seq![]
    } else {
        buckets_flat(bs.drop_last()) + bs.last()
    }
}

impl NestedMembers {
    /// No nested member yet.
    pub fn new() -> (res: NestedMembers)
        ensures
            res@ == Seq::<Seq<(Seq<Seq<char>>, MemberBuilderView)>>::empty(),
    {
        let res = NestedMembers { buckets: Vec::new() };
        assert(res@ =~= Seq::<Seq<(Seq<Seq<char>>, MemberBuilderView)>>::empty());
        res
    }

    /// Adds `member` with its path to the bucket of the path's length.
    pub fn insert(&mut self, path: Vec<String>, member: ProtoMemberBuilderInner)
        requires
            path@.len() > 0,
        ensures
            final(self)@ == bucket_pushed(old(self)@, (path@.map_values(|s: String| s@), member@)),
    {
        let ghost ev = (path@.map_values(|s: String| s@), member@);
        let ghost old_bs = self@;
        let n = path.len();
        while self.buckets.len() < n
            invariant
                old_bs.len() <= self@.len(),
                self@.len() == old_bs.len() || self@.len() <= n,
                forall|i: int| 0 <= i < old_bs.len() ==> #[trigger] self@[i] == old_bs[i],
                forall|i: int| old_bs.len() <= i < self@.len() ==> #[trigger] self@[i] == Seq::<(Seq<Seq<char>>, MemberBuilderView)>::empty(),
                self@.len() == self.buckets@.len(),
            decreases n - self.buckets@.len(),
        {
            let ghost before = self@;
            self.buckets.push(Vec::new());
            proof {
                assert(bucket_view(self.buckets@.last()) =~= Seq::<(Seq<Seq<char>>, MemberBuilderView)>::empty());
                assert(self@ =~= before.push(Seq::<(Seq<Seq<char>>, MemberBuilderView)>::empty()));
            }
        }
        let ghost grown = self@;
        proof {
            let g = if n > old_bs.len() {
                old_bs + Seq::new((n - old_bs.len()) as nat, |i: int| Seq::<(Seq<Seq<char>>, MemberBuilderView)>::empty())
            } else {
                old_bs
            };
            assert(grown =~= g);
        }
        let mut bucket = self.buckets.remove(n - 1);
        assert(bucket_view(bucket) == grown[n - 1]);
        bucket.push((path, member));
        assert(bucket_view(bucket) =~= grown[n - 1].push(ev));
        self.buckets.insert(n - 1, bucket);
        assert(self@ =~= grown.update(n - 1, grown[n - 1].push(ev)));
    }

    /// All nested members with their paths: shorter paths first, and in
    /// the order they came among paths of one length.
    pub fn into_vec(self) -> (res: Vec<(Vec<String>, ProtoMemberBuilderInner)>)
        ensures
            res@.map_values(|e: (Vec<String>, ProtoMemberBuilderInner)| nested_view(e)) == buckets_flat(self@),
    {
        let ghost v = self@;
        let ghost bs = self.buckets@;
        let mut rest = reversed(self.buckets);
        let mut res: Vec<(Vec<String>, ProtoMemberBuilderInner)> = Vec::new();
        let ghost mut i: int = 0;
        assert(v.take(0) =~= Seq::<Seq<(Seq<Seq<char>>, MemberBuilderView)>>::empty());
        assert(bs.skip(0) =~= bs);
        while rest.len() > 0
            invariant
                0 <= i <= bs.len(),
                rest@ == bs.skip(i).reverse(),
                v == bs.map_values(|b: Vec<(Vec<String>, ProtoMemberBuilderInner)>| bucket_view(b)),
                res@.map_values(|e: (Vec<String>, ProtoMemberBuilderInner)| nested_view(e)) == buckets_flat(v.take(i)),
            decreases rest@.len(),
        {
            assert(i < bs.len());
            proof { lemma_reversed_rest(bs, i); }
            let mut bucket = rest.pop().unwrap();
            let ghost gv = bucket_view(bucket);
            assert(gv == v[i]);
            assert(v.take(i + 1).drop_last() =~= v.take(i));
            let ghost rv = res@;
            res.append(&mut bucket);
            proof {
                assert(res@.map_values(|e: (Vec<String>, ProtoMemberBuilderInner)| nested_view(e))
                    =~= rv.map_values(|e: (Vec<String>, ProtoMemberBuilderInner)| nested_view(e)) + gv);
                i = i + 1;
            }
        }
        assert(v.take(i) =~= v);
        res
    }
}

/// Every entry sits in the bucket of its path's length.
pub open spec fn buckets_by_length(bs: Seq<Seq<(Seq<Seq<char>>, MemberBuilderView)>>) -> bool {
    forall|i: int, j: int| 0 <= i < bs.len() && 0 <= j < bs[i].len() ==> (#[trigger] bs[i][j]).0.len() == i + 1
}

/// Adding an entry keeps every entry in the bucket of its path's length.
pub proof fn lemma_bucket_pushed_by_length(
    bs: Seq<Seq<(Seq<Seq<char>>, MemberBuilderView)>>,
    e: (Seq<Seq<char>>, MemberBuilderView),
)
    requires
        buckets_by_length(bs),
        e.0.len() > 0,
    ensures
        buckets_by_length(bucket_pushed(bs, e)),
{
    let n = e.0.len();
    let grown = if n > bs.len() {
        bs + Seq::new((n - bs.len()) as nat, |i: int| Seq::<(Seq<Seq<char>>, MemberBuilderView)>::empty())
    } else {
        bs
    };
    let r = bucket_pushed(bs, e);
    assert forall|i: int, j: int| 0 <= i < r.len() && 0 <= j < r[i].len() implies (#[trigger] r[i][j]).0.len() == i + 1 by {
        if i == n - 1 {
            if j < grown[i].len() {
                if i < bs.len() {
                    assert(grown[i] == bs[i]);
                    assert(r[i][j] == bs[i][j]);
                }
            } else {
                assert(r[i][j] == e);
            }
        } else {
            assert(r[i] == grown[i]);
            if i < bs.len() {
                assert(grown[i] == bs[i]);
            }
        }
    }
}

proof fn lemma_flat_lengths(bs: Seq<Seq<(Seq<Seq<char>>, MemberBuilderView)>>)
    requires
        buckets_by_length(bs),
    ensures
        forall|k: int| 0 <= k < buckets_flat(bs).len() ==> 1 <= (#[trigger] buckets_flat(bs)[k]).0.len() <= bs.len(),
        forall|a: int, b: int| 0 <= a < b < buckets_flat(bs).len()
            ==> (#[trigger] buckets_flat(bs)[a]).0.len() <= (#[trigger] buckets_flat(bs)[b]).0.len(),
    decreases bs.len(),
{
    if bs.len() > 0 {
        let init = bs.drop_last();
        assert(buckets_by_length(init)) by {
            assert forall|i: int, j: int| 0 <= i < init.len() && 0 <= j < init[i].len() implies (#[trigger] init[i][j]).0.len() == i + 1 by {
                assert(init[i] == bs[i]);
            }
        }
        lemma_flat_lengths(init);
        let f0 = buckets_flat(init);
        let f = buckets_flat(bs);
        assert(f == f0 + bs.last());
        assert forall|k: int| 0 <= k < f.len() implies 1 <= (#[trigger] f[k]).0.len() <= bs.len() by {
            if k < f0.len() {
                assert(f[k] == f0[k]);
            } else {
                assert(f[k] == bs[bs.len() - 1][k - f0.len()]);
            }
        }
        assert forall|a: int, b: int| 0 <= a < b < f.len() implies (#[trigger] f[a]).0.len() <= (#[trigger] f[b]).0.len() by {
            if b < f0.len() {
                assert(f[a] == f0[a]);
                assert(f[b] == f0[b]);
            } else if a < f0.len() {
                assert(f[a] == f0[a]);
                assert(f[b] == bs[bs.len() - 1][b - f0.len()]);
            } else {
                assert(f[a] == bs[bs.len() - 1][a - f0.len()]);
                assert(f[b] == bs[bs.len() - 1][b - f0.len()]);
            }
        }
    }
}

/// Taken out of the buckets, nested members come shorter paths first, so
/// the message a member is nested in is placed before the member.
pub proof fn lemma_shorter_paths_first(bs: Seq<Seq<(Seq<Seq<char>>, MemberBuilderView)>>)
    requires
        buckets_by_length(bs),
    ensures
        forall|a: int, b: int| 0 <= a < b < buckets_flat(bs).len()
            ==> (#[trigger] buckets_flat(bs)[a]).0.len() <= (#[trigger] buckets_flat(bs)[b]).0.len(),
{
    lemma_flat_lengths(bs);
}

} // verus!
