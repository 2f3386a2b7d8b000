//! Protobuf messages, the members of packages and the resolution of type references.

pub mod field;

use vstd::prelude::*;

use core::marker::PhantomData;

use crate::protobuf::message::field::{Field, FieldView};
use crate::protobuf::proto_enum::{ProtoEnum, ProtoEnumView};
use crate::text::str_eq;

verus! {

/// Marks messages whose type references are not resolved yet.
pub struct Unresolved;

/// Marks messages whose type references are resolved.
pub struct Resolved;

/// A protobuf message: its name, fields and nested members.
pub struct ProtoMessage<State> {
    pub name: String,
    fields: Vec<Field>,
    inner_members: Vec<PackageMember<State>>,
    _marker: PhantomData<State>,
}

/// A member of a package, or of a message: an enum or a message.
pub enum PackageMember<State> {
    Enum(ProtoEnum),
    Message(ProtoMessage<State>),
}

/// A message whose type references are not resolved yet.
pub type MessageUnresolve = ProtoMessage<Unresolved>;

/// A message whose type references are resolved.
pub type MessageResolved = ProtoMessage<Resolved>;

/// The mathematical value of a [`ProtoMessage`].
pub struct MessageView {
    pub name: Seq<char>,
    pub fields: Seq<FieldView>,
    pub inner: Seq<MemberView>,
}

/// The mathematical value of a [`PackageMember`].
pub enum MemberView {
    Enum(ProtoEnumView),
    Message(MessageView),
}

/// The mathematical value of a message.
pub closed spec fn message_view<S>(m: ProtoMessage<S>) -> MessageView
    decreases m,
{
    MessageView {
        name: m.name@,
        fields: m.fields@.map_values(|f: Field| f@),
        inner: Seq::new(
            m.inner_members@.len(),
            |i: int|
                if 0 <= i < m.inner_members@.len() {
                    member_view(m.inner_members@[i])
                } else {
                    MemberView::Enum(ProtoEnumView { name: seq![], variants: seq![] })
                },
        ),
    }
}

/// The mathematical value of a package member.
pub closed spec fn member_view<S>(p: PackageMember<S>) -> MemberView
    decreases p,
{
    match p {
        PackageMember::Enum(e) => MemberView::Enum(e@),
        PackageMember::Message(m) => MemberView::Message(message_view(m)),
    }
}

impl<S> View for ProtoMessage<S> {
    type V = MessageView;

    open spec fn view(&self) -> MessageView {
        message_view(*self)
    }
}

impl<S> View for PackageMember<S> {
    type V = MemberView;

    open spec fn view(&self) -> MemberView {
        member_view(*self)
    }
}

/// The views of a sequence of members.
pub open spec fn member_views<S>(s: Seq<PackageMember<S>>) -> Seq<MemberView> {
    s.map_values(|p: PackageMember<S>| p@)
}

/// The name of a member.
pub open spec fn member_name(p: MemberView) -> Seq<char> {
    match p {
        MemberView::Enum(e) => e.name,
        MemberView::Message(m) => m.name,
    }
}

/// The message or a member nested in it has the path `path`: the message
/// has the first name, and what is nested in it has the rest.
pub open spec fn message_contains(m: MessageView, path: Seq<Seq<char>>) -> bool
    decreases path.len(), 0int,
{
    if path.len() == 0 {
        false
    } else if path.len() == 1 {
        m.name == path[0]
    } else if m.name == path[0] {
        exists|i: int| 0 <= i < m.inner.len() && member_contains(#[trigger] m.inner[i], path.drop_first())
    } else {
        false
    }
}

/// The member, or a member nested in it, has the path `path`.
pub open spec fn member_contains(p: MemberView, path: Seq<Seq<char>>) -> bool
    decreases path.len(), 1int,
{
    match p {
        MemberView::Enum(e) => path.len() == 1 && e.name == path[0],
        MemberView::Message(m) => message_contains(m, path),
    }
}

/// The view of a member is the view of the enum or message it is.
pub proof fn lemma_member_view<S>(p: PackageMember<S>)
    ensures
        p@ == match p {
            PackageMember::Enum(e) => MemberView::Enum(e@),
            PackageMember::Message(m) => MemberView::Message(m@),
        },
{
}

proof fn lemma_message_view_parts<S>(m: ProtoMessage<S>)
    ensures
        message_view(m).name == m.name@,
        message_view(m).fields == m.fields@.map_values(|f: Field| f@),
        message_view(m).inner == member_views(m.inner_members@),
{
    assert(message_view(m).inner =~= member_views(m.inner_members@));
}

impl<S> ProtoMessage<S> {
    /// The message named `name` with these fields and nested members.
    pub fn new(name: String, fields: Vec<Field>, inner_members: Vec<PackageMember<S>>) -> (res: ProtoMessage<S>)
        ensures
            res@ == (MessageView {
                name: name@,
                fields: fields@.map_values(|f: Field| f@),
                inner: member_views(inner_members@),
            }),
    {
        let res = ProtoMessage { name, fields, inner_members, _marker: PhantomData };
        proof { lemma_message_view_parts(res); }
        res
    }

    /// The name of the message.
    pub fn name(&self) -> (res: &String)
        ensures
            res@ == self@.name,
    {
        proof { lemma_message_view_parts(*self); }
        &self.name
    }

    /// The fields of the message.
    pub fn fields(&self) -> (res: &Vec<Field>)
        ensures
            res@.map_values(|f: Field| f@) == self@.fields,
    {
        proof { lemma_message_view_parts(*self); }
        &self.fields
    }

    /// The members nested in the message.
    pub fn inner_members(&self) -> (res: &Vec<PackageMember<S>>)
        ensures
            member_views(res@) == self@.inner,
    {
        proof { lemma_message_view_parts(*self); }
        &self.inner_members
    }

    /// The message or a member nested in it has the path `path`.
    pub fn contains(&self, path: &Vec<String>) -> (res: bool)
        requires
            path@.len() > 0,
        ensures
            res == message_contains(self@, path@.map_values(|s: String| s@)),
    {
        assert(path@.map_values(|s: String| s@).skip(0) =~= path@.map_values(|s: String| s@));
        self.contains_from(path, 0)
    }

    fn contains_from(&self, path: &Vec<String>, start: usize) -> (res: bool)
        requires
            start < path@.len(),
        ensures
            res == message_contains(self@, path@.map_values(|s: String| s@).skip(start as int)),
        decreases path@.len() - start, 0int,
    {
        let ghost p = path@.map_values(|s: String| s@).skip(start as int);
        proof { lemma_message_view_parts(*self); }
        assert(p[0] == path@[start as int]@);
        let n = path.len();
        if start == n - 1 {
            str_eq(self.name.as_str(), path[start].as_str())
        } else if str_eq(self.name.as_str(), path[start].as_str()) {
            assert(p.drop_first() =~= path@.map_values(|s: String| s@).skip(start + 1));
            let mut i: usize = 0;
            while i < self.inner_members.len()
                invariant
                    i <= self.inner_members@.len(),
                    start + 1 < path@.len(),
                    path@.len() <= usize::MAX,
                    p.len() >= 2,
                    self@.name == p[0],
                    p == path@.map_values(|s: String| s@).skip(start as int),
                    p.drop_first() == path@.map_values(|s: String| s@).skip(start + 1),
                    self@.inner == member_views(self.inner_members@),
                    forall|j: int| 0 <= j < i ==> !member_contains(#[trigger] self@.inner[j], p.drop_first()),
                decreases self.inner_members@.len() - i,
            {
                if self.inner_members[i].contains_from(path, start + 1) {
                    assert(member_contains(self@.inner[i as int], p.drop_first()));
                    return true;
                }
                i = i + 1;
            }
            false
        } else {
            false
        }
    }
}

impl<S> PackageMember<S> {
    /// The name of the member.
    pub fn name(&self) -> (res: &String)
        ensures
            res@ == member_name(self@),
    {
        proof { lemma_member_view(*self); }
        match self {
            PackageMember::Enum(e) => e.name(),
            PackageMember::Message(m) => m.name(),
        }
    }

    /// The member that is the enum `e`.
    pub fn from_enum(e: ProtoEnum) -> (res: PackageMember<S>)
        ensures
            res@ == MemberView::Enum(e@),
    {
        PackageMember::Enum(e)
    }

    /// The member that is the message `m`.
    pub fn from_message(m: ProtoMessage<S>) -> (res: PackageMember<S>)
        ensures
            res@ == MemberView::Message(m@),
    {
        PackageMember::Message(m)
    }

    /// The member, or a member nested in it, has the path `path`. An enum
    /// has only the path of its own name; a message needs a path with at
    /// least one name.
    pub fn contains(&self, path: &Vec<String>) -> (res: bool)
        requires
            path@.len() > 0 || self@ is Enum,
        ensures
            res == member_contains(self@, path@.map_values(|s: String| s@)),
            self@ is Enum ==> (res <==> path@.len() == 1 && member_name(self@) == path@[0]@),
    {
        proof { lemma_member_view(*self); }
        if path.len() == 0 {
            return false;
        }
        assert(path@.map_values(|s: String| s@).skip(0) =~= path@.map_values(|s: String| s@));
        self.contains_from(path, 0)
    }

    fn contains_from(&self, path: &Vec<String>, start: usize) -> (res: bool)
        requires
            start < path@.len(),
        ensures
            res == member_contains(self@, path@.map_values(|s: String| s@).skip(start as int)),
        decreases path@.len() - start, 1int,
    {
        match self {
            PackageMember::Enum(e) => start == path.len() - 1 && str_eq(e.name().as_str(), path[start].as_str()),
            PackageMember::Message(m) => m.contains_from(path, start),
        }
    }
}

} // verus!
