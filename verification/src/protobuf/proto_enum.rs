//! Protobuf enums made from C# enums.

use vstd::prelude::*;

use crate::parser::common::{literal_u32, Attribute};
use crate::parser::data_structs::{attribute_texts, Enum, EnumMemberView, EnumView};
use crate::text::{copy_string, has_prefix, starts_with, str_eq, substring};

verus! {

/// A protobuf enum: its name and its variants with their numbers.
pub struct ProtoEnum {
    pub name: String,
    variants: Vec<(String, u32)>,
}

/// The mathematical value of a [`ProtoEnum`].
pub struct ProtoEnumView {
    pub name: Seq<char>,
    pub variants: Seq<(Seq<char>, u32)>,
}

impl View for ProtoEnum {
    type V = ProtoEnumView;

    closed spec fn view(&self) -> ProtoEnumView {
        ProtoEnumView {
            name: self.name@,
            variants: self.variants@.map_values(|v: (String, u32)| (v.0@, v.1)),
        }
    }
}

/// `s` starts an `[OriginalName("...")]` attribute.
pub open spec fn is_original_name(s: Seq<char>) -> bool {
    has_prefix(s, "[OriginalName"@)
}

/// The name an `[OriginalName("...")]` attribute gives: its text without
/// the first 15 and the last 3 characters.
pub open spec fn original_name_text(s: Seq<char>) -> Seq<char> {
    s.subrange(15, s.len() - 3)
}

/// The name the first `[OriginalName(...)]` attribute gives, if any.
pub open spec fn original_name_of(attrs: Seq<Seq<char>>) -> Option<Seq<char>>
    decreases attrs.len(),
{
    if attrs.len() == 0 {
        None
    } else if is_original_name(attrs[0]) {
        Some(original_name_text(attrs[0]))
    } else {
        original_name_of(attrs.drop_first())
    }
}

/// A character that UTF-8 writes in one byte.
pub open spec fn is_ascii_char(c: char) -> bool {
    (c as u32) < 128
}

/// The attribute is long enough, and ASCII where it is cut, for the name
/// to be cut out of it.
pub open spec fn original_name_cuttable(s: Seq<char>) -> bool {
    &&& s.len() >= 18
    &&& forall|i: int| 0 <= i < 15 ==> is_ascii_char(#[trigger] s[i])
    &&& forall|i: int| s.len() - 3 <= i < s.len() ==> is_ascii_char(#[trigger] s[i])
}

/// The first `[OriginalName(...)]` attribute, if any, can be cut.
pub open spec fn original_name_ok(attrs: Seq<Seq<char>>) -> bool
    decreases attrs.len(),
{
    if attrs.len() == 0 {
        true
    } else if is_original_name(attrs[0]) {
        original_name_cuttable(attrs[0])
    } else {
        original_name_ok(attrs.drop_first())
    }
}

/// The name can be cut out of the attribute text `s`.
fn cuttable(s: &str) -> (res: bool)
    ensures
        res == original_name_cuttable(s@),
{
    let cs = crate::text::chars_of(s);
    let n = cs.len();
    if n < 18 {
        return false;
    }
    let mut i: usize = 0;
    while i < n
        invariant
            n == cs@.len(),
            cs@ == s@,
            n >= 18,
            i <= n,
            forall|k: int| 0 <= k < i && (k < 15 || k >= n - 3) ==> is_ascii_char(#[trigger] s@[k]),
        decreases n - i,
    {
        if (i < 15 || i >= n - 3) && (cs[i] as u32) >= 128 {
            assert(!is_ascii_char(s@[i as int]));
            return false;
        }
        i = i + 1;
    }
    assert forall|k: int| 0 <= k < 15 implies is_ascii_char(#[trigger] s@[k]) by {}
    assert forall|k: int| s@.len() - 3 <= k < s@.len() implies is_ascii_char(#[trigger] s@[k]) by {}
    true
}

/// The first `[OriginalName(...)]` attribute, if any, can be cut.
pub fn original_name_fits(attrs: &Vec<Attribute>) -> (res: bool)
    ensures
        res == original_name_ok(attribute_texts(attrs@)),
{
    let ghost texts = attribute_texts(attrs@);
    assert(texts.skip(0) =~= texts);
    let mut i: usize = 0;
    while i < attrs.len()
        invariant
            i <= attrs@.len(),
            texts == attribute_texts(attrs@),
            texts.len() == attrs@.len(),
            original_name_ok(texts) == original_name_ok(texts.skip(i as int)),
        decreases attrs@.len() - i,
    {
        let attr = &attrs[i].0;
        assert(texts.skip(i as int)[0] == attr@);
        assert(texts.skip(i as int).drop_first() =~= texts.skip(i + 1));
        if starts_with(attr.as_str(), "[OriginalName") {
            return cuttable(attr.as_str());
        }
        i = i + 1;
    }
    assert(texts.skip(i as int) =~= Seq::<Seq<char>>::empty());
    true
}

/// Every member but `value__` has a `u32` value and a cuttable original
/// name: the enum can be turned into a protobuf enum.
pub fn members_ok(e: &Enum) -> (res: bool)
    ensures
        res == enum_members_ok(e@.members),
{
    let ghost ms = e@.members;
    let mut i: usize = 0;
    while i < e.members.len()
        invariant
            i <= e.members@.len(),
            ms == e@.members,
            ms.len() == e.members@.len(),
            forall|k: int| 0 <= k < i && #[trigger] ms[k].field.name != "value__"@ ==> {
                &&& ms[k].field.assign_value matches Some(l)
                &&& literal_u32(l) is Some
                &&& original_name_ok(ms[k].attributes)
            },
        decreases e.members@.len() - i,
    {
        let m = &e.members[i];
        assert(ms[i as int] == m@);
        if !str_eq(m.field.name.as_str(), "value__") {
            let fits = match &m.field.assign_value {
                Some(l) => l.u32().is_some(),
                None => false,
            };
            if !fits || !original_name_fits(&m.attributes) {
                assert(ms[i as int].field.name != "value__"@);
                return false;
            }
        }
        i = i + 1;
    }
    true
}

/// The name the first `[OriginalName(...)]` attribute gives, if any.
pub fn original_name(attrs: &Vec<Attribute>) -> (res: Option<String>)
    requires
        original_name_ok(attribute_texts(attrs@)),
    ensures
        match res {
            Some(s) => original_name_of(attribute_texts(attrs@)) == Some(s@),
            None => original_name_of(attribute_texts(attrs@)) is None,
        },
{
    let ghost texts = attribute_texts(attrs@);
    assert(texts.skip(0) =~= texts);
    let mut i: usize = 0;
    while i < attrs.len()
        invariant
            i <= attrs@.len(),
            texts == attribute_texts(attrs@),
            texts.len() == attrs@.len(),
            original_name_of(texts) == original_name_of(texts.skip(i as int)),
            original_name_ok(texts.skip(i as int)),
        decreases attrs@.len() - i,
    {
        let attr = &attrs[i].0;
        assert(texts.skip(i as int)[0] == attr@);
        assert(texts.skip(i as int).drop_first() =~= texts.skip(i + 1));
        if starts_with(attr.as_str(), "[OriginalName") {
            let n = crate::text::chars_of(attr.as_str()).len();
            assert(original_name_cuttable(attr@));
            return Some(substring(attr.as_str(), 15, n - 3));
        }
        i = i + 1;
    }
    assert(texts.skip(i as int) =~= Seq::<Seq<char>>::empty());
    None
}

/// The variants of a protobuf enum made of the members of a C# enum:
/// each member but `value__`, named by its original name when it has one,
/// numbered by its value.
pub open spec fn enum_variants(members: Seq<EnumMemberView>) -> Seq<(Seq<char>, u32)>
    decreases members.len(),
{
    if members.len() == 0 {
        seq![]
    } else {
        let rest = enum_variants(members.drop_last());
        let m = members.last();
        if m.field.name == "value__"@ {
            rest
        } else {
            let name = match original_name_of(m.attributes) {
                Some(n) => n,
                None => m.field.name,
            };
            let number = match m.field.assign_value {
                Some(l) => match literal_u32(l) {
                    Some(n) => n,
                    None => 0,
                },
                None => 0,
            };
            rest.push((name, number))
        }
    }
}

/// Every member but `value__` has a `u32` value and a cuttable original name.
pub open spec fn enum_members_ok(members: Seq<EnumMemberView>) -> bool {
    forall|i: int| 0 <= i < members.len() && #[trigger] members[i].field.name != "value__"@ ==> {
        &&& members[i].field.assign_value matches Some(l)
        &&& literal_u32(l) is Some
        &&& original_name_ok(members[i].attributes)
    }
}

/// The variant a member of a C# enum gives: its original name when it has
/// one, else its own name, and the number assigned to it.
pub open spec fn member_variant(m: EnumMemberView) -> (Seq<char>, u32) {
    let name = match original_name_of(m.attributes) {
        Some(n) => n,
        None => m.field.name,
    };
    (name, literal_u32(m.field.assign_value.unwrap()).unwrap())
}

/// The variant a member gives, if any: none for `value__`.
pub open spec fn member_entry(m: EnumMemberView) -> Option<(Seq<char>, u32)> {
    if m.field.name == "value__"@ {
        None
    } else {
        Some(member_variant(m))
    }
}

/// Each variant of the protobuf enum carries the number assigned to its C#
/// member, the member's literal value, whatever its position: the variants
/// are the members but `value__`, in their order, each with its own name
/// (or original name) and number; so every such member has its variant.
pub proof fn lemma_variants_keep_member_numbers(ms: Seq<EnumMemberView>)
    requires
        enum_members_ok(ms),
    ensures
        enum_variants(ms) == ms.filter_map(|m: EnumMemberView| member_entry(m)),
        forall|i: int| 0 <= i < ms.len() && #[trigger] ms[i].field.name != "value__"@ ==>
            exists|j: int| 0 <= j < enum_variants(ms).len() && enum_variants(ms)[j] == member_variant(ms[i]),
    decreases ms.len(),
{
    if ms.len() > 0 {
        let init = ms.drop_last();
        assert forall|i: int| 0 <= i < init.len() && #[trigger] init[i].field.name != "value__"@ implies {
            &&& init[i].field.assign_value matches Some(l)
            &&& literal_u32(l) is Some
            &&& original_name_ok(init[i].attributes)
        } by {
            assert(init[i] == ms[i]);
        }
        lemma_variants_keep_member_numbers(init);
        let rest = enum_variants(init);
        let vs = enum_variants(ms);
        let m = ms.last();
        let k = ms.len() - 1;
        assert(ms[k] == m);
        if m.field.name == "value__"@ {
            assert(vs == rest);
        } else {
            assert(ms[k].field.name != "value__"@);
            assert(vs == rest.push(member_variant(m)));
            assert(rest.push(member_variant(m)) =~= rest + seq![member_variant(m)]);
        }
        assert forall|i: int| 0 <= i < ms.len() && #[trigger] ms[i].field.name != "value__"@ implies
            exists|j: int| 0 <= j < vs.len() && vs[j] == member_variant(ms[i]) by {
            if i < init.len() {
                assert(init[i] == ms[i]);
                assert(init[i].field.name != "value__"@);
                let j = choose|j: int| 0 <= j < rest.len() && rest[j] == member_variant(init[i]);
                assert(vs[j] == rest[j]);
            } else {
                assert(vs[rest.len() as int] == member_variant(m));
            }
        }
    }
}

impl ProtoEnum {
    /// The protobuf enum made of a C# enum.
    pub fn from(value: Enum) -> (res: ProtoEnum)
        requires
            enum_members_ok(value@.members),
        ensures
            res@ == (ProtoEnumView { name: value@.name, variants: enum_variants(value@.members) }),
    {
        let ghost members = value@.members;
        let mut variants: Vec<(String, u32)> = Vec::new();
        let mut i: usize = 0;
        while i < value.members.len()
            invariant
                i <= value.members@.len(),
                members == value@.members,
                members.len() == value.members@.len(),
                enum_members_ok(members),
                variants@.map_values(|v: (String, u32)| (v.0@, v.1)) == enum_variants(members.take(i as int)),
            decreases value.members@.len() - i,
        {
            let member = &value.members[i];
            assert(members[i as int] == member@);
            assert(members.take(i + 1).drop_last() =~= members.take(i as int));
            assert(members.take(i + 1).last() == member@);
            if !str_eq(member.field.name.as_str(), "value__") {
                assert(members[i as int].field.name != "value__"@);
                let name = match original_name(&member.attributes) {
                    Some(s) => s,
                    None => copy_string(&member.field.name),
                };
                let number = match &member.field.assign_value {
                    Some(l) => match l.u32() {
                        Some(n) => n,
                        None => {
                            proof { assert(false); }
                            0
                        },
                    },
                    None => {
                        proof { assert(false); }
                        0
                    },
                };
                variants.push((name, number));
            }
            i = i + 1;
            assert(variants@.map_values(|v: (String, u32)| (v.0@, v.1)) =~= enum_variants(members.take(i as int)));
        }
        assert(members.take(members.len() as int) =~= members);
        let res = ProtoEnum { name: value.name, variants };
        res
    }

    /// The name of the enum.
    pub fn name(&self) -> (res: &String)
        ensures
            res@ == self@.name,
    {
        &self.name
    }

    /// The variants with their numbers.
    pub fn variants(&self) -> (res: &Vec<(String, u32)>)
        ensures
            res@.map_values(|v: (String, u32)| (v.0@, v.1)) == self@.variants,
    {
        &self.variants
    }

    /// A copy of the enum.
    pub fn duplicate(&self) -> (res: ProtoEnum)
        ensures
            res@ == self@,
    {
        let mut variants: Vec<(String, u32)> = Vec::new();
        let mut i: usize = 0;
        while i < self.variants.len()
            invariant
                i <= self.variants@.len(),
                variants@.len() == i,
                forall|j: int| 0 <= j < i ==> #[trigger] variants@[j].0@ == self.variants@[j].0@
                    && variants@[j].1 == self.variants@[j].1,
            decreases self.variants@.len() - i,
        {
            let (n, x) = &self.variants[i];
            variants.push((copy_string(n), *x));
            i = i + 1;
        }
        let res = ProtoEnum { name: copy_string(&self.name), variants };
        assert(res@.variants =~= self@.variants);
        res
    }
}

} // verus!
