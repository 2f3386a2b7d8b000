//! The text of the `.proto` files: fields, enums, messages and packages,
//! indented by tabs.

use vstd::prelude::*;

use crate::protobuf::message::field::{
    type_text, Field, FieldView, MapField, MapFieldView, NormalField, NormalFieldView,
};
use crate::protobuf::message::{lemma_member_view, member_views, MemberView, MessageView, PackageMember, ProtoMessage, Resolved};
use crate::protobuf::proto_enum::{ProtoEnum, ProtoEnumView};
use crate::text::{decimal, push_char, push_decimal, push_str};

verus! {

/// Writing a value as `.proto` text, indented by a number of tabs.
pub trait DisplayWithTabs {
    /// The text of the value, indented by `tabs_count` tabs.
    fn display_with_tabs(&self, tabs_count: usize) -> String;
}

/// `n` tabs.
pub open spec fn tabs(n: nat) -> Seq<char> {
    Seq::new(n, |i: int| '\t')
}

/// Appends `n` tabs.
pub fn push_tabs(out: &mut String, n: usize)
    ensures
        final(out)@ == old(out)@ + tabs(n as nat),
{
    let mut i: usize = 0;
    while i < n
        invariant
            i <= n,
            out@ == old(out)@ + tabs(i as nat),
        decreases n - i,
    {
        push_char(out, '\t');
        i = i + 1;
        assert(out@ =~= old(out)@ + tabs(i as nat));
    }
}

/// The text of a field: its type, name and number.
pub open spec fn normal_text(f: NormalFieldView) -> Seq<char> {
    type_text(f.ty) + " "@ + f.name + " = "@ + decimal(f.number as nat) + ";"@
}

/// The text of a map field: its key and value types, name and number.
pub open spec fn map_text(m: MapFieldView) -> Seq<char> {
    "map<"@ + type_text(m.key_ty) + ", "@ + type_text(m.val_ty) + "> "@ + m.name + " = "@ + decimal(m.number as nat) + ";"@
}

/// The lines of the fields of a oneof, one tab deeper than `n`.
pub open spec fn oneof_lines(fs: Seq<NormalFieldView>, n: nat) -> Seq<char>
    decreases fs.len(),
{
    if fs.len() == 0 {
        seq![]
    } else {
        oneof_lines(fs.drop_last(), n) + tabs(n) + "\t"@ + normal_text(fs.last()) + "\n"@
    }
}

/// The text of a field of a message, indented by `n` tabs, without a
/// final line break.
pub open spec fn field_text(f: FieldView, n: nat) -> Seq<char> {
    match f {
        FieldView::Normal(x) => tabs(n) + normal_text(x),
        FieldView::OneOf(name, fs) => tabs(n) + "oneof "@ + name + " {\n"@ + oneof_lines(fs, n) + tabs(n) + "}"@,
        FieldView::Repeated(x) => tabs(n) + "repeated "@ + normal_text(x),
        FieldView::Optional(x) => tabs(n) + "optional "@ + normal_text(x),
        FieldView::Mapped(m) => tabs(n) + map_text(m),
    }
}

/// The text of a map field writes its key type first and its value type
/// second: for key type `K` and value type `V` it begins, after its tabs,
/// with `map<K, V> `, and goes on with its name, ` = `, its number and `;`.
pub proof fn lemma_map_field_key_then_value(m: MapFieldView, n: nat)
    ensures
        (tabs(n) + "map<"@ + type_text(m.key_ty) + ", "@ + type_text(m.val_ty) + "> "@).is_prefix_of(
            field_text(FieldView::Mapped(m), n),
        ),
        field_text(FieldView::Mapped(m), n) == tabs(n) + "map<"@ + type_text(m.key_ty) + ", "@ + type_text(m.val_ty)
            + "> "@ + m.name + " = "@ + decimal(m.number as nat) + ";"@,
{
    let head = tabs(n) + "map<"@ + type_text(m.key_ty) + ", "@ + type_text(m.val_ty) + "> "@;
    let tail = m.name + " = "@ + decimal(m.number as nat) + ";"@;
    assert(field_text(FieldView::Mapped(m), n) =~= head + tail);
    assert(head + tail =~= tabs(n) + "map<"@ + type_text(m.key_ty) + ", "@ + type_text(m.val_ty)
        + "> "@ + m.name + " = "@ + decimal(m.number as nat) + ";"@);
    assert((head + tail).subrange(0, head.len() as int) =~= head);
}

/// A repeated field is written with the label `repeated`, an optional one
/// with the label `optional`, a plain one with none: after the tabs come
/// the label, then the type, name and number of the field.
pub proof fn lemma_field_labels(x: NormalFieldView, n: nat)
    ensures
        field_text(FieldView::Repeated(x), n) == tabs(n) + "repeated "@ + type_text(x.ty) + " "@ + x.name + " = "@
            + decimal(x.number as nat) + ";"@,
        field_text(FieldView::Optional(x), n) == tabs(n) + "optional "@ + type_text(x.ty) + " "@ + x.name + " = "@
            + decimal(x.number as nat) + ";"@,
        field_text(FieldView::Normal(x), n) == tabs(n) + type_text(x.ty) + " "@ + x.name + " = "@
            + decimal(x.number as nat) + ";"@,
{
    assert(field_text(FieldView::Repeated(x), n) =~= tabs(n) + "repeated "@ + type_text(x.ty) + " "@ + x.name + " = "@
        + decimal(x.number as nat) + ";"@);
    assert(field_text(FieldView::Optional(x), n) =~= tabs(n) + "optional "@ + type_text(x.ty) + " "@ + x.name + " = "@
        + decimal(x.number as nat) + ";"@);
    assert(field_text(FieldView::Normal(x), n) =~= tabs(n) + type_text(x.ty) + " "@ + x.name + " = "@
        + decimal(x.number as nat) + ";"@);
}

/// The lines of the variants of an enum, one tab deeper than `n`.
pub open spec fn variant_lines(vs: Seq<(Seq<char>, u32)>, n: nat) -> Seq<char>
    decreases vs.len(),
{
    if vs.len() == 0 {
        seq![]
    } else {
        variant_lines(vs.drop_last(), n) + tabs(n) + "\t"@ + vs.last().0 + " = "@ + decimal(vs.last().1 as nat) + ";\n"@
    }
}

/// The text of an enum, indented by `n` tabs.
pub open spec fn enum_text(e: ProtoEnumView, n: nat) -> Seq<char> {
    tabs(n) + "enum "@ + e.name + " {\n"@ + variant_lines(e.variants, n) + tabs(n) + "}\n"@
}

/// The lines of the fields of a message, each followed by a line break.
pub open spec fn field_lines(fs: Seq<FieldView>, n: nat) -> Seq<char>
    decreases fs.len(),
{
    if fs.len() == 0 {
        seq![]
    } else {
        field_lines(fs.drop_last(), n) + field_text(fs.last(), n) + "\n"@
    }
}

/// The text of a message, indented by `n` tabs: its fields, then its
/// nested members, each after an empty line.
pub open spec fn message_text(m: MessageView, n: nat) -> Seq<char>
    decreases m, 1int,
{
    tabs(n) + "message "@ + m.name + " {\n"@ + field_lines(m.fields, n + 1) + members_text(m.inner, n + 1) + tabs(n) + "}\n"@
}

/// The texts of nested members, each after an empty line.
pub open spec fn members_text(ms: Seq<MemberView>, n: nat) -> Seq<char>
    decreases ms, 0int,
{
    if ms.len() == 0 {
        seq![]
    } else {
        members_text(ms.subrange(0, ms.len() - 1), n) + "\n"@ + member_text(ms[ms.len() - 1], n)
    }
}

/// The text of a member, indented by `n` tabs.
pub open spec fn member_text(p: MemberView, n: nat) -> Seq<char>
    decreases p, 2int,
{
    match p {
        MemberView::Enum(e) => enum_text(e, n),
        MemberView::Message(m) => message_text(m, n),
    }
}

/// `indent` is made of tabs only.
pub open spec fn is_indent(indent: Seq<char>) -> bool {
    indent == tabs(indent.len())
}

/// The indentation one tab deeper.
fn deeper(indent: &String) -> (res: String)
    requires
        is_indent(indent@),
    ensures
        is_indent(res@),
        res@.len() == indent@.len() + 1,
{
    let mut res = crate::text::copy_string(indent);
    push_char(&mut res, '\t');
    assert(res@ =~= tabs(indent@.len() + 1));
    res
}

/// The indentation of `n` tabs.
fn indentation(n: usize) -> (res: String)
    ensures
        is_indent(res@),
        res@.len() == n,
{
    let mut res = String::new();
    push_tabs(&mut res, n);
    assert(res@ =~= tabs(n as nat));
    res
}

fn push_normal(out: &mut String, f: &NormalField)
    ensures
        final(out)@ == old(out)@ + normal_text(f@),
{
    proof {
        reveal_strlit(" ");
        reveal_strlit(" = ");
        reveal_strlit(";");
    }
    push_str(out, f.ty().text().as_str());
    push_str(out, " ");
    push_str(out, f.name().as_str());
    push_str(out, " = ");
    push_decimal(out, f.number() as u64);
    push_str(out, ";");
    assert(out@ =~= old(out)@ + normal_text(f@));
}

fn push_map(out: &mut String, m: &MapField)
    ensures
        final(out)@ == old(out)@ + map_text(m@),
{
    push_str(out, "map<");
    push_str(out, m.key_ty().text().as_str());
    push_str(out, ", ");
    push_str(out, m.val_ty().text().as_str());
    push_str(out, "> ");
    push_str(out, m.name().as_str());
    push_str(out, " = ");
    push_decimal(out, m.number() as u64);
    push_str(out, ";");
    assert(out@ =~= old(out)@ + map_text(m@));
}

fn push_field(out: &mut String, field: &Field, indent: &String)
    requires
        is_indent(indent@),
    ensures
        final(out)@ == old(out)@ + field_text(field@, indent@.len()),
{
    let ghost start = out@;
    let ghost n = indent@.len();
    push_str(out, indent.as_str());
    match field {
        Field::Normal(f) => push_normal(out, f),
        Field::OneOf(name, fs) => {
            push_str(out, "oneof ");
            push_str(out, name.as_str());
            push_str(out, " {\n");
            let ghost head = out@;
            let ghost vs = fs@.map_values(|f: NormalField| f@);
            let mut i: usize = 0;
            assert(vs.take(0) =~= Seq::<NormalFieldView>::empty());
            assert(head + oneof_lines(vs.take(0), n) =~= head);
            while i < fs.len()
                invariant
                    i <= fs@.len(),
                    is_indent(indent@),
                    n == indent@.len(),
                    vs == fs@.map_values(|f: NormalField| f@),
                    out@ == head + oneof_lines(vs.take(i as int), n),
                decreases fs@.len() - i,
            {
                push_str(out, indent.as_str());
                push_str(out, "\t");
                push_normal(out, &fs[i]);
                push_str(out, "\n");
                proof {
                    assert(vs.take(i + 1).drop_last() =~= vs.take(i as int));
                    assert(vs[i as int] == fs@[i as int]@);
                }
                i = i + 1;
                assert(out@ =~= head + oneof_lines(vs.take(i as int), n));
            }
            assert(vs.take(i as int) =~= vs);
            push_str(out, indent.as_str());
            push_str(out, "}");
        },
        Field::Repeated(f) => {
            push_str(out, "repeated ");
            push_normal(out, f);
        },
        Field::Optional(f) => {
            push_str(out, "optional ");
            push_normal(out, f);
        },
        Field::Mapped(m) => push_map(out, m),
    }
    assert(out@ =~= start + field_text(field@, n));
}

impl DisplayWithTabs for Field {
    fn display_with_tabs(&self, tabs_count: usize) -> (res: String)
        ensures
            res@ == field_text(self@, tabs_count as nat),
    {
        let indent = indentation(tabs_count);
        let mut out = String::new();
        push_field(&mut out, self, &indent);
        assert(out@ =~= field_text(self@, tabs_count as nat));
        out
    }
}

fn push_enum(out: &mut String, e: &ProtoEnum, indent: &String)
    requires
        is_indent(indent@),
    ensures
        final(out)@ == old(out)@ + enum_text(e@, indent@.len()),
{
    let ghost start = out@;
    let ghost n = indent@.len();
    push_str(out, indent.as_str());
    push_str(out, "enum ");
    push_str(out, e.name().as_str());
    push_str(out, " {\n");
    let ghost head = out@;
    let variants = e.variants();
    let ghost vs = variants@.map_values(|v: (String, u32)| (v.0@, v.1));
    let mut i: usize = 0;
    assert(vs.take(0) =~= Seq::<(Seq<char>, u32)>::empty());
    assert(head + variant_lines(vs.take(0), n) =~= head);
    while i < variants.len()
        invariant
            i <= variants@.len(),
            is_indent(indent@),
            n == indent@.len(),
            vs == variants@.map_values(|v: (String, u32)| (v.0@, v.1)),
            out@ == head + variant_lines(vs.take(i as int), n),
        decreases variants@.len() - i,
    {
        let (name, number) = &variants[i];
        push_str(out, indent.as_str());
        push_str(out, "\t");
        push_str(out, name.as_str());
        push_str(out, " = ");
        push_decimal(out, *number as u64);
        push_str(out, ";\n");
        proof {
            assert(vs.take(i + 1).drop_last() =~= vs.take(i as int));
            assert(vs[i as int] == (name@, *number));
        }
        i = i + 1;
        assert(out@ =~= head + variant_lines(vs.take(i as int), n));
    }
    assert(vs.take(i as int) =~= vs);
    push_str(out, indent.as_str());
    push_str(out, "}\n");
    assert(out@ =~= start + enum_text(e@, n));
}

impl DisplayWithTabs for ProtoEnum {
    fn display_with_tabs(&self, tabs_count: usize) -> (res: String)
        ensures
            res@ == enum_text(self@, tabs_count as nat),
    {
        let indent = indentation(tabs_count);
        let mut out = String::new();
        push_enum(&mut out, self, &indent);
        assert(out@ =~= enum_text(self@, tabs_count as nat));
        out
    }
}

impl ProtoMessage<Resolved> {
    fn push_text(&self, out: &mut String, indent: &String)
        requires
            is_indent(indent@),
        ensures
            final(out)@ == old(out)@ + message_text(self@, indent@.len()),
        decreases self@,
    {
        let ghost start = out@;
        let ghost mv = self@;
        let ghost n = indent@.len();
        let inner_indent = deeper(indent);
        push_str(out, indent.as_str());
        push_str(out, "message ");
        push_str(out, self.name().as_str());
        push_str(out, " {\n");
        let fields = self.fields();
        let ghost fs = mv.fields;
        let ghost head = out@;
        let mut i: usize = 0;
        assert(fs.take(0) =~= Seq::<FieldView>::empty());
        assert(head + field_lines(fs.take(0), n + 1) =~= head);
        while i < fields.len()
            invariant
                i <= fields@.len(),
                is_indent(inner_indent@),
                inner_indent@.len() == n + 1,
                fields@.map_values(|f: Field| f@) == fs,
                out@ == head + field_lines(fs.take(i as int), n + 1),
            decreases fields@.len() - i,
        {
            push_field(out, &fields[i], &inner_indent);
            push_str(out, "\n");
            proof {
                assert(fs.take(i + 1).drop_last() =~= fs.take(i as int));
                assert(fs[i as int] == fields@[i as int]@);
            }
            i = i + 1;
            assert(out@ =~= head + field_lines(fs.take(i as int), n + 1));
        }
        assert(fs.take(i as int) =~= fs);
        let inner = self.inner_members();
        let ghost ms = mv.inner;
        let ghost mid = out@;
        let mut j: usize = 0;
        assert(ms.take(0) =~= Seq::<MemberView>::empty());
        assert(mid + members_text(ms.take(0), n + 1) =~= mid);
        while j < inner.len()
            invariant
                j <= inner@.len(),
                is_indent(inner_indent@),
                inner_indent@.len() == n + 1,
                member_views(inner@) == ms,
                ms == mv.inner,
                mv == self@,
                out@ == mid + members_text(ms.take(j as int), n + 1),
            decreases inner@.len() - j,
        {
            push_str(out, "\n");
            proof {
                assert(ms[j as int] == inner@[j as int]@);
                assert(decreases_to!(mv => mv.inner));
                assert(decreases_to!(mv.inner => mv.inner[j as int]));
                assert(decreases_to!(self@ => inner@[j as int]@));
            }
            inner[j].push_text(out, &inner_indent);
            proof {
                assert(ms.take(j + 1).subrange(0, j as int) =~= ms.take(j as int));
                assert(ms.take(j + 1)[j as int] == ms[j as int]);
            }
            j = j + 1;
            assert(out@ =~= mid + members_text(ms.take(j as int), n + 1));
        }
        assert(ms.take(j as int) =~= ms);
        push_str(out, indent.as_str());
        push_str(out, "}\n");
        assert(out@ =~= start + message_text(mv, n));
    }
}

impl PackageMember<Resolved> {
    fn push_text(&self, out: &mut String, indent: &String)
        requires
            is_indent(indent@),
        ensures
            final(out)@ == old(out)@ + member_text(self@, indent@.len()),
        decreases self@,
    {
        proof { lemma_member_view(*self); }
        match self {
            PackageMember::Enum(e) => push_enum(out, e, indent),
            PackageMember::Message(m) => {
                proof {
                    let v = self@;
                    assert(v->Message_0 == m@);
                    assert(decreases_to!(v => v->Message_0));
                }
                m.push_text(out, indent)
            },
        }
    }
}

impl DisplayWithTabs for ProtoMessage<Resolved> {
    fn display_with_tabs(&self, tabs_count: usize) -> (res: String)
        ensures
            res@ == message_text(self@, tabs_count as nat),
    {
        let indent = indentation(tabs_count);
        let mut out = String::new();
        self.push_text(&mut out, &indent);
        assert(out@ =~= message_text(self@, tabs_count as nat));
        out
    }
}

impl DisplayWithTabs for PackageMember<Resolved> {
    fn display_with_tabs(&self, tabs_count: usize) -> (res: String)
        ensures
            res@ == member_text(self@, tabs_count as nat),
    {
        let indent = indentation(tabs_count);
        let mut out = String::new();
        self.push_text(&mut out, &indent);
        assert(out@ =~= member_text(self@, tabs_count as nat));
        out
    }
}

} // verus!
