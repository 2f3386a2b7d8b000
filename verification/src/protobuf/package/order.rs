//! The order in which a package writes its imports and members: by their
//! text, in the order of strings, as a stable insertion sort.

use vstd::prelude::*;

use crate::protobuf::message::{member_name, MemberView, PackageMember, Resolved};
use crate::protobuf::package::import::{import_text, import_views, ProtoImport, ProtoImportView};
use crate::protobuf::type_path::{lemma_text_lt_total, lemma_text_lt_trans, text_le, text_less, text_lt};
use crate::text::{copy_string, string_views};
use crate::vecs::{lemma_reversed_rest, reversed};

verus! {

/// The keys are in the order of strings.
pub open spec fn text_sorted(ks: Seq<Seq<char>>) -> bool {
    forall|i: int, j: int| 0 <= i < j < ks.len() ==> text_le(#[trigger] ks[i], #[trigger] ks[j])
}

/// The order of strings is transitive.
pub proof fn lemma_text_le_trans(a: Seq<char>, b: Seq<char>, c: Seq<char>)
    requires
        text_le(a, b),
        text_le(b, c),
    ensures
        text_le(a, c),
{
    if a != b && b != c {
        lemma_text_lt_trans(a, b, c);
    }
}

proof fn lemma_insert_sorted(ks: Seq<Seq<char>>, p: int, k: Seq<char>)
    requires
        text_sorted(ks),
        0 <= p <= ks.len(),
        forall|j: int| 0 <= j < p ==> !text_lt(k, #[trigger] ks[j]),
        p < ks.len() ==> text_lt(k, ks[p]),
    ensures
        text_sorted(ks.insert(p, k)),
{
    let r = ks.insert(p, k);
    assert forall|i: int, j: int| 0 <= i < j < r.len() implies text_le(#[trigger] r[i], #[trigger] r[j]) by {
        if j < p {
            assert(r[i] == ks[i] && r[j] == ks[j]);
        } else if j == p {
            assert(r[i] == ks[i]);
            lemma_text_lt_total(k, ks[i]);
        } else if i == p {
            assert(r[j] == ks[j - 1]);
            if j - 1 > p {
                assert(text_le(ks[p], ks[j - 1]));
                if ks[p] != ks[j - 1] {
                    lemma_text_lt_trans(k, ks[p], ks[j - 1]);
                }
            }
        } else if i < p {
            assert(r[i] == ks[i]);
            assert(r[j] == ks[j - 1]);
        } else {
            assert(r[i] == ks[i - 1]);
            assert(r[j] == ks[j - 1]);
        }
    }
}

/// The first position of `ks` whose key comes after `k`, or the end.
fn insert_position(ks: &Vec<String>, k: &String) -> (res: usize)
    requires
        text_sorted(string_views(ks@)),
    ensures
        res <= ks@.len(),
        forall|j: int| 0 <= j < res ==> !text_lt(k@, #[trigger] string_views(ks@)[j]),
        res < ks@.len() ==> text_lt(k@, string_views(ks@)[res as int]),
{
    let ghost kv = string_views(ks@);
    let mut p: usize = 0;
    while p < ks.len()
        invariant
            p <= ks@.len(),
            kv == string_views(ks@),
            forall|j: int| 0 <= j < p ==> !text_lt(k@, #[trigger] kv[j]),
        decreases ks@.len() - p,
    {
        assert(kv[p as int] == ks@[p as int]@);
        if text_less(k.as_str(), ks[p].as_str()) {
            return p;
        }
        p = p + 1;
    }
    p
}

/// The imports, sorted by their text; imports of the same text keep their order.
pub fn sort_imports(v: Vec<ProtoImport>) -> (res: Vec<ProtoImport>)
    ensures
        import_views(res@).to_multiset() == import_views(v@).to_multiset(),
        text_sorted(import_views(res@).map_values(|i: ProtoImportView| import_text(i))),
{
    let ghost orig = import_views(v@);
    let ghost vs = v@;
    let mut input = reversed(v);
    let mut out: Vec<ProtoImport> = Vec::new();
    let mut keys: Vec<String> = Vec::new();
    let ghost mut i: int = 0;
    assert(vs.skip(0) =~= vs);
    assert(orig.take(0) =~= Seq::<ProtoImportView>::empty());
    assert(import_views(out@) =~= Seq::<ProtoImportView>::empty());
    while input.len() > 0
        invariant
            0 <= i <= orig.len(),
            input@ == vs.skip(i).reverse(),
            orig == import_views(vs),
            string_views(keys@) == import_views(out@).map_values(|x: ProtoImportView| import_text(x)),
            text_sorted(string_views(keys@)),
            import_views(out@).to_multiset() == orig.take(i).to_multiset(),
        decreases input@.len(),
    {
        assert(i < vs.len());
        proof { lemma_reversed_rest(vs, i); }
        let x = input.pop().unwrap();
        assert(x@ == orig[i]);
        let key = x.to_string();
        let p = insert_position(&keys, &key);
        let ghost ov = import_views(out@);
        let ghost kv = string_views(keys@);
        proof { lemma_insert_sorted(kv, p as int, key@); }
        let ghost xv = x@;
        out.insert(p, x);
        keys.insert(p, key);
        proof {
            assert(import_views(out@) =~= ov.insert(p as int, xv));
            assert(string_views(keys@) =~= kv.insert(p as int, import_text(xv)));
            assert(import_views(out@).map_values(|y: ProtoImportView| import_text(y))
                =~= ov.map_values(|y: ProtoImportView| import_text(y)).insert(p as int, import_text(xv)));
            vstd::seq_lib::to_multiset_insert(ov, p as int, xv);
            assert(orig.take(i + 1) =~= orig.take(i).push(xv));
            vstd::seq_lib::to_multiset_build(orig.take(i), xv);
            i = i + 1;
        }
    }
    assert(orig.take(i) =~= orig);
    out
}

/// The views of a sequence of members.
pub open spec fn resolved_views(s: Seq<PackageMember<Resolved>>) -> Seq<MemberView> {
    s.map_values(|m: PackageMember<Resolved>| m@)
}

/// The members, sorted by name; members of the same name keep their order.
pub fn sort_members(v: Vec<PackageMember<Resolved>>) -> (res: Vec<PackageMember<Resolved>>)
    ensures
        resolved_views(res@).to_multiset() == resolved_views(v@).to_multiset(),
        text_sorted(resolved_views(res@).map_values(|m: MemberView| member_name(m))),
{
    let ghost orig = resolved_views(v@);
    let ghost vs = v@;
    let mut input = reversed(v);
    let mut out: Vec<PackageMember<Resolved>> = Vec::new();
    let mut keys: Vec<String> = Vec::new();
    let ghost mut i: int = 0;
    assert(vs.skip(0) =~= vs);
    assert(orig.take(0) =~= Seq::<MemberView>::empty());
    assert(resolved_views(out@) =~= Seq::<MemberView>::empty());
    while input.len() > 0
        invariant
            0 <= i <= orig.len(),
            input@ == vs.skip(i).reverse(),
            orig == resolved_views(vs),
            string_views(keys@) == resolved_views(out@).map_values(|x: MemberView| member_name(x)),
            text_sorted(string_views(keys@)),
            resolved_views(out@).to_multiset() == orig.take(i).to_multiset(),
        decreases input@.len(),
    {
        assert(i < vs.len());
        proof { lemma_reversed_rest(vs, i); }
        let x = input.pop().unwrap();
        assert(x@ == orig[i]);
        let key = copy_string(x.name());
        let p = insert_position(&keys, &key);
        let ghost ov = resolved_views(out@);
        let ghost kv = string_views(keys@);
        proof { lemma_insert_sorted(kv, p as int, key@); }
        let ghost xv = x@;
        out.insert(p, x);
        keys.insert(p, key);
        proof {
            assert(resolved_views(out@) =~= ov.insert(p as int, xv));
            assert(string_views(keys@) =~= kv.insert(p as int, member_name(xv)));
            assert(resolved_views(out@).map_values(|y: MemberView| member_name(y))
                =~= ov.map_values(|y: MemberView| member_name(y)).insert(p as int, member_name(xv)));
            vstd::seq_lib::to_multiset_insert(ov, p as int, xv);
            assert(orig.take(i + 1) =~= orig.take(i).push(xv));
            vstd::seq_lib::to_multiset_build(orig.take(i), xv);
            i = i + 1;
        }
    }
    assert(orig.take(i) =~= orig);
    out
}

} // verus!
