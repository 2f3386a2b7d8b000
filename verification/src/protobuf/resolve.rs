//! The resolution of type references: each custom type a field names is
//! looked up among the packages and the outside types, the closest place
//! is chosen, and the name is rewritten to its full path.

use vstd::prelude::*;

use crate::protobuf::message::field::{field_custom_names, renamed_field, Field, FieldView};
use crate::protobuf::message::{
    lemma_member_view, member_contains, member_views, MemberView, MessageView, PackageMember, ProtoMessage, Resolved, Unresolved,
};
use crate::protobuf::package::import::{ExternTypeMap, ImportSet, ProtoImport, ProtoImportView};
use crate::protobuf::package::{top_entry_view, TopMap};
use crate::protobuf::proto_enum::ProtoEnumView;
use crate::protobuf::type_path::{
    find_closest, is_closest, join, lemma_text_lt_total, lemma_type_path_nonempty, path_name, path_sim, sim_rank, text_le, type_path_of,
    PathKind, PathKindView, TypePath,
};
use crate::text::{copy_string, push_char, push_str, str_eq};

verus! {

/// What type references are resolved against: the members of every
/// package, the outside types, and the package the reference is made from.
pub struct Scope {
    pub top: Seq<(Seq<char>, Seq<MemberView>)>,
    pub ext: Map<Seq<char>, (Seq<char>, Seq<char>)>,
    pub current: Seq<char>,
}

/// One place per member of `ms` that has the path: the package `ns`.
pub open spec fn members_matching(ms: Seq<MemberView>, ns: Seq<char>, path: Seq<Seq<char>>) -> Seq<PathKindView>
    decreases ms.len(),
{
    if ms.len() == 0 {
        seq![]
    } else {
        members_matching(ms.drop_last(), ns, path) + if member_contains(ms.last(), path) {
            seq![PathKindView::Local(ns)]
        } else {
            seq![]
        }
    }
}

/// One place per package member that has the path, package by package.
pub open spec fn local_candidates(top: Seq<(Seq<char>, Seq<MemberView>)>, path: Seq<Seq<char>>) -> Seq<PathKindView>
    decreases top.len(),
{
    if top.len() == 0 {
        seq![]
    } else {
        local_candidates(top.drop_last(), path) + members_matching(top.last().1, top.last().0, path)
    }
}

/// The places a path may refer to: the local ones, then the outside type
/// named by its first name, if there is one.
pub open spec fn candidates(s: Scope, path: Seq<Seq<char>>) -> Seq<PathKindView> {
    local_candidates(s.top, path) + if s.ext.contains_key(path[0]) {
        seq![PathKindView::Extern(s.ext[path[0]].0, s.ext[path[0]].1)]
    } else {
        seq![]
    }
}

/// The type name `n` is a type path that refers to some place.
pub open spec fn resolves(s: Scope, n: Seq<char>) -> bool {
    type_path_of(n) is Some && candidates(s, type_path_of(n).unwrap()).len() > 0
}

/// The position of the place chosen among `paths` from the namespace `current`.
pub open spec fn closest_index(paths: Seq<PathKindView>, current: Seq<char>) -> int {
    choose|r: int| is_closest(paths, current, r)
}

/// The place the type name `n` is taken to refer to.
pub open spec fn target(s: Scope, n: Seq<char>) -> PathKindView {
    let c = candidates(s, type_path_of(n).unwrap());
    c[closest_index(c, s.current)]
}

/// The full name the type name `n` is rewritten to: the outside type's
/// path, or a dot, the package, a dot and the dotted path.
pub open spec fn resolved_name(s: Scope, n: Seq<char>) -> Seq<char> {
    match target(s, n) {
        PathKindView::Extern(p, _) => p,
        PathKindView::Local(ns) => "."@ + ns + "."@ + join(type_path_of(n).unwrap(), "."@),
    }
}

/// The import that referring to `n` needs, if any: the outside file, or
/// the file of another package.
pub open spec fn resolved_import(s: Scope, n: Seq<char>) -> Option<ProtoImportView> {
    match target(s, n) {
        PathKindView::Extern(_, i) => Some(ProtoImportView::External(i)),
        PathKindView::Local(ns) => if ns == s.current {
            None
        } else {
            Some(ProtoImportView::Local(ns))
        },
    }
}

/// The imports that referring to the names `ns` needs.
pub open spec fn names_imports(s: Scope, ns: Seq<Seq<char>>) -> Set<ProtoImportView> {
    Set::new(|i: ProtoImportView| exists|j: int| 0 <= j < ns.len() && resolved_import(s, ns[j]) == Some(i))
}

/// The custom type names the fields refer to, in order.
pub open spec fn fields_refs(fs: Seq<FieldView>) -> Seq<Seq<char>>
    decreases fs.len(),
{
    if fs.len() == 0 {
        seq![]
    } else {
        fields_refs(fs.drop_last()) + field_custom_names(fs.last())
    }
}

/// The custom type names a message refers to: those of its fields, then
/// those of its nested members.
pub open spec fn message_refs(m: MessageView) -> Seq<Seq<char>>
    decreases m, 1int,
{
    fields_refs(m.fields) + members_refs(m.inner)
}

/// The custom type names the members refer to, in order.
pub open spec fn members_refs(ms: Seq<MemberView>) -> Seq<Seq<char>>
    decreases ms, 0int,
{
    if ms.len() == 0 {
        seq![]
    } else {
        members_refs(ms.subrange(0, ms.len() - 1)) + member_refs(ms[ms.len() - 1])
    }
}

/// The custom type names a member refers to.
pub open spec fn member_refs(p: MemberView) -> Seq<Seq<char>>
    decreases p, 2int,
{
    match p {
        MemberView::Enum(_) => seq![],
        MemberView::Message(m) => message_refs(m),
    }
}

/// Every type name the message refers to resolves.
pub open spec fn message_resolvable(s: Scope, m: MessageView) -> bool {
    forall|i: int| 0 <= i < message_refs(m).len() ==> resolves(s, #[trigger] message_refs(m)[i])
}

/// Every type name the member refers to resolves.
pub open spec fn member_resolvable(s: Scope, p: MemberView) -> bool {
    forall|i: int| 0 <= i < member_refs(p).len() ==> resolves(s, #[trigger] member_refs(p)[i])
}

/// The field with each custom type name rewritten to its full name.
pub open spec fn resolved_field(s: Scope, f: FieldView) -> FieldView {
    renamed_field(f, field_custom_names(f).map_values(|n: Seq<char>| resolved_name(s, n)))
}

/// The message with every type name in it, and in what is nested in it,
/// rewritten to its full name.
pub open spec fn resolved_message(s: Scope, m: MessageView) -> MessageView
    decreases m, 1int,
{
    MessageView {
        name: m.name,
        fields: m.fields.map_values(|f: FieldView| resolved_field(s, f)),
        inner: Seq::new(
            m.inner.len(),
            |i: int|
                if 0 <= i < m.inner.len() {
                    resolved_member(s, m.inner[i])
                } else {
                    MemberView::Enum(ProtoEnumView { name: seq![], variants: seq![] })
                },
        ),
    }
}

/// The member with every type name in it rewritten to its full name.
pub open spec fn resolved_member(s: Scope, p: MemberView) -> MemberView
    decreases p, 2int,
{
    match p {
        MemberView::Enum(e) => MemberView::Enum(e),
        MemberView::Message(m) => MemberView::Message(resolved_message(s, m)),
    }
}

/// The scope of a reference made from the package `current`.
pub open spec fn scope_of(top: &TopMap, ext: &ExternTypeMap, current: Seq<char>) -> Scope {
    Scope { top: top@, ext: ext@, current }
}


/// The place chosen among `paths` is a single one.
pub proof fn lemma_closest_unique(paths: Seq<PathKindView>, current: Seq<char>, r1: int, r2: int)
    requires
        is_closest(paths, current, r1),
        is_closest(paths, current, r2),
    ensures
        r1 == r2,
{
    let n1 = path_name(paths[r1]);
    let n2 = path_name(paths[r2]);
    assert(sim_rank(path_sim(paths[r1], current)) <= sim_rank(path_sim(paths[r2], current)));
    assert(sim_rank(path_sim(paths[r2], current)) <= sim_rank(path_sim(paths[r1], current)));
    assert(text_le(n1, n2));
    assert(text_le(n2, n1));
    lemma_text_lt_total(n1, n2);
    assert(n1 == n2);
    if r1 < r2 {
        assert(path_name(paths[r1]) != path_name(paths[r2]));
    } else if r2 < r1 {
        assert(path_name(paths[r2]) != path_name(paths[r1]));
    }
}

proof fn lemma_names_imports_concat(s: Scope, a: Seq<Seq<char>>, b: Seq<Seq<char>>)
    ensures
        names_imports(s, a + b) == names_imports(s, a).union(names_imports(s, b)),
{
    let ab = a + b;
    assert forall|i: ProtoImportView| names_imports(s, ab).contains(i) <==> names_imports(s, a).union(names_imports(s, b)).contains(i) by {
        if names_imports(s, ab).contains(i) {
            let j = choose|j: int| 0 <= j < ab.len() && resolved_import(s, ab[j]) == Some(i);
            if j < a.len() {
                assert(ab[j] == a[j]);
                assert(names_imports(s, a).contains(i));
            } else {
                assert(ab[j] == b[j - a.len()]);
                assert(names_imports(s, b).contains(i));
            }
        }
        if names_imports(s, a).contains(i) {
            let j = choose|j: int| 0 <= j < a.len() && resolved_import(s, a[j]) == Some(i);
            assert(ab[j] == a[j]);
        }
        if names_imports(s, b).contains(i) {
            let j = choose|j: int| 0 <= j < b.len() && resolved_import(s, b[j]) == Some(i);
            assert(ab[j + a.len()] == b[j]);
        }
    }
    assert(names_imports(s, ab) =~= names_imports(s, a).union(names_imports(s, b)));
}

proof fn lemma_names_imports_empty(s: Scope)
    ensures
        names_imports(s, Seq::<Seq<char>>::empty()) == Set::<ProtoImportView>::empty(),
{
    assert(names_imports(s, Seq::<Seq<char>>::empty()) =~= Set::<ProtoImportView>::empty());
}

proof fn lemma_names_imports_one(s: Scope, n: Seq<char>)
    ensures
        names_imports(s, seq![n]) == match resolved_import(s, n) {
            Some(i) => Set::<ProtoImportView>::empty().insert(i),
            None => Set::<ProtoImportView>::empty(),
        },
{
    let one = seq![n];
    assert(one[0] == n);
    match resolved_import(s, n) {
        Some(i) => {
            assert(names_imports(s, one) =~= Set::<ProtoImportView>::empty().insert(i));
        },
        None => {
            assert(names_imports(s, one) =~= Set::<ProtoImportView>::empty());
        },
    }
}

proof fn lemma_local_candidates_step(top: Seq<(Seq<char>, Seq<MemberView>)>, path: Seq<Seq<char>>, i: int)
    requires
        0 <= i < top.len(),
    ensures
        local_candidates(top.take(i + 1), path) == local_candidates(top.take(i), path) + members_matching(top[i].1, top[i].0, path),
{
    assert(top.take(i + 1).drop_last() =~= top.take(i));
}

proof fn lemma_members_matching_step(ms: Seq<MemberView>, ns: Seq<char>, path: Seq<Seq<char>>, j: int)
    requires
        0 <= j < ms.len(),
    ensures
        members_matching(ms.take(j + 1), ns, path) == members_matching(ms.take(j), ns, path) + if member_contains(ms[j], path) {
            seq![PathKindView::Local(ns)]
        } else {
            seq![]
        },
{
    assert(ms.take(j + 1).drop_last() =~= ms.take(j));
}

/// The places the path `path` may refer to.
fn collect_candidates(top: &TopMap, ext: &ExternTypeMap, path: &Vec<String>) -> (res: Vec<PathKind>)
    requires
        path@.len() > 0,
        ext.wf(),
    ensures
        res@.map_values(|p: PathKind| p@) == candidates(scope_of(top, ext, seq![]), path@.map_values(|s: String| s@)),
{
    let ghost pv = path@.map_values(|s: String| s@);
    let ghost tv = top@;
    let entries = top.entries();
    let mut out: Vec<PathKind> = Vec::new();
    let mut i: usize = 0;
    assert(tv.take(0) =~= Seq::<(Seq<char>, Seq<MemberView>)>::empty());
    while i < entries.len()
        invariant
            i <= entries@.len(),
            path@.len() > 0,
            pv == path@.map_values(|s: String| s@),
            entries@.map_values(|e: (String, Vec<PackageMember<Unresolved>>)| top_entry_view(e)) == tv,
            out@.map_values(|p: PathKind| p@) == local_candidates(tv.take(i as int), pv),
        decreases entries@.len() - i,
    {
        let (ns, members) = &entries[i];
        assert(tv[i as int] == top_entry_view(entries@[i as int]));
        let ghost ms = member_views(members@);
        let ghost before = out@.map_values(|p: PathKind| p@);
        let mut j: usize = 0;
        assert(ms.take(0) =~= Seq::<MemberView>::empty());
        assert(before + members_matching(ms.take(0), ns@, pv) =~= before);
        while j < members.len()
            invariant
                j <= members@.len(),
                path@.len() > 0,
                pv == path@.map_values(|s: String| s@),
                ms == member_views(members@),
                out@.map_values(|p: PathKind| p@) == before + members_matching(ms.take(j as int), ns@, pv),
            decreases members@.len() - j,
        {
            proof { lemma_members_matching_step(ms, ns@, pv, j as int); }
            assert(ms[j as int] == members@[j as int]@);
            let ghost prev = out@.map_values(|p: PathKind| p@);
            if members[j].contains(path) {
                out.push(PathKind::Local(copy_string(ns)));
                assert(out@.map_values(|p: PathKind| p@) =~= prev.push(PathKindView::Local(ns@)));
            } else {
                assert(out@.map_values(|p: PathKind| p@) =~= prev);
            }
            assert(out@.map_values(|p: PathKind| p@) =~= before + members_matching(ms.take(j + 1), ns@, pv));
            j = j + 1;
        }
        assert(ms.take(j as int) =~= ms);
        proof { lemma_local_candidates_step(tv, pv, i as int); }
        assert(out@.map_values(|p: PathKind| p@) =~= local_candidates(tv.take(i + 1), pv));
        i = i + 1;
    }
    assert(tv.take(i as int) =~= tv);
    let ghost locals = out@.map_values(|p: PathKind| p@);
    assert(pv[0] == path@[0]@);
    match ext.get(path[0].as_str()) {
        Some(entry) => {
            out.push(PathKind::Extern(copy_string(&entry.0), copy_string(&entry.1)));
        },
        None => {},
    }
    assert(out@.map_values(|p: PathKind| p@) =~= candidates(scope_of(top, ext, seq![]), pv));
    out
}


/// The full name `ty` is rewritten to, adding the import it needs.
fn resolve_name(top: &TopMap, ext: &ExternTypeMap, current: &str, ty: &String, imports: &mut ImportSet) -> (res: String)
    requires
        old(imports).wf(),
        ext.wf(),
        resolves(scope_of(top, ext, current@), ty@),
    ensures
        final(imports).wf(),
        res@ == resolved_name(scope_of(top, ext, current@), ty@),
        final(imports)@ == old(imports)@.union(names_imports(scope_of(top, ext, current@), seq![ty@])),
{
    let ghost sc = scope_of(top, ext, current@);
    proof { lemma_names_imports_one(sc, ty@); }
    let path = match TypePath::try_from_str(ty.as_str()) {
        Ok(p) => p,
        Err(_) => {
            assert(false);
            return String::new();
        },
    };
    proof { lemma_type_path_nonempty(ty@); }
    let names = path.to_owned();
    let cands = collect_candidates(top, ext, &names);
    let ghost cv = cands@.map_values(|p: PathKind| p@);
    assert(cv == candidates(sc, path@));
    let chosen = find_closest(&cands, current);
    proof {
        let r = choose|r: int| is_closest(cv, current@, r) && *chosen == cands@[r];
        let k = closest_index(cv, current@);
        lemma_closest_unique(cv, current@, r, k);
        assert(cv[r] == cands@[r]@);
        assert(target(sc, ty@) == chosen@);
    }
    match chosen {
        PathKind::Extern(p, imp) => {
            imports.insert(ProtoImport::External(copy_string(imp)));
            proof {
                assert(old(imports)@.union(Set::<ProtoImportView>::empty().insert(ProtoImportView::External(imp@)))
                    =~= old(imports)@.insert(ProtoImportView::External(imp@)));
            }
            copy_string(p)
        },
        PathKind::Local(ns) => {
            if !str_eq(ns.as_str(), current) {
                imports.insert(ProtoImport::Local(copy_string(ns)));
                proof {
                    assert(old(imports)@.union(Set::<ProtoImportView>::empty().insert(ProtoImportView::Local(ns@)))
                        =~= old(imports)@.insert(ProtoImportView::Local(ns@)));
                }
            } else {
                assert(old(imports)@.union(Set::<ProtoImportView>::empty()) =~= old(imports)@);
            }
            let joined = path.joined();
            let mut res = String::new();
            push_char(&mut res, '.');
            push_str(&mut res, ns.as_str());
            push_char(&mut res, '.');
            push_str(&mut res, joined.as_str());
            proof {
                reveal_strlit(".");
                assert(res@ =~= "."@ + ns@ + "."@ + join(path@, "."@));
            }
            res
        },
    }
}

/// The field with each custom type name rewritten to its full name, adding
/// the imports they need.
fn resolve_field(f: &Field, top: &TopMap, ext: &ExternTypeMap, current: &str, imports: &mut ImportSet) -> (res: Field)
    requires
        old(imports).wf(),
        ext.wf(),
        forall|k: int| 0 <= k < field_custom_names(f@).len()
            ==> resolves(scope_of(top, ext, current@), #[trigger] field_custom_names(f@)[k]),
    ensures
        final(imports).wf(),
        res@ == resolved_field(scope_of(top, ext, current@), f@),
        final(imports)@ == old(imports)@.union(names_imports(scope_of(top, ext, current@), field_custom_names(f@))),
{
    let ghost sc = scope_of(top, ext, current@);
    let names = f.custom_types();
    let ghost nv = names@.map_values(|s: String| s@);
    let mut out: Vec<String> = Vec::new();
    let mut k: usize = 0;
    proof {
        assert(nv.take(0) =~= Seq::<Seq<char>>::empty());
        lemma_names_imports_empty(sc);
        assert(old(imports)@.union(Set::<ProtoImportView>::empty()) =~= old(imports)@);
    }
    while k < names.len()
        invariant
            k <= names@.len(),
            nv == names@.map_values(|s: String| s@),
            nv == field_custom_names(f@),
            sc == scope_of(top, ext, current@),
            ext.wf(),
            imports.wf(),
            forall|j: int| 0 <= j < nv.len() ==> resolves(sc, #[trigger] nv[j]),
            out@.map_values(|s: String| s@) == nv.take(k as int).map_values(|n: Seq<char>| resolved_name(sc, n)),
            imports@ == old(imports)@.union(names_imports(sc, nv.take(k as int))),
        decreases names@.len() - k,
    {
        assert(nv[k as int] == names@[k as int]@);
        let ghost before = imports@;
        let r = resolve_name(top, ext, current, &names[k], imports);
        let ghost rv = r@;
        let ghost prev = out@.map_values(|s: String| s@);
        out.push(r);
        proof {
            assert(nv.take(k + 1) =~= nv.take(k as int) + seq![nv[k as int]]);
            lemma_names_imports_concat(sc, nv.take(k as int), seq![nv[k as int]]);
            assert(imports@ =~= old(imports)@.union(names_imports(sc, nv.take(k + 1))));
            assert(out@.map_values(|s: String| s@) =~= prev.push(rv));
            assert(nv.take(k + 1).map_values(|n: Seq<char>| resolved_name(sc, n))
                =~= nv.take(k as int).map_values(|n: Seq<char>| resolved_name(sc, n)).push(resolved_name(sc, nv[k as int])));
        }
        k = k + 1;
    }
    assert(nv.take(k as int) =~= nv);
    f.with_custom_types(&out)
}


proof fn lemma_fields_refs_step(fs: Seq<FieldView>, i: int)
    requires
        0 <= i < fs.len(),
    ensures
        fields_refs(fs.take(i + 1)) == fields_refs(fs.take(i)) + field_custom_names(fs[i]),
{
    assert(fs.take(i + 1).drop_last() =~= fs.take(i));
}

proof fn lemma_fields_refs_prefix(fs: Seq<FieldView>, i: int)
    requires
        0 <= i <= fs.len(),
    ensures
        fields_refs(fs.take(i)).len() <= fields_refs(fs).len(),
        forall|k: int| 0 <= k < fields_refs(fs.take(i)).len() ==> #[trigger] fields_refs(fs.take(i))[k] == fields_refs(fs)[k],
    decreases fs.len() - i,
{
    if i == fs.len() {
        assert(fs.take(i) =~= fs);
    } else {
        lemma_fields_refs_prefix(fs, i + 1);
        lemma_fields_refs_step(fs, i);
        assert forall|k: int| 0 <= k < fields_refs(fs.take(i)).len() implies #[trigger] fields_refs(fs.take(i))[k] == fields_refs(fs)[k] by {
            assert(fields_refs(fs.take(i + 1))[k] == fields_refs(fs.take(i))[k]);
        }
    }
}

proof fn lemma_members_refs_step(ms: Seq<MemberView>, i: int)
    requires
        0 <= i < ms.len(),
    ensures
        members_refs(ms.take(i + 1)) == members_refs(ms.take(i)) + member_refs(ms[i]),
{
    assert(ms.take(i + 1).subrange(0, i) =~= ms.take(i));
    assert(ms.take(i + 1)[i] == ms[i]);
}

proof fn lemma_members_refs_prefix(ms: Seq<MemberView>, i: int)
    requires
        0 <= i <= ms.len(),
    ensures
        members_refs(ms.take(i)).len() <= members_refs(ms).len(),
        forall|k: int| 0 <= k < members_refs(ms.take(i)).len() ==> #[trigger] members_refs(ms.take(i))[k] == members_refs(ms)[k],
    decreases ms.len() - i,
{
    if i == ms.len() {
        assert(ms.take(i) =~= ms);
    } else {
        lemma_members_refs_prefix(ms, i + 1);
        lemma_members_refs_step(ms, i);
        assert forall|k: int| 0 <= k < members_refs(ms.take(i)).len() implies #[trigger] members_refs(ms.take(i))[k] == members_refs(ms)[k] by {
            assert(members_refs(ms.take(i + 1))[k] == members_refs(ms.take(i))[k]);
        }
    }
}

impl ProtoMessage<Unresolved> {
    /// The message with every type name in it, and in what is nested in
    /// it, rewritten to its full name as seen from the package
    /// `current_namespace`; the imports this needs are added to `imports`.
    pub fn resolve(
        self,
        current_namespace: String,
        top_map: &TopMap,
        imports: &mut ImportSet,
        extern_ty: &ExternTypeMap,
    ) -> (res: ProtoMessage<Resolved>)
        requires
            old(imports).wf(),
            extern_ty.wf(),
            message_resolvable(scope_of(top_map, extern_ty, current_namespace@), self@),
        ensures
            final(imports).wf(),
            res@ == resolved_message(scope_of(top_map, extern_ty, current_namespace@), self@),
            final(imports)@ == old(imports)@.union(
                names_imports(scope_of(top_map, extern_ty, current_namespace@), message_refs(self@)),
            ),
    {
        self.resolve_ref(current_namespace.as_str(), top_map, imports, extern_ty)
    }

    #[verifier::loop_isolation(false)]
    fn resolve_ref(&self, current: &str, top: &TopMap, imports: &mut ImportSet, ext: &ExternTypeMap) -> (res: ProtoMessage<Resolved>)
        requires
            old(imports).wf(),
            ext.wf(),
            message_resolvable(scope_of(top, ext, current@), self@),
        ensures
            final(imports).wf(),
            res@ == resolved_message(scope_of(top, ext, current@), self@),
            final(imports)@ == old(imports)@.union(names_imports(scope_of(top, ext, current@), message_refs(self@))),
        decreases self@,
    {
        let ghost sc = scope_of(top, ext, current@);
        let ghost mv = self@;
        let ghost refs = message_refs(mv);
        let fields = self.fields();
        let ghost fs = mv.fields;
        let ghost fr = fields_refs(fs);
        assert(refs == fr + members_refs(mv.inner));
        let mut out_fields: Vec<Field> = Vec::new();
        let mut i: usize = 0;
        proof {
            assert(fs.take(0) =~= Seq::<FieldView>::empty());
            lemma_names_imports_empty(sc);
            assert(old(imports)@.union(Set::<ProtoImportView>::empty()) =~= old(imports)@);
        }
        while i < fields.len()
            invariant
                i <= fields@.len(),
                fields@.map_values(|f: Field| f@) == fs,
                imports.wf(),
                out_fields@.map_values(|f: Field| f@) == fs.take(i as int).map_values(|f: FieldView| resolved_field(sc, f)),
                imports@ == old(imports)@.union(names_imports(sc, fields_refs(fs.take(i as int)))),
            decreases fields@.len() - i,
        {
            assert(fs[i as int] == fields@[i as int]@);
            proof {
                lemma_fields_refs_step(fs, i as int);
                lemma_fields_refs_prefix(fs, i + 1);
                let pre = fields_refs(fs.take(i as int));
                let names = field_custom_names(fs[i as int]);
                assert forall|k: int| 0 <= k < names.len() implies resolves(sc, #[trigger] names[k]) by {
                    assert(fields_refs(fs.take(i + 1))[pre.len() + k] == names[k]);
                    assert(fr[pre.len() + k] == names[k]);
                    assert(refs[pre.len() + k] == names[k]);
                }
            }
            let ghost prev = out_fields@.map_values(|f: Field| f@);
            let f = resolve_field(&fields[i], top, ext, current, imports);
            let ghost fv = f@;
            out_fields.push(f);
            proof {
                lemma_names_imports_concat(sc, fields_refs(fs.take(i as int)), field_custom_names(fs[i as int]));
                assert(imports@ =~= old(imports)@.union(names_imports(sc, fields_refs(fs.take(i + 1)))));
                assert(out_fields@.map_values(|f: Field| f@) =~= prev.push(fv));
                assert(fs.take(i + 1).map_values(|f: FieldView| resolved_field(sc, f))
                    =~= fs.take(i as int).map_values(|f: FieldView| resolved_field(sc, f)).push(resolved_field(sc, fs[i as int])));
            }
            i = i + 1;
        }
        assert(fs.take(i as int) =~= fs);
        let ghost after_fields = imports@;
        let inner = self.inner_members();
        let ghost ms = mv.inner;
        let mut out_members: Vec<PackageMember<Resolved>> = Vec::new();
        let mut j: usize = 0;
        proof {
            assert(ms.take(0) =~= Seq::<MemberView>::empty());
            lemma_names_imports_empty(sc);
            assert(after_fields.union(Set::<ProtoImportView>::empty()) =~= after_fields);
        }
        while j < inner.len()
            invariant
                j <= inner@.len(),
                member_views(inner@) == ms,
                imports.wf(),
                out_members@.len() == j,
                forall|k: int| 0 <= k < j ==> #[trigger] out_members@[k]@ == resolved_member(sc, ms[k]),
                imports@ == after_fields.union(names_imports(sc, members_refs(ms.take(j as int)))),
            decreases inner@.len() - j,
        {
            assert(ms[j as int] == inner@[j as int]@);
            proof {
                lemma_members_refs_step(ms, j as int);
                lemma_members_refs_prefix(ms, j + 1);
                let pre = members_refs(ms.take(j as int));
                let names = member_refs(ms[j as int]);
                assert forall|k: int| 0 <= k < names.len() implies resolves(sc, #[trigger] names[k]) by {
                    assert(members_refs(ms.take(j + 1))[pre.len() + k] == names[k]);
                    assert(members_refs(ms)[pre.len() + k] == names[k]);
                    assert(refs[fr.len() + pre.len() + k] == names[k]);
                }
            }
            proof {
                assert(decreases_to!(mv => mv.inner));
                assert(decreases_to!(mv.inner => mv.inner[j as int]));
            }
            let m = inner[j].resolve_ref(current, top, imports, ext);
            out_members.push(m);
            proof {
                lemma_names_imports_concat(sc, members_refs(ms.take(j as int)), member_refs(ms[j as int]));
                assert(imports@ =~= after_fields.union(names_imports(sc, members_refs(ms.take(j + 1)))));
            }
            j = j + 1;
        }
        assert(ms.take(j as int) =~= ms);
        let res = ProtoMessage::new(copy_string(self.name()), out_fields, out_members);
        proof {
            lemma_names_imports_concat(sc, fr, members_refs(ms));
            assert(imports@ =~= old(imports)@.union(names_imports(sc, refs)));
            assert(member_views(out_members@) =~= resolved_message(sc, mv).inner);
        }
        res
    }
}

impl PackageMember<Unresolved> {
    /// The member with every type name in it rewritten to its full name as
    /// seen from the package `member_namespace`; the imports this needs
    /// are added to `imports`.
    pub fn resolve(
        self,
        member_namespace: String,
        top_map: &TopMap,
        imports: &mut ImportSet,
        extern_ty: &ExternTypeMap,
    ) -> (res: PackageMember<Resolved>)
        requires
            old(imports).wf(),
            extern_ty.wf(),
            member_resolvable(scope_of(top_map, extern_ty, member_namespace@), self@),
        ensures
            final(imports).wf(),
            res@ == resolved_member(scope_of(top_map, extern_ty, member_namespace@), self@),
            final(imports)@ == old(imports)@.union(
                names_imports(scope_of(top_map, extern_ty, member_namespace@), member_refs(self@)),
            ),
    {
        self.resolve_ref(member_namespace.as_str(), top_map, imports, extern_ty)
    }

    pub(crate) fn resolve_ref(&self, current: &str, top: &TopMap, imports: &mut ImportSet, ext: &ExternTypeMap) -> (res: PackageMember<Resolved>)
        requires
            old(imports).wf(),
            ext.wf(),
            member_resolvable(scope_of(top, ext, current@), self@),
        ensures
            final(imports).wf(),
            res@ == resolved_member(scope_of(top, ext, current@), self@),
            final(imports)@ == old(imports)@.union(names_imports(scope_of(top, ext, current@), member_refs(self@))),
        decreases self@,
    {
        proof { lemma_member_view(*self); }
        match self {
            PackageMember::Enum(e) => {
                proof {
                    lemma_names_imports_empty(scope_of(top, ext, current@));
                    assert(old(imports)@.union(Set::<ProtoImportView>::empty()) =~= old(imports)@);
                }
                PackageMember::from_enum(e.duplicate())
            },
            PackageMember::Message(m) => {
                assert(member_refs(self@) == message_refs(m@));
                PackageMember::from_message(m.resolve_ref(current, top, imports, ext))
            },
        }
    }
}

/// Every name of `ns` resolves.
pub open spec fn all_resolve(s: Scope, ns: Seq<Seq<char>>) -> bool {
    forall|k: int| 0 <= k < ns.len() ==> resolves(s, #[trigger] ns[k])
}

proof fn lemma_all_resolve_concat(s: Scope, a: Seq<Seq<char>>, b: Seq<Seq<char>>)
    ensures
        all_resolve(s, a + b) == (all_resolve(s, a) && all_resolve(s, b)),
{
    let ab = a + b;
    if all_resolve(s, ab) {
        assert forall|k: int| 0 <= k < a.len() implies resolves(s, #[trigger] a[k]) by {
            assert(ab[k] == a[k]);
        }
        assert forall|k: int| 0 <= k < b.len() implies resolves(s, #[trigger] b[k]) by {
            assert(ab[a.len() + k] == b[k]);
        }
    }
    if all_resolve(s, a) && all_resolve(s, b) {
        assert forall|k: int| 0 <= k < ab.len() implies resolves(s, #[trigger] ab[k]) by {
            if k < a.len() {
                assert(ab[k] == a[k]);
            } else {
                assert(ab[k] == b[k - a.len()]);
            }
        }
    }
}

/// Whether the type name `ty` refers to some place.
fn name_resolves(top: &TopMap, ext: &ExternTypeMap, ty: &String, Ghost(current): Ghost<Seq<char>>) -> (res: bool)
    requires
        ext.wf(),
    ensures
        res == resolves(scope_of(top, ext, current), ty@),
{
    match TypePath::try_from_str(ty.as_str()) {
        Err(_) => false,
        Ok(path) => {
            proof { lemma_type_path_nonempty(ty@); }
            let names = path.to_owned();
            let cands = collect_candidates(top, ext, &names);
            cands.len() > 0
        },
    }
}

/// Whether every custom type name the field refers to resolves.
fn field_resolvable(f: &Field, top: &TopMap, ext: &ExternTypeMap, Ghost(current): Ghost<Seq<char>>) -> (res: bool)
    requires
        ext.wf(),
    ensures
        res == all_resolve(scope_of(top, ext, current), field_custom_names(f@)),
{
    let ghost sc = scope_of(top, ext, current);
    let names = f.custom_types();
    let ghost nv = names@.map_values(|s: String| s@);
    let mut k: usize = 0;
    while k < names.len()
        invariant
            k <= names@.len(),
            nv == names@.map_values(|s: String| s@),
            nv == field_custom_names(f@),
            sc == scope_of(top, ext, current),
            ext.wf(),
            forall|j: int| 0 <= j < k ==> resolves(sc, #[trigger] nv[j]),
        decreases names@.len() - k,
    {
        assert(nv[k as int] == names@[k as int]@);
        if !name_resolves(top, ext, &names[k], Ghost(current)) {
            return false;
        }
        k = k + 1;
    }
    true
}

impl ProtoMessage<Unresolved> {
    /// Whether every type name the message, and what is nested in it,
    /// refers to resolves.
    #[verifier::loop_isolation(false)]
    pub(crate) fn refs_resolve(&self, top: &TopMap, ext: &ExternTypeMap, Ghost(current): Ghost<Seq<char>>) -> (res: bool)
        requires
            ext.wf(),
        ensures
            res == message_resolvable(scope_of(top, ext, current), self@),
        decreases self@,
    {
        let ghost sc = scope_of(top, ext, current);
        let ghost mv = self@;
        let ghost refs = message_refs(mv);
        let fields = self.fields();
        let ghost fs = mv.fields;
        let ghost fr = fields_refs(fs);
        assert(refs == fr + members_refs(mv.inner));
        proof {
            lemma_all_resolve_concat(sc, fr, members_refs(mv.inner));
            assert(message_resolvable(sc, mv) == all_resolve(sc, refs));
            assert(fs.take(0) =~= Seq::<FieldView>::empty());
        }
        let mut i: usize = 0;
        while i < fields.len()
            invariant
                i <= fields@.len(),
                fields@.map_values(|f: Field| f@) == fs,
                all_resolve(sc, fields_refs(fs.take(i as int))),
            decreases fields@.len() - i,
        {
            assert(fs[i as int] == fields@[i as int]@);
            proof {
                lemma_fields_refs_step(fs, i as int);
                lemma_all_resolve_concat(sc, fields_refs(fs.take(i as int)), field_custom_names(fs[i as int]));
            }
            if !field_resolvable(&fields[i], top, ext, Ghost(current)) {
                proof {
                    lemma_fields_refs_prefix(fs, i + 1);
                    let pre = fields_refs(fs.take(i as int));
                    let names = field_custom_names(fs[i as int]);
                    let k = choose|k: int| 0 <= k < names.len() && !resolves(sc, #[trigger] names[k]);
                    assert(fields_refs(fs.take(i + 1))[pre.len() + k] == names[k]);
                    assert(fr[pre.len() + k] == names[k]);
                    assert(refs[pre.len() + k] == names[k]);
                }
                return false;
            }
            i = i + 1;
        }
        assert(fs.take(i as int) =~= fs);
        let inner = self.inner_members();
        let ghost ms = mv.inner;
        assert(ms.take(0) =~= Seq::<MemberView>::empty());
        let mut j: usize = 0;
        while j < inner.len()
            invariant
                j <= inner@.len(),
                member_views(inner@) == ms,
                all_resolve(sc, members_refs(ms.take(j as int))),
            decreases inner@.len() - j,
        {
            assert(ms[j as int] == inner@[j as int]@);
            proof {
                lemma_members_refs_step(ms, j as int);
                lemma_all_resolve_concat(sc, members_refs(ms.take(j as int)), member_refs(ms[j as int]));
                assert(decreases_to!(mv => mv.inner));
                assert(decreases_to!(mv.inner => mv.inner[j as int]));
            }
            if !inner[j].refs_resolve(top, ext, Ghost(current)) {
                proof {
                    lemma_members_refs_prefix(ms, j + 1);
                    let pre = members_refs(ms.take(j as int));
                    let names = member_refs(ms[j as int]);
                    let k = choose|k: int| 0 <= k < names.len() && !resolves(sc, #[trigger] names[k]);
                    assert(members_refs(ms.take(j + 1))[pre.len() + k] == names[k]);
                    assert(members_refs(ms)[pre.len() + k] == names[k]);
                    assert(refs[fr.len() + pre.len() + k] == names[k]);
                }
                return false;
            }
            j = j + 1;
        }
        assert(ms.take(j as int) =~= ms);
        true
    }
}

impl PackageMember<Unresolved> {
    /// Whether every type name the member refers to resolves.
    pub(crate) fn refs_resolve(&self, top: &TopMap, ext: &ExternTypeMap, Ghost(current): Ghost<Seq<char>>) -> (res: bool)
        requires
            ext.wf(),
        ensures
            res == member_resolvable(scope_of(top, ext, current), self@),
        decreases self@,
    {
        proof { lemma_member_view(*self); }
        match self {
            PackageMember::Enum(_) => true,
            PackageMember::Message(m) => {
                assert(member_refs(self@) == message_refs(m@));
                m.refs_resolve(top, ext, Ghost(current))
            },
        }
    }
}

/// The names a prefix of members refers to grow by those of the next member.
pub proof fn lemma_members_refs_step_pub(ms: Seq<MemberView>, i: int)
    requires
        0 <= i < ms.len(),
    ensures
        members_refs(ms.take(i + 1)) == members_refs(ms.take(i)) + member_refs(ms[i]),
{
    lemma_members_refs_step(ms, i);
}

/// The imports two sequences of names need are those each needs.
pub proof fn lemma_names_imports_concat_pub(s: Scope, a: Seq<Seq<char>>, b: Seq<Seq<char>>)
    ensures
        names_imports(s, a + b) == names_imports(s, a).union(names_imports(s, b)),
{
    lemma_names_imports_concat(s, a, b);
}

/// A package never imports itself: a name resolved to the current
/// package needs no import.
pub proof fn lemma_no_self_import(s: Scope, ns: Seq<Seq<char>>)
    ensures
        !names_imports(s, ns).contains(ProtoImportView::Local(s.current)),
{
    if names_imports(s, ns).contains(ProtoImportView::Local(s.current)) {
        let j = choose|j: int| 0 <= j < ns.len() && resolved_import(s, ns[j]) == Some(ProtoImportView::Local(s.current));
        assert(resolved_import(s, ns[j]) == Some(ProtoImportView::Local(s.current)));
    }
}

/// A name that may refer to one place only refers to that place.
pub proof fn lemma_single_candidate(paths: Seq<PathKindView>, current: Seq<char>)
    requires
        paths.len() == 1,
    ensures
        closest_index(paths, current) == 0,
{
    crate::protobuf::type_path::lemma_text_lt_total(path_name(paths[0]), path_name(paths[0]));
    assert(is_closest(paths, current, 0));
    lemma_closest_unique(paths, current, 0, closest_index(paths, current));
}

/// A name that may refer to the current package refers to it, before any
/// other package or outside type.
pub proof fn lemma_current_namespace_wins(paths: Seq<PathKindView>, current: Seq<char>, j: int)
    requires
        0 <= j < paths.len(),
        paths[j] == PathKindView::Local(current),
    ensures
        paths[closest_index(paths, current)] == PathKindView::Local(current),
{
    let best = choose|r: int| 0 <= r < paths.len() && paths[r] == PathKindView::Local(current)
        && forall|k: int| 0 <= k < r ==> paths[k] != PathKindView::Local(current);
    assert(exists|r: int| 0 <= r < paths.len() && paths[r] == PathKindView::Local(current)
        && forall|k: int| 0 <= k < r ==> paths[k] != PathKindView::Local(current)) by {
        lemma_first_local(paths, current, j);
    }
    crate::protobuf::type_path::lemma_text_lt_total(current, current);
    assert forall|k: int| 0 <= k < paths.len() && sim_rank(path_sim(#[trigger] paths[k], current)) == sim_rank(path_sim(paths[best], current))
        implies text_le(path_name(paths[best]), path_name(paths[k])) by {
        assert(paths[k] == PathKindView::Local(current));
    }
    assert(is_closest(paths, current, best));
    lemma_closest_unique(paths, current, best, closest_index(paths, current));
}

proof fn lemma_first_local(paths: Seq<PathKindView>, current: Seq<char>, j: int)
    requires
        0 <= j < paths.len(),
        paths[j] == PathKindView::Local(current),
    ensures
        exists|r: int| 0 <= r < paths.len() && paths[r] == PathKindView::Local(current)
            && forall|k: int| 0 <= k < r ==> paths[k] != PathKindView::Local(current),
    decreases j,
{
    if exists|k: int| 0 <= k < j && paths[k] == PathKindView::Local(current) {
        let k = choose|k: int| 0 <= k < j && paths[k] == PathKindView::Local(current);
        lemma_first_local(paths, current, k);
    } else {
        assert(forall|k: int| 0 <= k < j ==> paths[k] != PathKindView::Local(current));
    }
}

} // verus!
