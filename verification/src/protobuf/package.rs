//! Packages: their members, imports, and how they are gathered.

pub mod filter;
pub mod gather;
pub mod import;
pub mod order;

use vstd::prelude::*;

use crate::names::{group_push, groups_flat, has_key, index_of_key, keys_distinct};
use crate::parser::data_structs::DataStructView;
use crate::parser::file::ParsedFile;
use crate::protobuf::builders::message::member_buildable;
use crate::protobuf::builders::package::builder_views;
use crate::protobuf::message::{member_name, member_views, MemberView, PackageMember, Resolved, Unresolved};
use crate::protobuf::package::filter::NamespaceFilter;
use crate::protobuf::package::gather::{
    all_buildable, gather, gathered, group_packages, oneof_views, oneofs_ok, oneofs_placed, packages_of, place_all_ok, place_nested,
    place_oneofs, placed_all,
};
use crate::protobuf::package::import::{
    import_text, import_views, last_name, ExternTypeMap, ImportSet, ProtoImport, ProtoImportView,
};
use crate::protobuf::package::order::{resolved_views, sort_imports, sort_members, text_sorted};
use crate::protobuf::resolve::{member_resolvable, members_refs, names_imports, resolved_member, Scope};
use crate::protobuf::builders::package::buckets_flat;
use crate::protobuf::render::{member_text, DisplayWithTabs};
use crate::text::{copy_string, push_str, str_eq};

verus! {

/// The members of every package, by package name, before their type
/// references are resolved.
pub struct TopMap {
    entries: Vec<(String, Vec<PackageMember<Unresolved>>)>,
}

/// The view of one package of a [`TopMap`]: its name and its members.
pub open spec fn top_entry_view(e: (String, Vec<PackageMember<Unresolved>>)) -> (Seq<char>, Seq<MemberView>) {
    (e.0@, member_views(e.1@))
}

impl View for TopMap {
    type V = Seq<(Seq<char>, Seq<MemberView>)>;

    closed spec fn view(&self) -> Seq<(Seq<char>, Seq<MemberView>)> {
        self.entries@.map_values(|e: (String, Vec<PackageMember<Unresolved>>)| top_entry_view(e))
    }
}

impl TopMap {
    /// The map with no package.
    pub fn new() -> (res: TopMap)
        ensures
            res@ == Seq::<(Seq<char>, Seq<MemberView>)>::empty(),
    {
        let res = TopMap { entries: Vec::new() };
        assert(res@ =~= Seq::<(Seq<char>, Seq<MemberView>)>::empty());
        res
    }

    /// The packages, in the order they were first added.
    pub fn entries(&self) -> (res: &Vec<(String, Vec<PackageMember<Unresolved>>)>)
        ensures
            res@.map_values(|e: (String, Vec<PackageMember<Unresolved>>)| top_entry_view(e)) == self@,
    {
        &self.entries
    }

    /// Adds `m` to the members of the package `ns`.
    pub fn push(&mut self, ns: String, m: PackageMember<Unresolved>)
        requires
            keys_distinct(old(self)@),
        ensures
            keys_distinct(final(self)@),
            final(self)@ == group_push(old(self)@, ns@, m@),
    {
        let ghost old_top = self@;
        let ghost mv = m@;
        let ghost old_entries = self.entries@;
        let mut i: usize = 0;
        while i < self.entries.len()
            invariant
                i <= self.entries@.len(),
                old_top == self@,
                old_top == old(self)@,
                old_entries == self.entries@,
                mv == m@,
                keys_distinct(old_top),
                forall|j: int| 0 <= j < i ==> #[trigger] old_top[j].0 != ns@,
            decreases self.entries@.len() - i,
        {
            assert(old_top[i as int] == top_entry_view(self.entries@[i as int]));
            if str_eq(self.entries[i].0.as_str(), ns.as_str()) {
                assert(old_top[i as int].0 == ns@);
                let (name, mut members) = self.entries.remove(i);
                members.push(m);
                self.entries.insert(i, (name, members));
                proof {
                    assert(0 <= i < old_top.len() && old_top[i as int].0 == ns@);
                    let k = choose|k: int| 0 <= k < old_top.len() && old_top[k].0 == ns@;
                    assert(k == i);
                    assert(member_views(members@) =~= member_views(old_entries[i as int].1@).push(mv));
                    assert(self@ =~= old_top.update(i as int, (ns@, old_top[i as int].1.push(mv))));
                    assert(group_push(old_top, ns@, mv) == old_top.update(i as int, (ns@, old_top[i as int].1.push(mv))));
                    assert(keys_distinct(self@));
                    assert(old(self)@ == old_top);
                    assert(mv == m@);
                }
                return;
            }
            i = i + 1;
        }
        self.entries.push((ns, vec![m]));
        proof {
            assert(self.entries@.last().1@ =~= seq![m]);
            assert(member_views(seq![m]) =~= seq![mv]);
            assert(self@ =~= old_top.push((ns@, seq![mv])));
        }
    }
}

/// A package: its name, the files it imports and its members.
pub struct ProtoPackage {
    name: String,
    imports: Vec<ProtoImport>,
    members: Vec<PackageMember<Resolved>>,
}

/// The mathematical value of a [`ProtoPackage`].
pub struct PackageView {
    pub name: Seq<char>,
    pub imports: Seq<ProtoImportView>,
    pub members: Seq<MemberView>,
}

impl View for ProtoPackage {
    type V = PackageView;

    closed spec fn view(&self) -> PackageView {
        PackageView { name: self.name@, imports: import_views(self.imports@), members: resolved_views(self.members@) }
    }
}

/// The package `p` is the package `name` holding `imports` and `members`,
/// arranged as it writes them: the imports each once and sorted by their
/// text, the members sorted by name.
pub open spec fn is_package(p: PackageView, name: Seq<char>, imports: Set<ProtoImportView>, members: Seq<MemberView>) -> bool {
    &&& p.name == name
    &&& p.imports.no_duplicates()
    &&& p.imports.to_set() == imports
    &&& text_sorted(p.imports.map_values(|i: ProtoImportView| import_text(i)))
    &&& p.members.to_multiset() == members.to_multiset()
    &&& text_sorted(p.members.map_values(|m: MemberView| member_name(m)))
}

impl ProtoPackage {
    /// The package `name`, with its imports sorted by their text and its
    /// members sorted by name.
    pub fn new(name: String, imports: Vec<ProtoImport>, members: Vec<PackageMember<Resolved>>) -> (res: ProtoPackage)
        ensures
            res@.name == name@,
            res@.imports.to_multiset() == import_views(imports@).to_multiset(),
            text_sorted(res@.imports.map_values(|i: ProtoImportView| import_text(i))),
            res@.members.to_multiset() == resolved_views(members@).to_multiset(),
            text_sorted(res@.members.map_values(|m: MemberView| member_name(m))),
    {
        let imports = sort_imports(imports);
        let members = sort_members(members);
        ProtoPackage { name, imports, members }
    }

    /// The name of the package.
    pub fn name(&self) -> (res: &String)
        ensures
            res@ == self@.name,
    {
        &self.name
    }

    /// The imports of the package, in the order it writes them.
    pub fn imports(&self) -> (res: &Vec<ProtoImport>)
        ensures
            import_views(res@) == self@.imports,
    {
        &self.imports
    }

    /// The members of the package, in the order it writes them.
    pub fn members(&self) -> (res: &Vec<PackageMember<Resolved>>)
        ensures
            resolved_views(res@) == self@.members,
    {
        &self.members
    }
}

/// The import lines of a package, each followed by an empty line.
pub open spec fn import_lines(is: Seq<ProtoImportView>) -> Seq<char>
    decreases is.len(),
{
    if is.len() == 0 {
        seq![]
    } else {
        import_lines(is.drop_last()) + import_text(is.last()) + "\n"@
    }
}

/// The members of a package, each followed by an empty line.
pub open spec fn member_lines(ms: Seq<MemberView>) -> Seq<char>
    decreases ms.len(),
{
    if ms.len() == 0 {
        seq![]
    } else {
        member_lines(ms.drop_last()) + member_text(ms.last(), 0) + "\n"@
    }
}

/// The text of the `.proto` file of a package.
pub open spec fn package_text(p: PackageView) -> Seq<char> {
    "syntax = \"proto3\";\n\n"@ + import_lines(p.imports) + "package "@ + p.name + ";\n\n"@ + member_lines(p.members)
}

impl ProtoPackage {
    /// The text of the `.proto` file of the package.
    pub fn to_string(&self) -> (res: String)
        ensures
            res@ == package_text(self@),
    {
        let mut out = String::new();
        push_str(&mut out, "syntax = \"proto3\";\n\n");
        let ghost is = import_views(self.imports@);
        let ghost head = out@;
        let mut i: usize = 0;
        assert(is.take(0) =~= Seq::<ProtoImportView>::empty());
        assert(head + import_lines(is.take(0)) =~= head);
        while i < self.imports.len()
            invariant
                i <= self.imports@.len(),
                is == import_views(self.imports@),
                out@ == head + import_lines(is.take(i as int)),
            decreases self.imports@.len() - i,
        {
            push_str(&mut out, self.imports[i].to_string().as_str());
            push_str(&mut out, "\n");
            proof {
                assert(is.take(i + 1).drop_last() =~= is.take(i as int));
                assert(is[i as int] == self.imports@[i as int]@);
            }
            i = i + 1;
            assert(out@ =~= head + import_lines(is.take(i as int)));
        }
        assert(is.take(i as int) =~= is);
        push_str(&mut out, "package ");
        push_str(&mut out, self.name.as_str());
        push_str(&mut out, ";\n\n");
        let ghost ms = resolved_views(self.members@);
        let ghost mid = out@;
        let mut j: usize = 0;
        assert(ms.take(0) =~= Seq::<MemberView>::empty());
        assert(mid + member_lines(ms.take(0)) =~= mid);
        while j < self.members.len()
            invariant
                j <= self.members@.len(),
                ms == resolved_views(self.members@),
                out@ == mid + member_lines(ms.take(j as int)),
            decreases self.members@.len() - j,
        {
            push_str(&mut out, self.members[j].display_with_tabs(0).as_str());
            push_str(&mut out, "\n");
            proof {
                assert(ms.take(j + 1).drop_last() =~= ms.take(j as int));
                assert(ms[j as int] == self.members@[j as int]@);
            }
            j = j + 1;
            assert(out@ =~= mid + member_lines(ms.take(j as int)));
        }
        assert(ms.take(j as int) =~= ms);
        assert(out@ =~= package_text(self@));
        out
    }

    /// The name of the package's `.proto` file.
    pub fn file_name(&self) -> (res: String)
        ensures
            res@ == self@.name + ".proto"@,
    {
        let mut out = copy_string(&self.name);
        push_str(&mut out, ".proto");
        out
    }
}

/// The outside types every package may refer to: protobuf's `Any`.
pub open spec fn extern_types() -> Map<Seq<char>, (Seq<char>, Seq<char>)> {
    Map::<Seq<char>, (Seq<char>, Seq<char>)>::empty().insert(
        last_name(".google.protobuf.Any"@),
        (".google.protobuf.Any"@, "google/protobuf/any.proto"@),
    )
}

/// The scope of the references made from the `i`th package.
pub open spec fn package_scope(top: Seq<(Seq<char>, Seq<MemberView>)>, ext: Map<Seq<char>, (Seq<char>, Seq<char>)>, i: int) -> Scope {
    Scope { top, ext, current: top[i].0 }
}

/// Every type name in every package resolves.
pub open spec fn packages_resolvable(top: Seq<(Seq<char>, Seq<MemberView>)>, ext: Map<Seq<char>, (Seq<char>, Seq<char>)>) -> bool {
    forall|i: int, j: int| 0 <= i < top.len() && 0 <= j < top[i].1.len()
        ==> member_resolvable(package_scope(top, ext, i), #[trigger] top[i].1[j])
}

/// The `i`th package, resolved: its members with their type names
/// rewritten, and the imports these need.
pub open spec fn resolved_package(p: PackageView, top: Seq<(Seq<char>, Seq<MemberView>)>, ext: Map<Seq<char>, (Seq<char>, Seq<char>)>, i: int) -> bool {
    is_package(
        p,
        top[i].0,
        names_imports(package_scope(top, ext, i), members_refs(top[i].1)),
        top[i].1.map_values(|m: MemberView| resolved_member(package_scope(top, ext, i), m)),
    )
}

/// Resolves the members of every package against all of them.
fn resolve_packages(map: &TopMap, ext: &ExternTypeMap) -> (res: Vec<ProtoPackage>)
    requires
        ext.wf(),
        packages_resolvable(map@, ext@),
    ensures
        res@.len() == map@.len(),
        forall|i: int| 0 <= i < map@.len() ==> resolved_package(#[trigger] res@[i]@, map@, ext@, i),
{
    let entries = map.entries();
    let ghost top = map@;
    let mut packages: Vec<ProtoPackage> = Vec::new();
    let mut i: usize = 0;
    while i < entries.len()
        invariant
            i <= entries@.len(),
            entries@.map_values(|e: (String, Vec<PackageMember<Unresolved>>)| top_entry_view(e)) == top,
            top == map@,
            ext.wf(),
            packages_resolvable(top, ext@),
            packages@.len() == i,
            forall|k: int| 0 <= k < i ==> resolved_package(#[trigger] packages@[k]@, top, ext@, k),
        decreases entries@.len() - i,
    {
        let (ns, members) = &entries[i];
        assert(top[i as int] == top_entry_view(entries@[i as int]));
        let ghost sc = package_scope(top, ext@, i as int);
        let ghost ms = top[i as int].1;
        let mut imports = ImportSet::new();
        let mut out: Vec<PackageMember<Resolved>> = Vec::new();
        let mut j: usize = 0;
        proof {
            assert(ms.take(0) =~= Seq::<MemberView>::empty());
            assert(names_imports(sc, Seq::<Seq<char>>::empty()) =~= Set::<ProtoImportView>::empty());
        }
        while j < members.len()
            invariant
                j <= members@.len(),
                member_views(members@) == ms,
                sc == crate::protobuf::resolve::scope_of(map, ext, ns@),
                ms == top[i as int].1,
                top == map@,
                i < top.len(),
                ext.wf(),
                packages_resolvable(top, ext@),
                sc == package_scope(top, ext@, i as int),
                imports.wf(),
                imports@ == names_imports(sc, members_refs(ms.take(j as int))),
                resolved_views(out@) == ms.take(j as int).map_values(|m: MemberView| resolved_member(sc, m)),
            decreases members@.len() - j,
        {
            assert(ms[j as int] == members@[j as int]@);
            assert(member_resolvable(sc, ms[j as int]));
            let ghost before = imports@;
            let ghost ov = resolved_views(out@);
            let m = members[j].resolve_ref(ns.as_str(), map, &mut imports, ext);
            let ghost mv = m@;
            out.push(m);
            proof {
                assert(ms.take(j + 1).subrange(0, j as int) =~= ms.take(j as int));
                assert(ms.take(j + 1)[j as int] == ms[j as int]);
                crate::protobuf::resolve::lemma_members_refs_step_pub(ms, j as int);
                crate::protobuf::resolve::lemma_names_imports_concat_pub(sc, members_refs(ms.take(j as int)), crate::protobuf::resolve::member_refs(ms[j as int]));
                assert(imports@ =~= names_imports(sc, members_refs(ms.take(j + 1))));
                assert(resolved_views(out@) =~= ov.push(mv));
                assert(ms.take(j + 1).map_values(|m: MemberView| resolved_member(sc, m))
                    =~= ms.take(j as int).map_values(|m: MemberView| resolved_member(sc, m)).push(resolved_member(sc, ms[j as int])));
            }
            j = j + 1;
        }
        assert(ms.take(j as int) =~= ms);
        let import_list = imports.into_vec();
        let ghost il = import_views(import_list@);
        let package = ProtoPackage::new(copy_string(ns), import_list, out);
        proof {
            let p = package@;
            il.lemma_multiset_has_no_duplicates();
            p.imports.lemma_multiset_has_no_duplicates_conv();
            assert forall|x: ProtoImportView| p.imports.to_set().contains(x) <==> il.to_set().contains(x) by {
                vstd::seq_lib::to_multiset_contains(p.imports, x);
                vstd::seq_lib::to_multiset_contains(il, x);
            }
            assert(p.imports.to_set() =~= il.to_set());
        }
        packages.push(package);
        i = i + 1;
    }
    packages
}

/// Whether every type name in every package resolves.
#[verifier::loop_isolation(false)]
fn all_resolvable(map: &TopMap, ext: &ExternTypeMap) -> (res: bool)
    requires
        ext.wf(),
    ensures
        res == packages_resolvable(map@, ext@),
{
    let entries = map.entries();
    let ghost top = map@;
    let mut i: usize = 0;
    while i < entries.len()
        invariant
            i <= entries@.len(),
            entries@.map_values(|e: (String, Vec<PackageMember<Unresolved>>)| top_entry_view(e)) == top,
            forall|a: int, b: int| 0 <= a < i && 0 <= b < top[a].1.len()
                ==> member_resolvable(package_scope(top, ext@, a), #[trigger] top[a].1[b]),
        decreases entries@.len() - i,
    {
        let (ns, members) = &entries[i];
        assert(top[i as int] == top_entry_view(entries@[i as int]));
        let mut j: usize = 0;
        while j < members.len()
            invariant
                j <= members@.len(),
                forall|a: int, b: int| 0 <= a < i && 0 <= b < top[a].1.len()
                    ==> member_resolvable(package_scope(top, ext@, a), #[trigger] top[a].1[b]),
                forall|b: int| 0 <= b < j ==> member_resolvable(package_scope(top, ext@, i as int), #[trigger] top[i as int].1[b]),
            decreases members@.len() - j,
        {
            assert(top[i as int].1[j as int] == members@[j as int]@);
            if !members[j].refs_resolve(map, ext, Ghost(ns@)) {
                assert(package_scope(top, ext@, i as int) == crate::protobuf::resolve::scope_of(map, ext, ns@));
                return false;
            }
            j = j + 1;
        }
        i = i + 1;
    }
    true
}

/// The packages generated from a dump.
pub struct ProtoPackages {
    packages: Vec<ProtoPackage>,
}

impl View for ProtoPackages {
    type V = Seq<PackageView>;

    closed spec fn view(&self) -> Seq<PackageView> {
        self.packages@.map_values(|p: ProtoPackage| p@)
    }
}

/// The members, by package, that a dump gives: the chosen members, with
/// the nested ones and the oneofs put in place, built and grouped.
pub open spec fn package_map(ds: Seq<DataStructView>, pattern: Seq<char>) -> Seq<(Seq<char>, Seq<MemberView>)> {
    let g = gathered(ds, pattern);
    let t1 = placed_all(g.top, buckets_flat(g.nested));
    let t2 = oneofs_placed(t1, g.oneof);
    packages_of(groups_flat(t2))
}

/// The dump can be turned into packages: every nested member and oneof
/// can be put in the message that declares it, every member can be built,
/// and every type name resolves.
pub open spec fn from_parsed_ok(ds: Seq<DataStructView>, pattern: Seq<char>) -> bool {
    let g = gathered(ds, pattern);
    let t1 = placed_all(g.top, buckets_flat(g.nested));
    let t2 = oneofs_placed(t1, g.oneof);
    &&& place_all_ok(g.top, buckets_flat(g.nested))
    &&& oneofs_ok(t1, g.oneof)
    &&& forall|i: int| 0 <= i < groups_flat(t2).len() ==> member_buildable(#[trigger] groups_flat(t2)[i].0)
    &&& packages_resolvable(packages_of(groups_flat(t2)), extern_types())
}

impl ProtoPackages {
    /// The packages generated from the members of a dump whose namespaces
    /// the filter matches: one per namespace, in lower case, with every
    /// type reference resolved.
    pub fn from_parsed(parsed: ParsedFile, filter_namespace: NamespaceFilter) -> (res: ProtoPackages)
        requires
            from_parsed_ok(parsed@.members, filter_namespace.pattern()),
        ensures
            res@.len() == package_map(parsed@.members, filter_namespace.pattern()).len(),
            forall|i: int| 0 <= i < res@.len() ==> resolved_package(
                #[trigger] res@[i],
                package_map(parsed@.members, filter_namespace.pattern()),
                extern_types(),
                i,
            ),
    {
        match Self::try_from_parsed(parsed, filter_namespace) {
            Some(p) => p,
            None => {
                assert(false);
                ProtoPackages { packages: Vec::new() }
            },
        }
    }

    /// The packages of [`Self::from_parsed`], or `None` for a dump that
    /// cannot be turned into packages: a nested member or oneof that no
    /// message can hold, a member that cannot be built, or a type name
    /// that refers to nothing.
    pub fn try_from_parsed(parsed: ParsedFile, filter_namespace: NamespaceFilter) -> (res: Option<ProtoPackages>)
        ensures
            res is Some <==> from_parsed_ok(parsed@.members, filter_namespace.pattern()),
            res matches Some(p) ==> {
                &&& p@.len() == package_map(parsed@.members, filter_namespace.pattern()).len()
                &&& forall|i: int| 0 <= i < p@.len() ==> resolved_package(
                    #[trigger] p@[i],
                    package_map(parsed@.members, filter_namespace.pattern()),
                    extern_types(),
                    i,
                )
            },
    {
        let mut extern_ty_map = ExternTypeMap::new();
        extern_ty_map.insert(".google.protobuf.Any".to_string(), "google/protobuf/any.proto".to_string());
        assert(extern_ty_map@ =~= extern_types());
        let (mut top, nested, oneof) = gather(parsed.members, &filter_namespace);
        let items = nested.into_vec();
        if !place_nested(&mut top, items) {
            return None;
        }
        if !place_oneofs(&mut top, oneof) {
            return None;
        }
        let flat = top.into_vec();
        if !all_buildable(&flat) {
            return None;
        }
        let map = group_packages(flat);
        if !all_resolvable(&map, &extern_ty_map) {
            return None;
        }
        let packages = resolve_packages(&map, &extern_ty_map);
        let res = ProtoPackages { packages };
        assert forall|i: int| 0 <= i < res@.len() implies res@[i] == packages@[i]@ by {}
        Some(res)
    }

    /// The packages, one per namespace.
    pub fn packages(&self) -> (res: &Vec<ProtoPackage>)
        ensures
            res@.map_values(|p: ProtoPackage| p@) == self@,
    {
        &self.packages
    }
}

} // verus!
