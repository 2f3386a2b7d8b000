//! The imports of a package, and the outside types a package may refer to.

use vstd::prelude::*;

use crate::names::NameMap;
use crate::text::{copy_string, push_str, split, split_char, str_eq};

verus! {

/// An import of a `.proto` file: an outside file, or the file of a local package.
pub enum ProtoImport {
    External(String),
    Local(String),
}

/// The mathematical value of a [`ProtoImport`].
pub enum ProtoImportView {
    External(Seq<char>),
    Local(Seq<char>),
}

impl View for ProtoImport {
    type V = ProtoImportView;

    open spec fn view(&self) -> ProtoImportView {
        match self {
            ProtoImport::External(s) => ProtoImportView::External(s@),
            ProtoImport::Local(s) => ProtoImportView::Local(s@),
        }
    }
}

/// The line that declares an import, with its line break.
pub open spec fn import_text(i: ProtoImportView) -> Seq<char> {
    match i {
        ProtoImportView::External(s) => "import \""@ + s + "\";\n"@,
        ProtoImportView::Local(s) => "import \""@ + s + ".proto\";\n"@,
    }
}

impl ProtoImport {
    /// The line that declares the import, with its line break.
    pub fn to_string(&self) -> (res: String)
        ensures
            res@ == import_text(self@),
    {
        let mut res = String::new();
        push_str(&mut res, "import \"");
        match self {
            ProtoImport::External(s) => {
                push_str(&mut res, s.as_str());
                push_str(&mut res, "\";\n");
            },
            ProtoImport::Local(s) => {
                push_str(&mut res, s.as_str());
                push_str(&mut res, ".proto\";\n");
            },
        }
        res
    }

    /// A copy of the import.
    pub fn duplicate(&self) -> (res: ProtoImport)
        ensures
            res@ == self@,
    {
        match self {
            ProtoImport::External(s) => ProtoImport::External(copy_string(s)),
            ProtoImport::Local(s) => ProtoImport::Local(copy_string(s)),
        }
    }

    /// The two imports are the same.
    pub fn same(&self, other: &ProtoImport) -> (res: bool)
        ensures
            res == (self@ == other@),
    {
        match (self, other) {
            (ProtoImport::External(a), ProtoImport::External(b)) => str_eq(a.as_str(), b.as_str()),
            (ProtoImport::Local(a), ProtoImport::Local(b)) => str_eq(a.as_str(), b.as_str()),
            _ => false,
        }
    }
}

/// The views of a sequence of imports.
pub open spec fn import_views(s: Seq<ProtoImport>) -> Seq<ProtoImportView> {
    s.map_values(|i: ProtoImport| i@)
}

/// A set of imports, each held once.
pub struct ImportSet {
    items: Vec<ProtoImport>,
}

impl View for ImportSet {
    type V = Set<ProtoImportView>;

    closed spec fn view(&self) -> Set<ProtoImportView> {
        import_views(self.items@).to_set()
    }
}

impl ImportSet {
    /// No import is held twice.
    pub closed spec fn wf(&self) -> bool {
        import_views(self.items@).no_duplicates()
    }

    /// The set with no import.
    pub fn new() -> (res: ImportSet)
        ensures
            res.wf(),
            res@ == Set::<ProtoImportView>::empty(),
    {
        let res = ImportSet { items: Vec::new() };
        assert(import_views(res.items@) =~= Seq::<ProtoImportView>::empty());
        assert(res@ =~= Set::<ProtoImportView>::empty());
        res
    }

    /// The set holds `i`.
    pub fn contains(&self, i: &ProtoImport) -> (res: bool)
        ensures
            res == self@.contains(i@),
    {
        let ghost vs = import_views(self.items@);
        let mut k: usize = 0;
        while k < self.items.len()
            invariant
                k <= self.items@.len(),
                vs == import_views(self.items@),
                forall|j: int| 0 <= j < k ==> vs[j] != i@,
            decreases self.items@.len() - k,
        {
            if self.items[k].same(i) {
                assert(vs[k as int] == i@);
                return true;
            }
            k = k + 1;
        }
        proof {
            if vs.to_set().contains(i@) {
                let j = choose|j: int| 0 <= j < vs.len() && vs[j] == i@;
                assert(vs[j] == i@);
            }
        }
        false
    }

    /// Adds `i` to the set.
    pub fn insert(&mut self, i: ProtoImport)
        requires
            old(self).wf(),
        ensures
            final(self).wf(),
            final(self)@ == old(self)@.insert(i@),
    {
        if self.contains(&i) {
            assert(old(self)@.insert(i@) =~= old(self)@);
            return;
        }
        let ghost iv = i@;
        let ghost old_vs = import_views(self.items@);
        self.items.push(i);
        proof {
            let vs = import_views(self.items@);
            assert(vs =~= old_vs.push(iv));
            assert forall|a: int, b: int| 0 <= a < vs.len() && 0 <= b < vs.len() && a != b implies vs[a] != vs[b] by {
                if a < old_vs.len() && b < old_vs.len() {
                    assert(vs[a] == old_vs[a]);
                    assert(vs[b] == old_vs[b]);
                } else if a < old_vs.len() {
                    assert(old_vs.contains(vs[a]));
                } else {
                    assert(old_vs.contains(vs[b]));
                }
            }
            assert forall|x: ProtoImportView| vs.to_set().contains(x) <==> old_vs.to_set().insert(iv).contains(x) by {
                if vs.contains(x) {
                    let j = choose|j: int| 0 <= j < vs.len() && vs[j] == x;
                    if j < old_vs.len() {
                        assert(old_vs[j] == x);
                    }
                }
                if old_vs.contains(x) {
                    let j = choose|j: int| 0 <= j < old_vs.len() && old_vs[j] == x;
                    assert(vs[j] == x);
                }
                if x == iv {
                    assert(vs[old_vs.len() as int] == x);
                }
            }
            assert(vs.to_set() =~= old_vs.to_set().insert(iv));
        }
    }

    /// The imports, each once, in the order they were first added.
    pub fn into_vec(self) -> (res: Vec<ProtoImport>)
        requires
            self.wf(),
        ensures
            import_views(res@).to_set() == self@,
            import_views(res@).no_duplicates(),
    {
        self.items
    }
}

/// The outside types a package may refer to: from the last name of a type
/// to its full path and the file to import for it.
pub struct ExternTypeMap {
    map: NameMap<(String, String)>,
}

/// The last dotted name of a path.
pub open spec fn last_name(s: Seq<char>) -> Seq<char> {
    split_char(s, '.').last()
}

impl View for ExternTypeMap {
    type V = Map<Seq<char>, (Seq<char>, Seq<char>)>;

    closed spec fn view(&self) -> Map<Seq<char>, (Seq<char>, Seq<char>)> {
        self.map.map()
    }
}

impl ExternTypeMap {
    /// The entries have distinct keys.
    pub closed spec fn wf(&self) -> bool {
        self.map.wf()
    }

    /// The map with no outside type.
    pub fn new() -> (res: ExternTypeMap)
        ensures
            res.wf(),
            res@ == Map::<Seq<char>, (Seq<char>, Seq<char>)>::empty(),
    {
        ExternTypeMap { map: NameMap::new() }
    }

    /// Adds the outside type of full path `fully_qualified_path`, to be
    /// imported from `import_path`, under the last name of its path.
    pub fn insert(&mut self, fully_qualified_path: String, import_path: String)
        requires
            old(self).wf(),
        ensures
            final(self).wf(),
            final(self)@ == old(self)@.insert(
                last_name(fully_qualified_path@),
                (fully_qualified_path@, import_path@),
            ),
    {
        let parts = split(fully_qualified_path.as_str(), '.');
        proof { crate::text::lemma_split_char_len(fully_qualified_path@, '.'); }
        let n = parts.len();
        let k = copy_string(&parts[n - 1]);
        self.map.insert(k, (fully_qualified_path, import_path));
    }

    /// The full path and import of the outside type whose last name is `ty`.
    pub fn get(&self, ty: &str) -> (res: Option<&(String, String)>)
        requires
            self.wf(),
        ensures
            match res {
                Some(v) => self@.contains_key(ty@) && self@[ty@] == (v.0@, v.1@),
                None => !self@.contains_key(ty@),
            },
    {
        self.map.get(ty)
    }
}

/// An outside type added to the map is found again under the last name
/// of its path, with its path and import.
pub proof fn lemma_extern_found_after_insert(
    m: Map<Seq<char>, (Seq<char>, Seq<char>)>,
    path: Seq<char>,
    import: Seq<char>,
)
    ensures
        m.insert(last_name(path), (path, import)).contains_key(last_name(path)),
        m.insert(last_name(path), (path, import))[last_name(path)] == (path, import),
{
}

/// Adding an import that the set holds changes nothing.
pub proof fn lemma_import_again(s: Set<ProtoImportView>, i: ProtoImportView)
    requires
        s.contains(i),
    ensures
        s.insert(i) == s,
{
    assert(s.insert(i) =~= s);
}

} // verus!
