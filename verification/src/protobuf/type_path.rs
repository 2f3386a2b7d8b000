//! Dotted type paths, and the choice among the places a type name may refer to.

use vstd::prelude::*;

use crate::text::{
    copy_string, ends_with, has_suffix, lemma_split_char_concat, lemma_split_char_whole, push_char, push_str, split, split_char, str_eq,
};

verus! {

/// The names of a type path, outermost first.
pub struct TypePath {
    inner: Vec<String>,
}

impl View for TypePath {
    type V = Seq<Seq<char>>;

    closed spec fn view(&self) -> Seq<Seq<char>> {
        self.inner@.map_values(|s: String| s@)
    }
}

/// The names of `parts`, joined by `sep`.
pub open spec fn join(parts: Seq<Seq<char>>, sep: Seq<char>) -> Seq<char>
    decreases parts.len(),
{
    if parts.len() == 0 {
        seq![]
    } else if parts.len() == 1 {
        parts[0]
    } else {
        join(parts.drop_last(), sep) + sep + parts.last()
    }
}

/// The parts of a dotted C# type name form a type path: none is empty,
/// every part at an odd position but the last is `Types`, and a last part
/// at an odd position that is not `Types` ends in `OneofCase`.
pub open spec fn valid_type_path(ps: Seq<Seq<char>>) -> bool {
    &&& forall|i: int| 0 <= i < ps.len() ==> (#[trigger] ps[i]).len() > 0
    &&& forall|i: int| 0 <= i < ps.len() - 1 && i % 2 == 1 ==> #[trigger] ps[i] == "Types"@
    &&& ((ps.len() - 1) % 2 == 1 && ps.last() != "Types"@ ==> has_suffix(ps.last(), "OneofCase"@))
}

/// The names of a type path: the parts of the dotted name, without the
/// `Types` parts that C# puts between a class and what is nested in it.
pub open spec fn type_path_names(ps: Seq<Seq<char>>) -> Seq<Seq<char>>
    decreases ps.len(),
{
    if ps.len() == 0 {
        seq![]
    } else if (ps.len() - 1) % 2 == 1 && ps.last() == "Types"@ {
        type_path_names(ps.drop_last())
    } else {
        type_path_names(ps.drop_last()).push(ps.last())
    }
}

/// The type path a dotted C# type name denotes, if it denotes one.
pub open spec fn type_path_of(s: Seq<char>) -> Option<Seq<Seq<char>>> {
    let ps = split_char(s, '.');
    if valid_type_path(ps) {
        Some(type_path_names(ps))
    } else {
        None
    }
}

proof fn lemma_names_nonempty(ps: Seq<Seq<char>>)
    requires
        ps.len() >= 1,
    ensures
        type_path_names(ps).len() >= 1,
    decreases ps.len(),
{
    if ps.len() > 1 {
        lemma_names_nonempty(ps.drop_last());
    }
}

/// The parts of names joined by `.Types.`: each name, with `Types`
/// between two names.
pub open spec fn nested_parts(names: Seq<Seq<char>>) -> Seq<Seq<char>>
    decreases names.len(),
{
    if names.len() <= 1 {
        names
    } else {
        nested_parts(names.drop_last()) + seq!["Types"@, names.last()]
    }
}

proof fn lemma_split_nested(names: Seq<Seq<char>>)
    requires
        names.len() > 0,
        forall|i: int, j: int| 0 <= i < names.len() && 0 <= j < names[i].len() ==> #[trigger] names[i][j] != '.',
    ensures
        split_char(join(names, ".Types."@), '.') == nested_parts(names),
    decreases names.len(),
{
    if names.len() == 1 {
        lemma_split_char_whole(names[0], '.');
        assert(seq![names[0]] =~= names);
    } else {
        let init = names.drop_last();
        let last = names.last();
        lemma_split_nested(init);
        reveal_strlit(".Types.");
        reveal_strlit("Types");
        let left = join(init, ".Types."@) + seq!['.'] + "Types"@;
        assert(join(names, ".Types."@) =~= left + seq!['.'] + last);
        lemma_split_char_concat(left, last, '.');
        lemma_split_char_concat(join(init, ".Types."@), "Types"@, '.');
        assert forall|j: int| 0 <= j < "Types"@.len() implies "Types"@[j] != '.' by {}
        lemma_split_char_whole("Types"@, '.');
        assert forall|j: int| 0 <= j < last.len() implies last[j] != '.' by {
            assert(names[names.len() - 1][j] != '.');
        }
        lemma_split_char_whole(last, '.');
        assert(nested_parts(init) + seq!["Types"@] + seq![last] =~= nested_parts(names));
    }
}

proof fn lemma_nested_parts(names: Seq<Seq<char>>)
    requires
        names.len() > 0,
    ensures
        nested_parts(names).len() == 2 * names.len() - 1,
        forall|i: int| 0 <= i < nested_parts(names).len() && i % 2 == 1 ==> #[trigger] nested_parts(names)[i] == "Types"@,
        forall|i: int| 0 <= i < nested_parts(names).len() && i % 2 == 0 ==> #[trigger] nested_parts(names)[i] == names[i / 2],
        type_path_names(nested_parts(names)) == names,
    decreases names.len(),
{
    if names.len() == 1 {
        assert(type_path_names(names.drop_last()) =~= Seq::<Seq<char>>::empty());
        assert(type_path_names(names) =~= names);
    } else {
        let init = names.drop_last();
        lemma_nested_parts(init);
        let q = nested_parts(init);
        let p = nested_parts(names);
        assert(p =~= q + seq!["Types"@, names.last()]);
        assert forall|i: int| 0 <= i < p.len() && i % 2 == 0 implies #[trigger] p[i] == names[i / 2] by {
            if i < q.len() {
                assert(p[i] == q[i]);
                assert(q[i] == init[i / 2]);
            } else {
                assert(i == 2 * names.len() - 2);
                assert(i / 2 == names.len() - 1);
            }
        }
        assert forall|i: int| 0 <= i < p.len() && i % 2 == 1 implies #[trigger] p[i] == "Types"@ by {
            if i < q.len() {
                assert(p[i] == q[i]);
            }
        }
        assert(p.drop_last() =~= q + seq!["Types"@]);
        assert(p.drop_last().drop_last() =~= q);
        assert(type_path_names(p.drop_last()) == type_path_names(q));
        assert(type_path_names(p) =~= init.push(names.last()));
        assert(init.push(names.last()) =~= names);
    }
}

/// The dotted name C# gives a nested type, its names joined by `.Types.`,
/// reads back as those names, so it is joined by dots as the names are.
pub proof fn lemma_nested_name_round_trip(names: Seq<Seq<char>>)
    requires
        names.len() > 0,
        forall|i: int| 0 <= i < names.len() ==> (#[trigger] names[i]).len() > 0,
        forall|i: int, j: int| 0 <= i < names.len() && 0 <= j < names[i].len() ==> #[trigger] names[i][j] != '.',
    ensures
        type_path_of(join(names, ".Types."@)) == Some(names),
        join(type_path_of(join(names, ".Types."@)).unwrap(), "."@) == join(names, "."@),
{
    lemma_split_nested(names);
    lemma_nested_parts(names);
    let ps = nested_parts(names);
    reveal_strlit("Types");
    assert forall|i: int| 0 <= i < ps.len() implies (#[trigger] ps[i]).len() > 0 by {
        if i % 2 == 1 {
            assert(ps[i] == "Types"@);
        } else {
            assert(ps[i] == names[i / 2]);
        }
    }
    assert((ps.len() - 1) % 2 == 0);
    assert(valid_type_path(ps));
}

/// A type path has at least one name.
pub proof fn lemma_type_path_nonempty(s: Seq<char>)
    requires
        type_path_of(s) is Some,
    ensures
        type_path_of(s).unwrap().len() > 0,
{
    crate::text::lemma_split_char_len(s, '.');
    lemma_names_nonempty(split_char(s, '.'));
}

proof fn lemma_names_step(ps: Seq<Seq<char>>, i: int)
    requires
        0 <= i < ps.len(),
    ensures
        type_path_names(ps.take(i + 1)) == if i % 2 == 1 && ps[i] == "Types"@ {
            type_path_names(ps.take(i))
        } else {
            type_path_names(ps.take(i)).push(ps[i])
        },
{
    assert(ps.take(i + 1).drop_last() =~= ps.take(i));
}

impl TypePath {
    /// The path of the names from `start` up to, not including, `end`.
    pub fn index_range(self, start: usize, end: usize) -> (res: TypePath)
        requires
            start <= end <= self@.len(),
        ensures
            res@ == self@.subrange(start as int, end as int),
    {
        let mut inner: Vec<String> = Vec::new();
        let mut i: usize = start;
        while i < end
            invariant
                start <= i <= end,
                end <= self.inner@.len(),
                inner@.len() == i - start,
                forall|j: int| 0 <= j < i - start ==> #[trigger] inner@[j]@ == self.inner@[start + j]@,
            decreases end - i,
        {
            inner.push(copy_string(&self.inner[i]));
            i = i + 1;
        }
        let res = TypePath { inner };
        assert(res@ =~= self@.subrange(start as int, end as int));
        res
    }

    /// The names, joined by dots.
    pub fn joined(&self) -> (res: String)
        ensures
            res@ == join(self@, "."@),
    {
        let ghost v = self@;
        let mut res = String::new();
        let mut i: usize = 0;
        proof { reveal_strlit("."); }
        assert(v.take(0) =~= Seq::<Seq<char>>::empty());
        while i < self.inner.len()
            invariant
                i <= self.inner@.len(),
                v == self@,
                v.len() == self.inner@.len(),
                res@ == join(v.take(i as int), "."@),
                "."@ == seq!['.'],
            decreases self.inner@.len() - i,
        {
            assert(v.take(i + 1).drop_last() =~= v.take(i as int));
            assert(v[i as int] == self.inner@[i as int]@);
            if i > 0 {
                push_char(&mut res, '.');
            }
            push_str(&mut res, self.inner[i].as_str());
            proof {
                if i == 0 {
                    assert(res@ =~= v.take(1)[0]);
                } else {
                    assert(res@ =~= join(v.take(i as int), "."@) + "."@ + v.take(i + 1).last());
                }
            }
            i = i + 1;
        }
        assert(v.take(i as int) =~= v);
        res
    }

    /// The names.
    pub fn as_slice(&self) -> (res: &Vec<String>)
        ensures
            res@.map_values(|s: String| s@) == self@,
    {
        &self.inner
    }

    /// The path has at least two names.
    pub fn is_nested(&self) -> (res: bool)
        ensures
            res == (self@.len() >= 2),
    {
        self.inner.len() >= 2
    }

    /// The path has no name.
    pub fn is_empty(&self) -> (res: bool)
        ensures
            res == (self@.len() == 0),
    {
        self.inner.len() == 0
    }

    /// The last name ends in `OneofCase`.
    pub fn is_onecase(&self) -> (res: bool)
        requires
            self@.len() > 0,
        ensures
            res == has_suffix(self@.last(), "OneofCase"@),
    {
        let n = self.inner.len();
        ends_with(self.inner[n - 1].as_str(), "OneofCase")
    }

    /// The names, owned.
    pub fn to_owned(&self) -> (res: Vec<String>)
        ensures
            res@.map_values(|s: String| s@) == self@,
    {
        let mut res: Vec<String> = Vec::new();
        let mut i: usize = 0;
        while i < self.inner.len()
            invariant
                i <= self.inner@.len(),
                res@.len() == i,
                forall|j: int| 0 <= j < i ==> #[trigger] res@[j]@ == self.inner@[j]@,
            decreases self.inner@.len() - i,
        {
            res.push(copy_string(&self.inner[i]));
            i = i + 1;
        }
        assert(res@.map_values(|s: String| s@) =~= self@);
        res
    }

    /// The path of the given names.
    pub fn from(value: &Vec<String>) -> (res: TypePath)
        ensures
            res@ == value@.map_values(|s: String| s@),
    {
        let mut inner: Vec<String> = Vec::new();
        let mut i: usize = 0;
        while i < value.len()
            invariant
                i <= value@.len(),
                inner@.len() == i,
                forall|j: int| 0 <= j < i ==> #[trigger] inner@[j]@ == value@[j]@,
            decreases value@.len() - i,
        {
            inner.push(copy_string(&value[i]));
            i = i + 1;
        }
        let res = TypePath { inner };
        assert(res@ =~= value@.map_values(|s: String| s@));
        res
    }

    /// The name at position `index`.
    pub fn index(&self, index: usize) -> (res: &String)
        requires
            index < self@.len(),
        ensures
            res@ == self@[index as int],
    {
        &self.inner[index]
    }

    /// The type path a dotted C# type name denotes, or `Err`.
    pub fn try_from_str(s: &str) -> (res: Result<TypePath, ()>)
        ensures
            match res {
                Ok(p) => type_path_of(s@) == Some(p@),
                Err(_) => type_path_of(s@) is None,
            },
    {
        let parts = split(s, '.');
        let ghost ps = split_char(s@, '.');
        assert(parts@.map_values(|p: String| p@) =~= ps);
        let mut inner: Vec<String> = Vec::new();
        let mut wrong = false;
        let mut i: usize = 0;
        assert(ps.take(0) =~= Seq::<Seq<char>>::empty());
        while i < parts.len()
            invariant
                i <= parts@.len(),
                ps == parts@.map_values(|p: String| p@),
                ps == split_char(s@, '.'),
                inner@.map_values(|p: String| p@) == type_path_names(ps.take(i as int)),
                forall|j: int| 0 <= j < i ==> (#[trigger] ps[j]).len() > 0,
                forall|j: int| 0 <= j < i && j % 2 == 1 && !(wrong && j == i - 1) ==> #[trigger] ps[j] == "Types"@,
                wrong ==> i > 0 && (i - 1) % 2 == 1 && ps[i - 1] != "Types"@,
            decreases parts@.len() - i,
        {
            let part = &parts[i];
            assert(ps[i as int] == part@);
            let empty = chars_count(part) == 0;
            if wrong || empty {
                proof {
                    if wrong {
                        assert(!(0 <= i - 1 < ps.len() - 1 && (i - 1) % 2 == 1 ==> ps[i - 1] == "Types"@));
                    } else {
                        assert(ps[i as int].len() == 0);
                    }
                }
                return Err(());
            }
            proof { lemma_names_step(ps, i as int); }
            if i % 2 == 1 {
                if str_eq(part.as_str(), "Types") {
                    i = i + 1;
                    continue;
                }
                wrong = true;
            }
            inner.push(copy_string(part));
            assert(inner@.map_values(|p: String| p@) =~= type_path_names(ps.take(i + 1)));
            i = i + 1;
        }
        assert(ps.take(i as int) =~= ps);
        let path = TypePath { inner };
        proof {
            crate::text::lemma_split_char_len(s@, '.');
        }
        if wrong {
            assert(path@ == type_path_names(ps));
            assert(type_path_names(ps).last() == ps.last());
            if !path.is_onecase() {
                return Err(());
            }
        }
        Ok(path)
    }
}

/// The number of characters of a string.
fn chars_count(s: &String) -> (res: usize)
    ensures
        res == s@.len(),
{
    crate::text::chars_of(s.as_str()).len()
}

/// Where a type name may refer to: an outside type (its full path and its
/// import), or a type of a local package.
pub enum PathKind {
    Extern(String, String),
    Local(String),
}

/// The mathematical value of a [`PathKind`].
pub enum PathKindView {
    Extern(Seq<char>, Seq<char>),
    Local(Seq<char>),
}

impl View for PathKind {
    type V = PathKindView;

    open spec fn view(&self) -> PathKindView {
        match self {
            PathKind::Extern(a, b) => PathKindView::Extern(a@, b@),
            PathKind::Local(a) => PathKindView::Local(a@),
        }
    }
}

impl PathKind {
    /// A copy of the place.
    pub fn duplicate(&self) -> (res: PathKind)
        ensures
            res@ == self@,
    {
        match self {
            PathKind::Extern(a, b) => PathKind::Extern(copy_string(a), copy_string(b)),
            PathKind::Local(a) => PathKind::Local(copy_string(a)),
        }
    }
}

/// How close a place is to the namespace a reference is made from: a local
/// namespace sharing some leading names, an outside type, or the very namespace.
#[derive(Clone, Copy, Debug, PartialEq, Eq, Structural)]
pub enum PathSim {
    Sim(usize),
    Ext,
    Eq,
}

/// The number of leading names that two name sequences share.
pub open spec fn common_prefix_len(a: Seq<Seq<char>>, b: Seq<Seq<char>>) -> nat
    decreases a.len(),
{
    if a.len() == 0 || b.len() == 0 || a[0] != b[0] {
        0
    } else {
        1 + common_prefix_len(a.drop_first(), b.drop_first())
    }
}

/// The number of leading dotted names two namespaces share.
pub open spec fn namespace_similarity(n: Seq<char>, n2: Seq<char>) -> nat {
    common_prefix_len(split_char(n, '.'), split_char(n2, '.'))
}

proof fn lemma_common_prefix(a: Seq<Seq<char>>, b: Seq<Seq<char>>, k: int)
    requires
        0 <= k <= a.len(),
        k <= b.len(),
        forall|j: int| 0 <= j < k ==> a[j] == b[j],
    ensures
        common_prefix_len(a, b) == k + common_prefix_len(a.skip(k), b.skip(k)),
    decreases k,
{
    if k > 0 {
        lemma_common_prefix(a.drop_first(), b.drop_first(), k - 1);
        assert(a.drop_first().skip(k - 1) =~= a.skip(k));
        assert(b.drop_first().skip(k - 1) =~= b.skip(k));
    } else {
        assert(a.skip(0) =~= a);
        assert(b.skip(0) =~= b);
    }
}

/// The number of leading dotted names two namespaces share.
pub fn calc_namespace_similarity(n: &str, n2: &str) -> (res: usize)
    ensures
        res == namespace_similarity(n@, n2@),
{
    let a = split(n, '.');
    let b = split(n2, '.');
    let ghost av = split_char(n@, '.');
    let ghost bv = split_char(n2@, '.');
    let mut k: usize = 0;
    while k < a.len() && k < b.len() && str_eq(a[k].as_str(), b[k].as_str())
        invariant
            k <= a@.len(),
            k <= b@.len(),
            a@.len() == av.len(),
            b@.len() == bv.len(),
            forall|j: int| 0 <= j < a@.len() ==> #[trigger] a@[j]@ == av[j],
            forall|j: int| 0 <= j < b@.len() ==> #[trigger] b@[j]@ == bv[j],
            forall|j: int| 0 <= j < k ==> av[j] == bv[j],
        decreases a@.len() - k,
    {
        k = k + 1;
    }
    proof {
        lemma_common_prefix(av, bv, k as int);
        if k < a@.len() && k < b@.len() {
            assert(av.skip(k as int)[0] == av[k as int]);
            assert(bv.skip(k as int)[0] == bv[k as int]);
        }
    }
    k
}

/// The closeness of a place to the namespace `current`.
pub open spec fn path_sim(path: PathKindView, current: Seq<char>) -> PathSim {
    match path {
        PathKindView::Extern(_, _) => PathSim::Ext,
        PathKindView::Local(n) => if n == current {
            PathSim::Eq
        } else {
            PathSim::Sim(namespace_similarity(n, current) as usize)
        },
    }
}

/// The rank of a closeness: more shared names rank higher, an outside type
/// above any local namespace but the current one, and the current one highest.
pub open spec fn sim_rank(s: PathSim) -> int {
    match s {
        PathSim::Sim(n) => n as int,
        PathSim::Ext => usize::MAX + 1,
        PathSim::Eq => usize::MAX + 2,
    }
}

impl PathSim {
    /// 0 for a local namespace, 1 for an outside type, 2 for the current namespace.
    pub fn value(&self) -> (res: u8)
        ensures
            res == match self {
                PathSim::Sim(_) => 0u8,
                PathSim::Ext => 1u8,
                PathSim::Eq => 2u8,
            },
    {
        match self {
            PathSim::Sim(_) => 0,
            PathSim::Ext => 1,
            PathSim::Eq => 2,
        }
    }

    /// The two closenesses have the same rank.
    pub fn same_rank(&self, other: &PathSim) -> (res: bool)
        ensures
            res == (sim_rank(*self) == sim_rank(*other)),
    {
        match (self, other) {
            (PathSim::Sim(a), PathSim::Sim(b)) => *a == *b,
            _ => self.value() == other.value(),
        }
    }

    /// This closeness ranks below `other`.
    pub fn ranks_below(&self, other: &PathSim) -> (res: bool)
        ensures
            res == (sim_rank(*self) < sim_rank(*other)),
    {
        match (self, other) {
            (PathSim::Sim(a), PathSim::Sim(b)) => *a < *b,
            _ => self.value() < other.value(),
        }
    }

    /// The closeness of `path` to the namespace `current_namespace`.
    pub fn sim(path: &PathKind, current_namespace: &str) -> (res: PathSim)
        ensures
            res == path_sim(path@, current_namespace@),
    {
        match path {
            PathKind::Extern(_, _) => PathSim::Ext,
            PathKind::Local(n) => {
                if str_eq(n.as_str(), current_namespace) {
                    return PathSim::Eq;
                }
                PathSim::Sim(calc_namespace_similarity(n.as_str(), current_namespace))
            },
        }
    }

}

/// `a` comes before `b` in the order of strings (by character codes, which
/// is the byte order of their UTF-8 encodings).
pub open spec fn text_lt(a: Seq<char>, b: Seq<char>) -> bool
    decreases a.len(),
{
    if a.len() == 0 {
        b.len() > 0
    } else if b.len() == 0 {
        false
    } else if a[0] == b[0] {
        text_lt(a.drop_first(), b.drop_first())
    } else {
        a[0] < b[0]
    }
}

/// `a` comes before `b`, or is `b`, in the order of strings.
pub open spec fn text_le(a: Seq<char>, b: Seq<char>) -> bool {
    a == b || text_lt(a, b)
}

proof fn lemma_text_lt_skip(a: Seq<char>, b: Seq<char>, k: int)
    requires
        0 <= k <= a.len(),
        k <= b.len(),
        forall|j: int| 0 <= j < k ==> a[j] == b[j],
    ensures
        text_lt(a, b) == text_lt(a.skip(k), b.skip(k)),
    decreases k,
{
    if k > 0 {
        lemma_text_lt_skip(a.drop_first(), b.drop_first(), k - 1);
        assert(a.drop_first().skip(k - 1) =~= a.skip(k));
        assert(b.drop_first().skip(k - 1) =~= b.skip(k));
    } else {
        assert(a.skip(0) =~= a);
        assert(b.skip(0) =~= b);
    }
}

/// `a` comes before `b` in the order of strings.
pub fn text_less(a: &str, b: &str) -> (res: bool)
    ensures
        res == text_lt(a@, b@),
{
    let ca = crate::text::chars_of(a);
    let cb = crate::text::chars_of(b);
    let mut k: usize = 0;
    while k < ca.len() && k < cb.len() && ca[k] == cb[k]
        invariant
            ca@ == a@,
            cb@ == b@,
            k <= ca@.len(),
            k <= cb@.len(),
            forall|j: int| 0 <= j < k ==> a@[j] == b@[j],
        decreases ca@.len() - k,
    {
        k = k + 1;
    }
    proof { lemma_text_lt_skip(a@, b@, k as int); }
    if k == ca.len() {
        k < cb.len()
    } else if k == cb.len() {
        false
    } else {
        ca[k] < cb[k]
    }
}

pub proof fn lemma_text_lt_total(a: Seq<char>, b: Seq<char>)
    ensures
        a == b || text_lt(a, b) || text_lt(b, a),
        !(text_lt(a, b) && text_lt(b, a)),
        !text_lt(a, a),
    decreases a.len(),
{
    if a.len() > 0 && b.len() > 0 && a[0] == b[0] {
        lemma_text_lt_total(a.drop_first(), b.drop_first());
        if a.drop_first() == b.drop_first() {
            assert forall|j: int| 0 <= j < a.len() implies a[j] == b[j] by {
                if j > 0 {
                    assert(a[j] == a.drop_first()[j - 1]);
                    assert(b[j] == b.drop_first()[j - 1]);
                }
            }
            assert(a =~= b);
        }
    }
    if a.len() > 0 {
        lemma_text_lt_total(a.drop_first(), a.drop_first());
    }
    if a.len() == 0 && b.len() == 0 {
        assert(a =~= b);
    }
}

pub proof fn lemma_text_lt_trans(a: Seq<char>, b: Seq<char>, c: Seq<char>)
    requires
        text_lt(a, b),
        text_lt(b, c),
    ensures
        text_lt(a, c),
    decreases a.len(),
{
    if a.len() > 0 && b.len() > 0 && c.len() > 0 && a[0] == b[0] && b[0] == c[0] {
        lemma_text_lt_trans(a.drop_first(), b.drop_first(), c.drop_first());
    }
}

/// The name a place is known by.
pub open spec fn path_name(p: PathKindView) -> Seq<char> {
    match p {
        PathKindView::Extern(n, _) => n,
        PathKindView::Local(n) => n,
    }
}

/// Place `r` is the one chosen among `paths` for a reference made from the
/// namespace `current`: the closest, then the first by name, then the first.
pub open spec fn is_closest(paths: Seq<PathKindView>, current: Seq<char>, r: int) -> bool {
    &&& 0 <= r < paths.len()
    &&& forall|j: int| 0 <= j < paths.len() ==> sim_rank(path_sim(#[trigger] paths[j], current)) <= sim_rank(path_sim(paths[r], current))
    &&& forall|j: int| 0 <= j < paths.len() && sim_rank(path_sim(#[trigger] paths[j], current)) == sim_rank(path_sim(paths[r], current))
        ==> text_le(path_name(paths[r]), path_name(paths[j]))
    &&& forall|j: int| 0 <= j < r && sim_rank(path_sim(#[trigger] paths[j], current)) == sim_rank(path_sim(paths[r], current))
        ==> path_name(paths[j]) != path_name(paths[r])
}

/// The place chosen among `paths` for a reference made from the namespace
/// `current_namespace`: the closest, then the first by name, then the first.
pub fn find_closest<'a>(paths: &'a Vec<PathKind>, current_namespace: &str) -> (res: &'a PathKind)
    requires
        paths@.len() > 0,
    ensures
        exists|r: int| is_closest(paths@.map_values(|p: PathKind| p@), current_namespace@, r) && *res == paths@[r],
{
    let ghost vs = paths@.map_values(|p: PathKind| p@);
    let mut best: usize = 0;
    let mut best_sim = PathSim::sim(&paths[0], current_namespace);
    let mut i: usize = 1;
    while i < paths.len()
        invariant
            1 <= i <= paths@.len(),
            vs == paths@.map_values(|p: PathKind| p@),
            best < i,
            best_sim == path_sim(vs[best as int], current_namespace@),
            is_closest(vs.take(i as int), current_namespace@, best as int),
        decreases paths@.len() - i,
    {
        let sim = PathSim::sim(&paths[i], current_namespace);
        assert(vs[i as int] == paths@[i as int]@);
        let ghost bn = path_name(vs[best as int]);
        let ghost pn = path_name(vs[i as int]);
        if sim.same_rank(&best_sim) {
            let earlier = match (&paths[i], &paths[best]) {
                (PathKind::Extern(n, _), PathKind::Extern(m, _)) => text_less(n.as_str(), m.as_str()),
                (PathKind::Extern(n, _), PathKind::Local(m)) => text_less(n.as_str(), m.as_str()),
                (PathKind::Local(n), PathKind::Extern(m, _)) => text_less(n.as_str(), m.as_str()),
                (PathKind::Local(n), PathKind::Local(m)) => text_less(n.as_str(), m.as_str()),
            };
            proof { lemma_text_lt_total(pn, bn); }
            if earlier {
                proof {
                    assert forall|j: int| 0 <= j < i && sim_rank(path_sim(#[trigger] vs[j], current_namespace@))
                        == sim_rank(path_sim(vs[i as int], current_namespace@)) implies text_le(pn, path_name(vs[j])) by {
                        assert(vs.take(i as int)[j] == vs[j]);
                        if path_name(vs[j]) != bn {
                            lemma_text_lt_trans(pn, bn, path_name(vs[j]));
                        }
                    }
                    assert forall|j: int| 0 <= j < i && sim_rank(path_sim(#[trigger] vs[j], current_namespace@))
                        == sim_rank(path_sim(vs[i as int], current_namespace@)) implies path_name(vs[j]) != pn by {
                        assert(vs.take(i as int)[j] == vs[j]);
                        lemma_text_lt_total(pn, path_name(vs[j]));
                        if path_name(vs[j]) != bn {
                            lemma_text_lt_trans(pn, bn, path_name(vs[j]));
                        }
                    }
                }
                best = i;
                best_sim = sim;
            }
        } else if best_sim.ranks_below(&sim) {
            best = i;
            best_sim = sim;
            proof {
                assert forall|j: int| 0 <= j < i implies sim_rank(path_sim(#[trigger] vs[j], current_namespace@))
                    < sim_rank(path_sim(vs[i as int], current_namespace@)) by {
                    assert(vs.take(i as int)[j] == vs[j]);
                }
            }
        }
        proof {
            let t = vs.take(i + 1);
            assert forall|j: int| 0 <= j < t.len() implies #[trigger] t[j] == vs[j] by {}
            assert forall|j: int| 0 <= j < i implies #[trigger] vs.take(i as int)[j] == vs[j] by {}
            lemma_text_lt_total(path_name(vs[best as int]), path_name(vs[best as int]));
        }
        i = i + 1;
    }
    assert(vs.take(i as int) =~= vs);
    &paths[best]
}

} // verus!
