//! The module tree of the generated protocol code: packages become nested
//! modules, and every message gets an entry in a map from its type URL to
//! its decoder, built with `phf_codegen`.

use vstd::prelude::*;

use crate::protobuf::type_path::join;
use crate::parser::data_structs::string_option_view;
use crate::text::{copy_string, push_char, push_str, split, split_char, str_eq, string_views};
use crate::vecs::{lemma_reversed_rest, reversed};

verus! {

#[verifier::external_type_specification]
#[verifier::external_body]
#[verifier::reject_recursive_types(K)]
pub struct ExPhfMap<K>(phf_codegen::Map<K>);

/// The entries of a `phf_codegen::Map` builder: keys and value code, in the
/// order they were added.
pub uninterp spec fn phf_entries(m: phf_codegen::Map<String>) -> Seq<(Seq<char>, Seq<char>)>;

/// Calls `phf_codegen::Map::new`: a builder with no entry.
#[verifier::external_body]
fn phf_map_new() -> (res: phf_codegen::Map<String>)
    ensures
        phf_entries(res) == Seq::<(Seq<char>, Seq<char>)>::empty(),
{
    phf_codegen::Map::new()
}

/// Calls `phf_codegen::Map::entry`, which appends the key and the value
/// code to the builder.
#[verifier::external_body]
fn phf_map_entry(m: &mut phf_codegen::Map<String>, key: String, value: &str)
    ensures
        phf_entries(*final(m)) == phf_entries(*old(m)).push((key@, value@)),
{
    m.entry(key, value);
}

/// How the `Display` text of a built `phf_codegen` map starts, with the
/// default path to the `phf` crate.
pub open spec fn phf_map_head() -> Seq<char> {
    "::phf::Map {\n    key: "@
}

/// The `{:?}` text of a `String` (`<str as Debug>::fmt`): the string in
/// double quotes, with its characters escaped as `char::escape_debug` does.
pub uninterp spec fn debug_text(s: Seq<char>) -> Seq<char>;

/// The line of one entry in the `phf` code of a map, from the key's `{:?}`
/// text and the value code.
pub open spec fn phf_entry_text(e: (Seq<char>, Seq<char>)) -> Seq<char> {
    "\n        ("@ + e.0 + ", "@ + e.1 + "),"@
}

/// The entries with each key replaced by its `{:?}` text.
pub open spec fn shown_entries(es: Seq<(Seq<char>, Seq<char>)>) -> Seq<(Seq<char>, Seq<char>)> {
    es.map_values(|e: (Seq<char>, Seq<char>)| (debug_text(e.0), e.1))
}

/// The lines of the entries taken in the order `order`.
pub open spec fn phf_entries_text(es: Seq<(Seq<char>, Seq<char>)>, order: Seq<int>) -> Seq<char>
    decreases order.len(),
{
    if order.len() == 0 {
        seq![]
    } else {
        phf_entries_text(es, order.drop_last()) + phf_entry_text(es[order.last()])
    }
}

/// `order` puts the positions of `n` entries in some order, each once.
pub open spec fn is_order(order: Seq<int>, n: int) -> bool {
    &&& order.len() == n
    &&& forall|i: int| 0 <= i < n ==> 0 <= #[trigger] order[i] < n
    &&& forall|i: int, j: int| 0 <= i < n && 0 <= j < n && i != j ==> #[trigger] order[i] != #[trigger] order[j]
}

/// The `phf` code of a map: the head, then the hash parameters `params`,
/// then the entries in the order `order`.
pub open spec fn phf_map_layout(params: Seq<char>, es: Seq<(Seq<char>, Seq<char>)>, order: Seq<int>) -> Seq<char> {
    phf_map_head() + params + "\n    ],\n    entries: &["@ + phf_entries_text(es, order) + "\n    ],\n}"@
}

/// `code` is `phf` code of a map with the entries `es`, keys already in
/// their `{:?}` text: each entry appears once, in some order, after hash
/// parameters that are not stated.
pub open spec fn is_phf_map_text(code: Seq<char>, es: Seq<(Seq<char>, Seq<char>)>) -> bool {
    exists|params: Seq<char>, order: Seq<int>| is_order(order, es.len() as int) && #[trigger] phf_map_layout(params, es, order) == code
}

/// Calls `phf_codegen::Map::build` and writes the result with `Display`.
/// `build` panics on a key given twice, which the precondition rules out.
/// The text is the path and the opening of the map, the hash key and the
/// displacements, then one line per entry, each entry once, in the order
/// of the hash table. The hash key, the displacements and that order come
/// from a random generator whose sequence differs between 32-bit and
/// 64-bit machines, so they are not stated.
#[verifier::external_body]
fn phf_map_code(m: &phf_codegen::Map<String>) -> (res: String)
    requires
        keys_unique(phf_entries(*m)),
    ensures
        is_phf_map_text(res@, phf_entries(*m).map_values(|e: (Seq<char>, Seq<char>)| (debug_text(e.0), e.1))),
{
    format!("{}", m.build())
}

/// No key is given twice.
pub open spec fn keys_unique(es: Seq<(Seq<char>, Seq<char>)>) -> bool {
    forall|i: int, j: int| 0 <= i < es.len() && 0 <= j < es.len() && i != j ==> #[trigger] es[i].0 != #[trigger] es[j].0
}

/// The Rust identifier for a package name: `move` is a keyword and is
/// written raw.
pub open spec fn escaped(s: Seq<char>) -> Seq<char> {
    if s == "move"@ {
        "r#move"@
    } else {
        s
    }
}

/// The Rust identifier for a package name.
pub fn escape_ident(s: &str) -> (res: String)
    ensures
        res@ == escaped(s@),
{
    if str_eq(s, "move") {
        "r#move".to_string()
    } else {
        s.to_string()
    }
}

/// Whether `char::is_uppercase` holds of a character: it has the Unicode
/// property `Uppercase`.
pub uninterp spec fn unicode_uppercase(c: char) -> bool;

/// Calls `char::is_uppercase`, which depends on the character alone.
#[verifier::external_body]
fn is_uppercase(c: char) -> (res: bool)
    ensures
        res == unicode_uppercase(c),
{
    c.is_uppercase()
}

/// `char::to_ascii_lowercase`: ASCII capitals become small letters, any
/// other character stays.
pub open spec fn ascii_lower(c: char) -> char {
    if 'A' <= c <= 'Z' {
        ((c as u32) + 32) as char
    } else {
        c
    }
}

fn to_ascii_lowercase(c: char) -> (res: char)
    ensures
        res == ascii_lower(c),
{
    if 'A' <= c && c <= 'Z' {
        let b = (c as u8) + 32;
        b as char
    } else {
        c
    }
}

/// The name of the Rust type prost generates for a message: a capital
/// between two capitals is made small, as in `HTTPRequest`, which becomes
/// `HttpRequest`.
pub open spec fn idiom_case(s: Seq<char>) -> Seq<char> {
    Seq::new(
        s.len(),
        |i: int|
            if unicode_uppercase(s[i]) && i > 0 && unicode_uppercase(s[i - 1]) && i + 1 < s.len() && unicode_uppercase(s[i + 1]) {
                ascii_lower(s[i])
            } else {
                s[i]
            },
    )
}

/// A capital is made small only when the characters right before and right
/// after it are both capitals; every other character, a capital after a
/// small letter among them, is kept. The length does not change.
pub proof fn lemma_idiom_case_lowers_only_between_capitals(s: Seq<char>)
    ensures
        idiom_case(s).len() == s.len(),
        forall|i: int| 0 <= i < s.len() && !(0 < i && i + 1 < s.len() && unicode_uppercase(s[i - 1])
            && unicode_uppercase(s[i]) && unicode_uppercase(s[i + 1])) ==> #[trigger] idiom_case(s)[i] == s[i],
        forall|i: int| 0 < i && i + 1 < s.len() && unicode_uppercase(s[i - 1]) && unicode_uppercase(s[i])
            && unicode_uppercase(s[i + 1]) ==> #[trigger] idiom_case(s)[i] == ascii_lower(s[i]),
{
}

/// The name of the Rust type prost generates for a message.
pub fn convert_case(s: &str) -> (res: String)
    ensures
        res@ == idiom_case(s@),
{
    let cs = crate::text::chars_of(s);
    let mut r = String::new();
    let mut last_was_caps = false;
    let mut i: usize = 0;
    let n = cs.len();
    while i < n
        invariant
            n == cs@.len(),
            cs@ == s@,
            i <= n,
            r@ == idiom_case(s@).take(i as int),
            i > 0 ==> last_was_caps == unicode_uppercase(s@[i - 1]),
            i == 0 ==> !last_was_caps,
        decreases n - i,
    {
        let c = cs[i];
        let is_caps = is_uppercase(c);
        let next_is_caps = if i + 1 < n {
            is_uppercase(cs[i + 1])
        } else {
            false
        };
        if is_caps && last_was_caps && next_is_caps {
            push_char(&mut r, to_ascii_lowercase(c));
        } else {
            push_char(&mut r, c);
        }
        last_was_caps = is_caps;
        i = i + 1;
        assert(r@ =~= idiom_case(s@).take(i as int));
    }
    assert(idiom_case(s@).take(n as int) =~= idiom_case(s@));
    r
}

/// The names, each escaped.
pub open spec fn escaped_all(parts: Seq<Seq<char>>) -> Seq<Seq<char>> {
    parts.map_values(|p: Seq<char>| escaped(p))
}

/// The names of `parts`, escaped if `escape`, joined by `sep`.
fn joined(parts: &Vec<String>, sep: &str, escape: bool) -> (res: String)
    ensures
        res@ == join(if escape { escaped_all(string_views(parts@)) } else { string_views(parts@) }, sep@),
{
    let ghost v = if escape { escaped_all(string_views(parts@)) } else { string_views(parts@) };
    let mut res = String::new();
    let mut i: usize = 0;
    assert(v.take(0) =~= Seq::<Seq<char>>::empty());
    while i < parts.len()
        invariant
            i <= parts@.len(),
            v == (if escape { escaped_all(string_views(parts@)) } else { string_views(parts@) }),
            v.len() == parts@.len(),
            res@ == join(v.take(i as int), sep@),
        decreases parts@.len() - i,
    {
        assert(v.take(i + 1).drop_last() =~= v.take(i as int));
        if i > 0 {
            push_str(&mut res, sep);
        }
        if escape {
            let e = escape_ident(parts[i].as_str());
            push_str(&mut res, e.as_str());
        } else {
            push_str(&mut res, parts[i].as_str());
        }
        proof {
            if i == 0 {
                assert(res@ =~= v.take(1)[0]);
            } else {
                assert(res@ =~= join(v.take(i as int), sep@) + sep@ + v.take(i + 1).last());
            }
        }
        i = i + 1;
    }
    assert(v.take(i as int) =~= v);
    res
}

/// A node of the module tree: its child modules by name, and the names of
/// the messages of its package.
pub struct ModuleNode {
    childs: Vec<(String, ModuleNode)>,
    messages: Vec<String>,
}

/// The mathematical value of a [`ModuleNode`].
pub struct ModuleView {
    pub childs: Seq<(Seq<char>, ModuleView)>,
    pub messages: Seq<Seq<char>>,
}

/// The mathematical value of a module node.
pub closed spec fn module_view(m: ModuleNode) -> ModuleView
    decreases m,
{
    ModuleView {
        childs: Seq::new(
            m.childs@.len(),
            |i: int|
                if 0 <= i < m.childs@.len() {
                    (m.childs@[i].0@, module_view(m.childs@[i].1))
                } else {
                    (seq![], ModuleView { childs: seq![], messages: seq![] })
                },
        ),
        messages: string_views(m.messages@),
    }
}

impl View for ModuleNode {
    type V = ModuleView;

    open spec fn view(&self) -> ModuleView {
        module_view(*self)
    }
}

proof fn lemma_module_view(m: ModuleNode)
    ensures
        m@.messages == string_views(m.messages@),
        m@.childs.len() == m.childs@.len(),
        forall|i: int| 0 <= i < m.childs@.len() ==> #[trigger] m@.childs[i] == (m.childs@[i].0@, m.childs@[i].1@),
{
}

/// The messages with a name.
pub open spec fn somes(ns: Seq<Option<Seq<char>>>) -> Seq<Seq<char>>
    decreases ns.len(),
{
    if ns.len() == 0 {
        seq![]
    } else {
        somes(ns.drop_last()) + match ns.last() {
            Some(n) => seq![n],
            None => seq![],
        }
    }
}

/// The position of the child named `k`, if any.
pub open spec fn child_index(cs: Seq<(Seq<char>, ModuleView)>, k: Seq<char>) -> int {
    choose|i: int| 0 <= i < cs.len() && cs[i].0 == k
}

/// Some child is named `k`.
pub open spec fn has_child(cs: Seq<(Seq<char>, ModuleView)>, k: Seq<char>) -> bool {
    exists|i: int| 0 <= i < cs.len() && cs[i].0 == k
}

/// A node with no child and no message.
pub open spec fn empty_module() -> ModuleView {
    ModuleView { childs: seq![], messages: seq![] }
}

/// The tree with the messages `names` added to the node at `path`, whose
/// missing nodes are made, after the children already there.
pub open spec fn module_added(m: ModuleView, path: Seq<Seq<char>>, names: Seq<Seq<char>>) -> ModuleView
    decreases path.len(),
{
    if path.len() == 0 {
        ModuleView { messages: m.messages + names, ..m }
    } else if has_child(m.childs, path[0]) {
        let i = child_index(m.childs, path[0]);
        ModuleView { childs: m.childs.update(i, (path[0], module_added(m.childs[i].1, path.drop_first(), names))), ..m }
    } else {
        ModuleView { childs: m.childs.push((path[0], module_added(empty_module(), path.drop_first(), names))), ..m }
    }
}

/// No two children of a node, at any depth, have the same name.
pub open spec fn module_wf(m: ModuleView) -> bool
    decreases m,
{
    &&& forall|i: int, j: int| 0 <= i < m.childs.len() && 0 <= j < m.childs.len() && i != j
        ==> #[trigger] m.childs[i].0 != #[trigger] m.childs[j].0
    &&& forall|i: int| 0 <= i < m.childs.len() ==> module_wf(#[trigger] m.childs[i].1)
}

/// The key of a message in the decode map: its type URL.
pub open spec fn entry_key(path: Seq<Seq<char>>, name: Seq<char>) -> Seq<char> {
    "type.ankama.com/"@ + join(path, "."@) + "."@ + name
}

/// The value of a message in the decode map: code decoding its bytes with
/// the generated type.
pub open spec fn entry_value(path: Seq<Seq<char>>, name: Seq<char>) -> Seq<char> {
    "|bytes| Ok(Box::new("@ + join(escaped_all(path), "::"@) + "::"@ + idiom_case(name) + "::decode(bytes)?))"@
}

/// The decode map entries of the messages of the package at `path`.
pub open spec fn message_entries(path: Seq<Seq<char>>, ms: Seq<Seq<char>>) -> Seq<(Seq<char>, Seq<char>)> {
    ms.map_values(|m: Seq<char>| (entry_key(path, m), entry_value(path, m)))
}

/// The decode map entries of a node at `path` and of its children, but
/// those under `google`.
pub open spec fn node_entries(m: ModuleView, path: Seq<Seq<char>>) -> Seq<(Seq<char>, Seq<char>)>
    decreases m, 1int,
{
    message_entries(path, m.messages) + childs_entries(m.childs, path)
}

/// The decode map entries of the children, in order.
pub open spec fn childs_entries(cs: Seq<(Seq<char>, ModuleView)>, path: Seq<Seq<char>>) -> Seq<(Seq<char>, Seq<char>)>
    decreases cs, 0int,
{
    if cs.len() == 0 {
        seq![]
    } else {
        let (name, node) = cs[cs.len() - 1];
        childs_entries(cs.subrange(0, cs.len() - 1), path) + if name == "google"@ {
            seq![]
        } else {
            node_entries(node, path.push(name))
        }
    }
}

/// A line of the generated module code: text, or the line that pulls in
/// the code prost generated for the package at a dotted path.
pub enum ModuleLine {
    Text(String),
    Generated(String),
}

/// The mathematical value of a [`ModuleLine`].
pub enum ModuleLineView {
    Text(Seq<char>),
    Generated(Seq<char>),
}

impl View for ModuleLine {
    type V = ModuleLineView;

    open spec fn view(&self) -> ModuleLineView {
        match self {
            ModuleLine::Text(s) => ModuleLineView::Text(s@),
            ModuleLine::Generated(s) => ModuleLineView::Generated(s@),
        }
    }
}

/// The views of a sequence of lines.
pub open spec fn line_views(s: Seq<ModuleLine>) -> Seq<ModuleLineView> {
    s.map_values(|l: ModuleLine| l@)
}

/// The lines of the modules of the children of a node at `path`.
pub open spec fn node_lines(m: ModuleView, path: Seq<Seq<char>>) -> Seq<ModuleLineView>
    decreases m, 1int,
{
    childs_lines(m.childs, path)
}

/// The lines of the modules of the children, in order: each opens a
/// module, pulls in the package's code if it has messages, holds the
/// modules of its own children, and closes; `google` is left out.
pub open spec fn childs_lines(cs: Seq<(Seq<char>, ModuleView)>, path: Seq<Seq<char>>) -> Seq<ModuleLineView>
    decreases cs, 0int,
{
    if cs.len() == 0 {
        seq![]
    } else {
        let (name, node) = cs[cs.len() - 1];
        childs_lines(cs.subrange(0, cs.len() - 1), path) + if name == "google"@ {
            seq![]
        } else {
            seq![ModuleLineView::Text("pub mod "@ + escaped(name) + " {\n"@)]
                + (if node.messages.len() > 0 {
                    seq![ModuleLineView::Generated(join(escaped_all(path.push(name)), "."@))]
                } else {
                    seq![]
                })
                + node_lines(node, path.push(name))
                + seq![ModuleLineView::Text("}\n"@)]
        }
    }
}

/// The views of optional names.
pub open spec fn option_views(s: Seq<Option<String>>) -> Seq<Option<Seq<char>>> {
    s.map_values(|o: Option<String>| string_option_view(o))
}

/// The tree of the packages of `files`, each with the names of its
/// messages, added in order to an empty tree.
pub open spec fn modules_of(files: Seq<(Seq<char>, Seq<Option<Seq<char>>>)>) -> ModuleView
    decreases files.len(),
{
    if files.len() == 0 {
        empty_module()
    } else {
        module_added(modules_of(files.drop_last()), split_char(files.last().0, '.'), somes(files.last().1))
    }
}

impl ModuleNode {
    /// The tree with no package.
    pub fn new() -> (res: ModuleNode)
        ensures
            res@ == empty_module(),
            module_wf(res@),
    {
        let res = ModuleNode { childs: Vec::new(), messages: Vec::new() };
        proof { lemma_module_view(res); }
        assert(res@.childs =~= Seq::<(Seq<char>, ModuleView)>::empty());
        assert(res@.messages =~= Seq::<Seq<char>>::empty());
        res
    }

    fn push_names(&mut self, names: Vec<Option<String>>)
        ensures
            final(self)@ == (ModuleView { messages: old(self)@.messages + somes(option_views(names@)), ..old(self)@ }),
    {
        proof { lemma_module_view(*self); }
        let ghost start = self@;
        let ghost ns = names@;
        let ghost ov = option_views(ns);
        let mut rest = reversed(names);
        let ghost mut i: int = 0;
        assert(ns.skip(0) =~= ns);
        assert(ov.take(0) =~= Seq::<Option<Seq<char>>>::empty());
        assert(start.messages + somes(ov.take(0)) =~= start.messages);
        while rest.len() > 0
            invariant
                0 <= i <= ns.len(),
                ov == option_views(ns),
                rest@ == ns.skip(i).reverse(),
                self@ == (ModuleView { messages: start.messages + somes(ov.take(i)), ..start }),
            decreases rest@.len(),
        {
            assert(i < ns.len());
            proof {
                lemma_reversed_rest(ns, i);
                assert(ov.take(i + 1).drop_last() =~= ov.take(i));
                assert(ov[i] == string_option_view(ns[i]));
            }
            let name = rest.pop().unwrap();
            proof { lemma_module_view(*self); }
            let ghost before = string_views(self.messages@);
            match name {
                Some(n) => {
                    let ghost nv = n@;
                    self.messages.push(n);
                    assert(string_views(self.messages@) =~= before.push(nv));
                },
                None => {},
            }
            proof {
                lemma_module_view(*self);
                assert(self@.childs =~= start.childs);
                assert(self@.messages =~= start.messages + somes(ov.take(i + 1)));
                i = i + 1;
            }
        }
        assert(ov.take(i) =~= ov);
    }

    fn find_child(&self, name: &str) -> (res: Option<usize>)
        requires
            module_wf(self@),
        ensures
            match res {
                Some(i) => i < self.childs@.len() && has_child(self@.childs, name@) && child_index(self@.childs, name@) == i,
                None => !has_child(self@.childs, name@),
            },
    {
        proof { lemma_module_view(*self); }
        let ghost cs = self@.childs;
        let mut i: usize = 0;
        while i < self.childs.len()
            invariant
                i <= self.childs@.len(),
                cs == self@.childs,
                cs.len() == self.childs@.len(),
                module_wf(self@),
                forall|j: int| 0 <= j < i ==> #[trigger] cs[j].0 != name@,
            decreases self.childs@.len() - i,
        {
            assert(cs[i as int] == (self.childs@[i as int].0@, self.childs@[i as int].1@));
            if str_eq(self.childs[i].0.as_str(), name) {
                proof {
                    assert(cs[i as int].0 == name@);
                    let k = child_index(cs, name@);
                    assert(cs[k].0 == name@);
                }
                return Some(i);
            }
            i = i + 1;
        }
        None
    }

    /// Adds the named messages to the package `package`, given by its
    /// names, making the nodes it lacks.
    pub fn add(&mut self, package: &Vec<String>, message_names: Vec<Option<String>>)
        requires
            module_wf(old(self)@),
        ensures
            module_wf(final(self)@),
            final(self)@ == module_added(old(self)@, string_views(package@), somes(option_views(message_names@))),
    {
        assert(string_views(package@).skip(0) =~= string_views(package@));
        self.add_from(package, 0, message_names)
    }

    fn add_from(&mut self, package: &Vec<String>, start: usize, message_names: Vec<Option<String>>)
        requires
            module_wf(old(self)@),
            start <= package@.len(),
        ensures
            module_wf(final(self)@),
            final(self)@ == module_added(old(self)@, string_views(package@).skip(start as int), somes(option_views(message_names@))),
        decreases package@.len() - start,
    {
        let ghost path = string_views(package@).skip(start as int);
        let ghost names = somes(option_views(message_names@));
        let ghost old_v = self@;
        proof { lemma_module_view(*self); }
        if start == package.len() {
            self.push_names(message_names);
            proof {
                lemma_module_view(*self);
                assert forall|i: int| 0 <= i < self@.childs.len() implies module_wf(#[trigger] self@.childs[i].1) by {
                    assert(self@.childs[i] == old_v.childs[i]);
                }
            }
            return;
        }
        assert(path[0] == package@[start as int]@);
        assert(path.drop_first() =~= string_views(package@).skip(start + 1));
        match self.find_child(package[start].as_str()) {
            Some(i) => {
                let (name, mut child) = self.childs.remove(i);
                assert(old_v.childs[i as int] == (name@, child@));
                assert(old_v.childs[i as int].1 == child@);
                assert(module_wf(child@));
                child.add_from(package, start + 1, message_names);
                let ghost cv = child@;
                self.childs.insert(i, (name, child));
                proof {
                    lemma_module_view(*self);
                    assert(self@.childs =~= old_v.childs.update(i as int, (path[0], cv)));
                    assert(self@.messages =~= old_v.messages);
                    assert forall|a: int, b: int| 0 <= a < self@.childs.len() && 0 <= b < self@.childs.len() && a != b
                        implies #[trigger] self@.childs[a].0 != #[trigger] self@.childs[b].0 by {
                        assert(self@.childs[a].0 == old_v.childs[a].0);
                        assert(self@.childs[b].0 == old_v.childs[b].0);
                    }
                    assert forall|a: int| 0 <= a < self@.childs.len() implies module_wf(#[trigger] self@.childs[a].1) by {
                        if a != i {
                            assert(self@.childs[a] == old_v.childs[a]);
                        }
                    }
                }
            },
            None => {
                let mut child = ModuleNode::new();
                child.add_from(package, start + 1, message_names);
                let ghost cv = child@;
                self.childs.push((copy_string(&package[start]), child));
                proof {
                    lemma_module_view(*self);
                    assert(self@.childs =~= old_v.childs.push((path[0], cv)));
                    assert(self@.messages =~= old_v.messages);
                    assert forall|a: int, b: int| 0 <= a < self@.childs.len() && 0 <= b < self@.childs.len() && a != b
                        implies #[trigger] self@.childs[a].0 != #[trigger] self@.childs[b].0 by {
                        if a < old_v.childs.len() && b < old_v.childs.len() {
                            assert(self@.childs[a].0 == old_v.childs[a].0);
                            assert(self@.childs[b].0 == old_v.childs[b].0);
                        } else if a < old_v.childs.len() {
                            assert(self@.childs[a].0 == old_v.childs[a].0);
                        } else {
                            assert(self@.childs[b].0 == old_v.childs[b].0);
                        }
                    }
                    assert forall|a: int| 0 <= a < self@.childs.len() implies module_wf(#[trigger] self@.childs[a].1) by {
                        if a < old_v.childs.len() {
                            assert(self@.childs[a] == old_v.childs[a]);
                        }
                    }
                }
            },
        }
    }

    /// The tree of the packages of a file descriptor set: each file gives
    /// its dotted package name and the names of its messages.
    pub fn from_packages(files: Vec<(String, Vec<Option<String>>)>) -> (res: ModuleNode)
        ensures
            module_wf(res@),
            res@ == modules_of(files@.map_values(|f: (String, Vec<Option<String>>)| (f.0@, option_views(f.1@)))),
    {
        let ghost fs = files@;
        let ghost fv = files@.map_values(|f: (String, Vec<Option<String>>)| (f.0@, option_views(f.1@)));
        let mut root = ModuleNode::new();
        let mut rest = reversed(files);
        let ghost mut i: int = 0;
        assert(fs.skip(0) =~= fs);
        assert(fv.take(0) =~= Seq::<(Seq<char>, Seq<Option<Seq<char>>>)>::empty());
        while rest.len() > 0
            invariant
                0 <= i <= fs.len(),
                fv == fs.map_values(|f: (String, Vec<Option<String>>)| (f.0@, option_views(f.1@))),
                rest@ == fs.skip(i).reverse(),
                module_wf(root@),
                root@ == modules_of(fv.take(i)),
            decreases rest@.len(),
        {
            assert(i < fs.len());
            proof {
                lemma_reversed_rest(fs, i);
                assert(fv.take(i + 1).drop_last() =~= fv.take(i));
                assert(fv.take(i + 1).last() == fv[i]);
            }
            let (package, names) = rest.pop().unwrap();
            let parts = split(package.as_str(), '.');
            assert(string_views(parts@) =~= split_char(package@, '.'));
            root.add(&parts, names);
            proof { i = i + 1; }
        }
        assert(fv.take(i) =~= fv);
        root
    }

    /// Writes the modules below this node, at `path_names`, and adds the
    /// decode map entries of its messages and of those below.
    pub fn generate_include_inner(
        &self,
        out: &mut Vec<ModuleLine>,
        decode_map: &mut phf_codegen::Map<String>,
        path_names: &mut Vec<String>,
    )
        ensures
            line_views(final(out)@) == line_views(old(out)@) + node_lines(self@, string_views(old(path_names)@)),
            phf_entries(*final(decode_map)) == phf_entries(*old(decode_map)) + node_entries(self@, string_views(old(path_names)@)),
            final(path_names)@ == old(path_names)@,
        decreases self@,
    {
        proof { lemma_module_view(*self); }
        let ghost mv = self@;
        let ghost path = string_views(path_names@);
        let ghost map0 = phf_entries(*decode_map);
        if self.messages.len() > 0 {
            let rust_namespace = joined(path_names, "::", true);
            let mpath = joined(path_names, ".", false);
            let mut k: usize = 0;
            let ghost ms = mv.messages;
            assert(ms.take(0) =~= Seq::<Seq<char>>::empty());
            assert(map0 + message_entries(path, ms.take(0)) =~= map0);
            while k < self.messages.len()
                invariant
                    k <= self.messages@.len(),
                    ms == string_views(self.messages@),
                    path == string_views(path_names@),
                    rust_namespace@ == join(escaped_all(path), "::"@),
                    mpath@ == join(path, "."@),
                    phf_entries(*decode_map) == map0 + message_entries(path, ms.take(k as int)),
                decreases self.messages@.len() - k,
            {
                let name = &self.messages[k];
                let mut key = String::new();
                push_str(&mut key, "type.ankama.com/");
                push_str(&mut key, mpath.as_str());
                push_str(&mut key, ".");
                push_str(&mut key, name.as_str());
                let mut value = String::new();
                push_str(&mut value, "|bytes| Ok(Box::new(");
                push_str(&mut value, rust_namespace.as_str());
                push_str(&mut value, "::");
                push_str(&mut value, convert_case(name.as_str()).as_str());
                push_str(&mut value, "::decode(bytes)?))");
                proof {
                    assert(ms[k as int] == name@);
                    assert(key@ =~= entry_key(path, name@));
                    assert(value@ =~= entry_value(path, name@));
                }
                phf_map_entry(decode_map, key, value.as_str());
                proof {
                    assert(ms.take(k + 1) =~= ms.take(k as int).push(ms[k as int]));
                    assert(message_entries(path, ms.take(k + 1))
                        =~= message_entries(path, ms.take(k as int)).push((entry_key(path, ms[k as int]), entry_value(path, ms[k as int]))));
                }
                k = k + 1;
            }
            assert(ms.take(k as int) =~= ms);
        } else {
            assert(message_entries(path, mv.messages) =~= Seq::<(Seq<char>, Seq<char>)>::empty());
            assert(map0 + message_entries(path, mv.messages) =~= map0);
        }
        let ghost map1 = phf_entries(*decode_map);
        let ghost out0 = line_views(out@);
        let ghost cs = mv.childs;
        let ghost mp0 = path_names@;
        let mut i: usize = 0;
        assert(cs.take(0) =~= Seq::<(Seq<char>, ModuleView)>::empty());
        assert(out0 + childs_lines(cs.take(0), path) =~= out0);
        assert(map1 + childs_entries(cs.take(0), path) =~= map1);
        while i < self.childs.len()
            invariant
                i <= self.childs@.len(),
                cs == mv.childs,
                mv == self@,
                cs.len() == self.childs@.len(),
                path_names@ == mp0,
                path == string_views(mp0),
                line_views(out@) == out0 + childs_lines(cs.take(i as int), path),
                phf_entries(*decode_map) == map1 + childs_entries(cs.take(i as int), path),
            decreases self.childs@.len() - i,
        {
            let (child_name, child_node) = &self.childs[i];
            assert(cs[i as int] == (child_name@, child_node@));
            proof {
                assert(cs.take(i + 1).subrange(0, i as int) =~= cs.take(i as int));
                assert(cs.take(i + 1)[i as int] == cs[i as int]);
            }
            if str_eq(child_name.as_str(), "google") {
                proof {
                    reveal_strlit("google");
                    assert(line_views(out@) =~= out0 + childs_lines(cs.take(i + 1), path));
                    assert(phf_entries(*decode_map) =~= map1 + childs_entries(cs.take(i + 1), path));
                }
                i = i + 1;
                continue;
            }
            let ghost before_lines = line_views(out@);
            let ghost before_map = phf_entries(*decode_map);
            let mut open = String::new();
            push_str(&mut open, "pub mod ");
            push_str(&mut open, escape_ident(child_name.as_str()).as_str());
            push_str(&mut open, " {\n");
            let ghost open_v = open@;
            assert(open_v =~= "pub mod "@ + escaped(child_name@) + " {\n"@);
            out.push(ModuleLine::Text(open));
            assert(line_views(out@) =~= before_lines.push(ModuleLineView::Text(open_v)));
            path_names.push(copy_string(child_name));
            let ghost inner_path = string_views(path_names@);
            assert(inner_path =~= path.push(child_name@));
            let ghost mid_lines = line_views(out@);
            if child_node.messages.len() > 0 {
                proof { lemma_module_view(*child_node); }
                let g = joined(path_names, ".", true);
                let ghost gv = g@;
                out.push(ModuleLine::Generated(g));
                assert(line_views(out@) =~= mid_lines.push(ModuleLineView::Generated(gv)));
            }
            proof {
                lemma_module_view(*child_node);
                assert(decreases_to!(mv => mv.childs));
                assert(decreases_to!(mv.childs => mv.childs[i as int]));
                assert(decreases_to!(mv.childs[i as int] => mv.childs[i as int].1));
            }
            let ghost gen_lines = line_views(out@);
            child_node.generate_include_inner(out, decode_map, path_names);
            assert(line_views(out@) =~= gen_lines + node_lines(child_node@, inner_path));
            path_names.pop();
            let close = "}\n".to_string();
            assert(close@ =~= "}\n"@);
            let ghost after = line_views(out@);
            out.push(ModuleLine::Text(close));
            assert(line_views(out@) =~= after.push(ModuleLineView::Text("}\n"@)));
            proof {
                let seg = seq![ModuleLineView::Text("pub mod "@ + escaped(child_name@) + " {\n"@)]
                    + (if child_node@.messages.len() > 0 {
                        seq![ModuleLineView::Generated(join(escaped_all(path.push(child_name@)), "."@))]
                    } else {
                        seq![]
                    })
                    + node_lines(child_node@, path.push(child_name@))
                    + seq![ModuleLineView::Text("}\n"@)];
                assert(path_names@ =~= mp0);
                assert(line_views(out@) =~= before_lines + seg);
                assert(line_views(out@) =~= out0 + childs_lines(cs.take(i + 1), path));
                assert(phf_entries(*decode_map) =~= map1 + childs_entries(cs.take(i + 1), path));
            }
            i = i + 1;
        }
        assert(cs.take(i as int) =~= cs);
        assert(line_views(out@) =~= out0 + node_lines(mv, path));
        assert(phf_entries(*decode_map) =~= map0 + node_entries(mv, path));
    }

    /// The generated module code of the tree: the modules, then the
    /// decode map, from type URL to decoder, as `phf` code.
    pub fn generate_include(self) -> (res: Vec<ModuleLine>)
        requires
            keys_unique(node_entries(self@, seq![])),
        ensures
            exists|code: Seq<char>| #[trigger] is_phf_map_text(code, shown_entries(node_entries(self@, seq![])))
                && line_views(res@) == seq![ModuleLineView::Text("#[doc(hidden)]\n"@)] + node_lines(self@, seq![])
                + seq![ModuleLineView::Text(decode_map_text(code))],
    {
        let mut out: Vec<ModuleLine> = Vec::new();
        let mut decode_map = phf_map_new();
        let mut path_names: Vec<String> = Vec::new();
        out.push(ModuleLine::Text("#[doc(hidden)]\n".to_string()));
        assert(string_views(path_names@) =~= Seq::<Seq<char>>::empty());
        let ghost first = line_views(out@);
        self.generate_include_inner(&mut out, &mut decode_map, &mut path_names);
        assert(phf_entries(decode_map) =~= node_entries(self@, seq![]));
        let code = phf_map_code(&decode_map);
        let last = decode_map_line(code.as_str());
        let ghost lv = last@;
        out.push(last);
        assert(line_views(out@) =~= first + node_lines(self@, seq![]) + seq![lv]);
        assert(is_phf_map_text(code@, shown_entries(node_entries(self@, seq![]))));
        out
    }

    /// The keys of the decode map entries of this node, at `path_names`,
    /// and of the nodes below it, added to `keys`.
    fn collect_keys(&self, keys: &mut Vec<String>, path_names: &mut Vec<String>)
        ensures
            string_views(final(keys)@) == string_views(old(keys)@) + entry_keys(node_entries(self@, string_views(old(path_names)@))),
            final(path_names)@ == old(path_names)@,
        decreases self@,
    {
        proof { lemma_module_view(*self); }
        let ghost mv = self@;
        let ghost path = string_views(path_names@);
        let ghost k0 = string_views(keys@);
        let mpath = joined(path_names, ".", false);
        let mut k: usize = 0;
        let ghost ms = mv.messages;
        assert(ms.take(0) =~= Seq::<Seq<char>>::empty());
        assert(k0 + entry_keys(message_entries(path, ms.take(0))) =~= k0);
        while k < self.messages.len()
            invariant
                k <= self.messages@.len(),
                ms == string_views(self.messages@),
                path == string_views(path_names@),
                mpath@ == join(path, "."@),
                string_views(keys@) == k0 + entry_keys(message_entries(path, ms.take(k as int))),
            decreases self.messages@.len() - k,
        {
            let name = &self.messages[k];
            let mut key = String::new();
            push_str(&mut key, "type.ankama.com/");
            push_str(&mut key, mpath.as_str());
            push_str(&mut key, ".");
            push_str(&mut key, name.as_str());
            proof {
                assert(ms[k as int] == name@);
                assert(key@ =~= entry_key(path, name@));
            }
            let ghost kv = key@;
            let ghost before = string_views(keys@);
            keys.push(key);
            proof {
                assert(string_views(keys@) =~= before.push(kv));
                assert(ms.take(k + 1) =~= ms.take(k as int).push(ms[k as int]));
                assert(entry_keys(message_entries(path, ms.take(k + 1)))
                    =~= entry_keys(message_entries(path, ms.take(k as int))).push(entry_key(path, ms[k as int])));
            }
            k = k + 1;
        }
        assert(ms.take(k as int) =~= ms);
        let ghost k1 = string_views(keys@);
        let ghost cs = mv.childs;
        let ghost mp0 = path_names@;
        let mut i: usize = 0;
        assert(cs.take(0) =~= Seq::<(Seq<char>, ModuleView)>::empty());
        assert(k1 + entry_keys(childs_entries(cs.take(0), path)) =~= k1);
        while i < self.childs.len()
            invariant
                i <= self.childs@.len(),
                cs == mv.childs,
                mv == self@,
                cs.len() == self.childs@.len(),
                path_names@ == mp0,
                path == string_views(mp0),
                string_views(keys@) == k1 + entry_keys(childs_entries(cs.take(i as int), path)),
            decreases self.childs@.len() - i,
        {
            let (child_name, child_node) = &self.childs[i];
            assert(cs[i as int] == (child_name@, child_node@));
            proof {
                assert(cs.take(i + 1).subrange(0, i as int) =~= cs.take(i as int));
                assert(cs.take(i + 1)[i as int] == cs[i as int]);
            }
            if str_eq(child_name.as_str(), "google") {
                proof {
                    reveal_strlit("google");
                    assert(string_views(keys@) =~= k1 + entry_keys(childs_entries(cs.take(i + 1), path)));
                }
                i = i + 1;
                continue;
            }
            path_names.push(copy_string(child_name));
            let ghost inner_path = string_views(path_names@);
            assert(inner_path =~= path.push(child_name@));
            proof {
                lemma_module_view(*child_node);
                assert(decreases_to!(mv => mv.childs));
                assert(decreases_to!(mv.childs => mv.childs[i as int]));
                assert(decreases_to!(mv.childs[i as int] => mv.childs[i as int].1));
            }
            let ghost before = string_views(keys@);
            child_node.collect_keys(keys, path_names);
            path_names.pop();
            proof {
                assert(path_names@ =~= mp0);
                assert(string_views(keys@) =~= k1 + entry_keys(childs_entries(cs.take(i + 1), path)));
            }
            i = i + 1;
        }
        assert(cs.take(i as int) =~= cs);
        assert(string_views(keys@) =~= k0 + entry_keys(node_entries(mv, path)));
    }

    /// The code of [`Self::generate_include`], or `None` when two messages
    /// would get the same type URL as their key in the decode map.
    pub fn try_generate_include(self) -> (res: Option<Vec<ModuleLine>>)
        ensures
            res is Some <==> keys_unique(node_entries(self@, seq![])),
            res matches Some(v) ==> exists|code: Seq<char>| #[trigger] is_phf_map_text(code, shown_entries(node_entries(self@, seq![])))
                && line_views(v@) == seq![ModuleLineView::Text("#[doc(hidden)]\n"@)] + node_lines(self@, seq![])
                + seq![ModuleLineView::Text(decode_map_text(code))],
    {
        let mut keys: Vec<String> = Vec::new();
        let mut path_names: Vec<String> = Vec::new();
        assert(string_views(path_names@) =~= Seq::<Seq<char>>::empty());
        assert(string_views(keys@) =~= Seq::<Seq<char>>::empty());
        self.collect_keys(&mut keys, &mut path_names);
        let ghost es = node_entries(self@, seq![]);
        assert(string_views(keys@) =~= entry_keys(es));
        if !no_repeats(&keys) {
            proof {
                let (a, b) = choose|a: int, b: int| 0 <= a < keys@.len() && 0 <= b < keys@.len() && a != b
                    && keys@[a]@ == keys@[b]@;
                assert(string_views(keys@)[a] == es[a].0);
                assert(string_views(keys@)[b] == es[b].0);
            }
            return None;
        }
        assert forall|a: int, b: int| 0 <= a < es.len() && 0 <= b < es.len() && a != b implies #[trigger] es[a].0 != #[trigger] es[b].0 by {
            assert(string_views(keys@)[a] == es[a].0);
            assert(string_views(keys@)[b] == es[b].0);
        }
        Some(self.generate_include())
    }
}

/// The line that declares the decode map, whose `phf` code is `code`.
pub open spec fn decode_map_text(code: Seq<char>) -> Seq<char> {
    "static DECODE_MAP: phf::Map<&'static str, fn(&[u8]) -> Result<Box<dyn ::prost::Message>, DecodeError>> = "@ + code + ";\n"@
}

/// The line that declares the decode map, given the `phf` code that
/// builds it.
pub fn decode_map_line(code: &str) -> (res: ModuleLine)
    ensures
        res@ == ModuleLineView::Text(decode_map_text(code@)),
{
    let mut last = String::new();
    push_str(&mut last, "static DECODE_MAP: phf::Map<&'static str, fn(&[u8]) -> Result<Box<dyn ::prost::Message>, DecodeError>> = ");
    push_str(&mut last, code);
    push_str(&mut last, ";\n");
    ModuleLine::Text(last)
}

/// The keys of decode map entries.
pub open spec fn entry_keys(es: Seq<(Seq<char>, Seq<char>)>) -> Seq<Seq<char>> {
    es.map_values(|e: (Seq<char>, Seq<char>)| e.0)
}

/// No two of the strings are equal.
fn no_repeats(keys: &Vec<String>) -> (res: bool)
    ensures
        res == !exists|a: int, b: int| 0 <= a < keys@.len() && 0 <= b < keys@.len() && a != b && keys@[a]@ == keys@[b]@,
{
    let mut i: usize = 0;
    while i < keys.len()
        invariant
            i <= keys@.len(),
            forall|a: int, b: int| 0 <= a < i && 0 <= b < keys@.len() && a != b ==> keys@[a]@ != keys@[b]@,
        decreases keys@.len() - i,
    {
        let mut j: usize = 0;
        while j < keys.len()
            invariant
                i < keys@.len(),
                j <= keys@.len(),
                forall|a: int, b: int| 0 <= a < i && 0 <= b < keys@.len() && a != b ==> keys@[a]@ != keys@[b]@,
                forall|b: int| 0 <= b < j && b != i ==> keys@[i as int]@ != keys@[b]@,
            decreases keys@.len() - j,
        {
            if j != i && str_eq(keys[i].as_str(), keys[j].as_str()) {
                return false;
            }
            j = j + 1;
        }
        i = i + 1;
    }
    true
}

} // verus!
