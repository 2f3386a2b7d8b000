//! The parse tree of a C# type dump and the errors met while reading it.
//!
//! A [`Pair`] is one node of the tree that the dump grammar produces: the
//! rule that matched, the text it spans and its inner nodes, in order.

use vstd::prelude::*;

verus! {

/// The grammar rules that the readers of the parse tree distinguish.
#[derive(Clone, Copy, Debug, PartialEq, Eq, Structural)]
pub enum Rule {
    File,
    FileMember,
    Attribute,
    Class,
    Enum,
    Struct,
    Interface,
    Comment,
    Eoi,
    ClassBody,
    ClassMember,
    ClassModifier,
    ClassInterfaces,
    Method,
    MethodBody,
    MethodModifier,
    MethodParams,
    MethodParam,
    MethodParamModifier,
    ParamAttr,
    Field,
    FieldModifier,
    FieldAssignValue,
    Property,
    PropertyBody,
    PropertyKind,
    PropertyModifier,
    ModifierVisibility,
    Ident,
    Type,
    Value,
    Boolean,
    String,
    Number,
    Char,
    EnumBody,
}

/// One node of the parse tree.
pub struct Pair {
    /// The rule that matched this node.
    pub rule: Rule,
    /// The input text the node spans.
    pub text: String,
    /// The inner nodes, in input order.
    pub inner: Vec<Pair>,
}

/// Errors met while reading the parse tree.
#[derive(Debug)]
pub enum Error {
    /// An inner node of the first rule had the second rule.
    UnexpectedInnerRule(Rule, Rule),
    /// The first rule was expected, the second was found.
    UnexpectedRule(Rule, Rule),
    /// A node of the rule held text that names no known token.
    InvalidToken(Rule, String),
    /// The named field of a value under construction was never given.
    Builder(String),
}

/// The mathematical value of an [`Error`].
pub enum ErrorView {
    UnexpectedInnerRule(Rule, Rule),
    UnexpectedRule(Rule, Rule),
    InvalidToken(Rule, Seq<char>),
    Builder(Seq<char>),
}

impl View for Error {
    type V = ErrorView;

    open spec fn view(&self) -> ErrorView {
        match self {
            Error::UnexpectedInnerRule(a, b) => ErrorView::UnexpectedInnerRule(*a, *b),
            Error::UnexpectedRule(a, b) => ErrorView::UnexpectedRule(*a, *b),
            Error::InvalidToken(r, s) => ErrorView::InvalidToken(*r, s@),
            Error::Builder(s) => ErrorView::Builder(s@),
        }
    }
}

impl Error {
    /// `Ok` when the rule found is the rule expected, else the mismatch.
    pub fn rule_matches(expected: Rule, got: Rule) -> (res: Result<(), Error>)
        ensures
            res is Ok <==> expected == got,
            res matches Err(e) ==> e@ == ErrorView::UnexpectedRule(expected, got),
    {
        if expected != got {
            Err(Error::UnexpectedRule(expected, got))
        } else {
            Ok(())
        }
    }

    /// The error for a value whose field `name` was never given.
    pub fn from_builder_error(name: &str) -> (res: Error)
        ensures
            res@ == ErrorView::Builder(name@),
    {
        Error::Builder(name.to_owned())
    }
}

/// The outcome of reading a sequence of inner nodes one after another:
/// reading goes on with a state, stops with an error, or cannot go on
/// (the reader panics on such input).
pub enum Flow<A> {
    Go(A),
    Stop(ErrorView),
    Panic,
}

/// Reads the nodes of `s` in order with `step`, from the state `init`.
pub open spec fn read_all<A>(s: Seq<Pair>, init: A, step: spec_fn(A, Pair) -> Flow<A>) -> Flow<A>
    decreases s.len(),
{
    if s.len() == 0 {
        Flow::Go(init)
    } else {
        match read_all(s.drop_last(), init, step) {
            Flow::Go(a) => step(a, s.last()),
            other => other,
        }
    }
}

/// Reading one more node continues from the state reached so far.
pub proof fn lemma_read_all_step<A>(s: Seq<Pair>, i: int, init: A, step: spec_fn(A, Pair) -> Flow<A>)
    requires
        0 <= i < s.len(),
    ensures
        read_all(s.take(i + 1), init, step) == (match read_all(s.take(i), init, step) {
            Flow::Go(a) => step(a, s[i]),
            other => other,
        }),
{
    assert(s.take(i + 1).drop_last() =~= s.take(i));
}

/// Once reading stops or panics on a prefix, it ends the same way on the whole.
pub proof fn lemma_read_all_halts<A>(s: Seq<Pair>, i: int, init: A, step: spec_fn(A, Pair) -> Flow<A>)
    requires
        0 <= i <= s.len(),
        !(read_all(s.take(i), init, step) is Go),
    ensures
        read_all(s, init, step) == read_all(s.take(i), init, step),
    decreases s.len() - i,
{
    if i < s.len() {
        assert(s.drop_last().take(i) =~= s.take(i));
        lemma_read_all_halts(s.drop_last(), i, init, step);
    } else {
        assert(s.take(i) =~= s);
    }
}

/// The whole sequence is the prefix of its own length.
pub proof fn lemma_take_all<A>(s: Seq<A>)
    ensures
        s.take(s.len() as int) == s,
{
    assert(s.take(s.len() as int) =~= s);
}

} // verus!
