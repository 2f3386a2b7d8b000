//! Comments, visibilities, attributes and literals of the dump.

use vstd::prelude::*;

use crate::syntax::{Error, ErrorView, Pair, Rule};
use crate::text::{chars_of, copy_string, parse_u32_of, parse_u32, str_eq, strip_prefix, strip_prefix_of, trim, trim_start_char, trim_start_matches, trim_ws};

verus! {

/// A `//` comment of the dump.
pub struct Comment(pub String);

/// The comment text after its leading slashes, trimmed.
pub open spec fn comment_body(c: Seq<char>) -> Seq<char> {
    trim_ws(trim_start_char(c, '/'))
}

impl Comment {
    /// The namespace that a `// Namespace: ...` comment names.
    pub fn try_extract_namespace(&self) -> (res: Option<String>)
        ensures
            res matches Some(r) ==> strip_prefix_of(comment_body(self.0@), "Namespace: "@) == Some(r@),
            res is None ==> strip_prefix_of(comment_body(self.0@), "Namespace: "@) is None,
    {
        let body = trim(&trim_start_matches(self.0.as_str(), '/'));
        strip_prefix(body.as_str(), "Namespace: ")
    }

    /// The type index that a `// TypeDefIndex: ...` comment gives.
    pub fn extract_type_index(&self) -> (res: Option<String>)
        ensures
            res matches Some(r) ==> strip_prefix_of(comment_body(self.0@), "TypeDefIndex: "@) == Some(r@),
            res is None ==> strip_prefix_of(comment_body(self.0@), "TypeDefIndex: "@) is None,
    {
        let body = trim(&trim_start_matches(self.0.as_str(), '/'));
        strip_prefix(body.as_str(), "TypeDefIndex: ")
    }

    /// Reads a comment node.
    pub fn try_from(value: &Pair) -> (res: Result<Comment, Error>)
        ensures
            match res {
                Ok(c) => value.rule == Rule::Comment && c.0@ == value.text@,
                Err(e) => value.rule != Rule::Comment && e@ == ErrorView::UnexpectedRule(Rule::Comment, value.rule),
            },
    {
        Error::rule_matches(Rule::Comment, value.rule)?;
        Ok(Comment(copy_string(&value.text)))
    }
}

/// `s` has exactly the characters of the literal `lit`.
pub fn text_is(s: &String, lit: &str) -> (res: bool)
    ensures
        res == (s@ == lit@),
{
    str_eq(s.as_str(), lit)
}

/// A C# member visibility.
#[derive(Clone, Copy, Debug, PartialEq, Eq, Structural)]
pub enum Visibility {
    ProtectedInternal,
    Public,
    Private,
    Internal,
    Protected,
}

/// The visibility a keyword names.
pub open spec fn visibility_of(t: Seq<char>) -> Option<Visibility> {
    if t == "internal"@ {
        Some(Visibility::Internal)
    } else if t == "private"@ {
        Some(Visibility::Private)
    } else if t == "protected"@ {
        Some(Visibility::Protected)
    } else if t == "public"@ {
        Some(Visibility::Public)
    } else if t == "protected internal"@ {
        Some(Visibility::ProtectedInternal)
    } else {
        None
    }
}

/// What reading a node of rule `rule` and text `t` into a keyword gives:
/// the rule is checked first, then the keyword.
pub open spec fn keyword_result<K>(expected: Rule, rule: Rule, t: Seq<char>, k: Option<K>, invalid: Rule) -> Result<K, ErrorView> {
    if rule != expected {
        Err(ErrorView::UnexpectedRule(expected, rule))
    } else {
        match k {
            Some(k) => Ok(k),
            None => Err(ErrorView::InvalidToken(invalid, t)),
        }
    }
}

/// A `Result` whose error is taken by its view.
pub open spec fn result_view<T>(r: Result<T, Error>) -> Result<T, ErrorView> {
    match r {
        Ok(v) => Ok(v),
        Err(e) => Err(e@),
    }
}

impl Visibility {
    /// Reads a visibility node.
    pub fn try_from(value: &Pair) -> (res: Result<Visibility, Error>)
        ensures
            result_view(res) == keyword_result(Rule::ModifierVisibility, value.rule, value.text@,
                visibility_of(value.text@), Rule::ModifierVisibility),
    {
        Error::rule_matches(Rule::ModifierVisibility, value.rule)?;
        let t = &value.text;
        if text_is(t, "internal") {
            Ok(Visibility::Internal)
        } else if text_is(t, "private") {
            Ok(Visibility::Private)
        } else if text_is(t, "protected") {
            Ok(Visibility::Protected)
        } else if text_is(t, "public") {
            Ok(Visibility::Public)
        } else if text_is(t, "protected internal") {
            Ok(Visibility::ProtectedInternal)
        } else {
            Err(Error::InvalidToken(Rule::ModifierVisibility, copy_string(t)))
        }
    }
}

/// An attribute of the dump, such as `[OriginalName("UNKNOWN")]`.
pub struct Attribute(pub String);

impl Attribute {
    /// Reads an attribute node.
    pub fn try_from(value: &Pair) -> (res: Result<Attribute, Error>)
        ensures
            match res {
                Ok(a) => value.rule == Rule::Attribute && a.0@ == value.text@,
                Err(e) => value.rule != Rule::Attribute && e@ == ErrorView::UnexpectedRule(Rule::Attribute, value.rule),
            },
    {
        Error::rule_matches(Rule::Attribute, value.rule)?;
        Ok(Attribute(copy_string(&value.text)))
    }

    /// A copy of the attribute.
    pub fn duplicate(&self) -> (res: Attribute)
        ensures
            res.0@ == self.0@,
    {
        Attribute(copy_string(&self.0))
    }
}

/// A literal value of the dump.
pub enum Literal {
    Boolean(bool),
    Char(String),
    String(String),
    Number(String),
}

/// The mathematical value of a [`Literal`].
pub enum LiteralView {
    Boolean(bool),
    Char(Seq<char>),
    String(Seq<char>),
    Number(Seq<char>),
}

impl View for Literal {
    type V = LiteralView;

    open spec fn view(&self) -> LiteralView {
        match self {
            Literal::Boolean(b) => LiteralView::Boolean(*b),
            Literal::Char(s) => LiteralView::Char(s@),
            Literal::String(s) => LiteralView::String(s@),
            Literal::Number(s) => LiteralView::Number(s@),
        }
    }
}

/// The number a literal holds, when it is a number that fits a `u32`.
pub open spec fn literal_u32(l: LiteralView) -> Option<u32> {
    match l {
        LiteralView::Number(s) => parse_u32_of(s),
        _ => None,
    }
}

/// What reading a value node gives.
pub open spec fn literal_of(value: Pair) -> Result<LiteralView, ErrorView> {
    if value.rule != Rule::Value {
        Err(ErrorView::UnexpectedRule(Rule::Value, value.rule))
    } else {
        let inner = value.inner@[0];
        if inner.rule == Rule::Boolean {
            if inner.text@ == "True"@ {
                Ok(LiteralView::Boolean(true))
            } else if inner.text@ == "False"@ {
                Ok(LiteralView::Boolean(false))
            } else {
                Err(ErrorView::InvalidToken(Rule::Boolean, inner.text@))
            }
        } else if inner.rule == Rule::String {
            Ok(LiteralView::String(inner.text@))
        } else if inner.rule == Rule::Number {
            Ok(LiteralView::Number(inner.text@))
        } else if inner.rule == Rule::Char {
            Ok(LiteralView::Char(inner.text@))
        } else {
            Err(ErrorView::UnexpectedInnerRule(Rule::Value, inner.rule))
        }
    }
}

/// Reading the value node panics: it has no inner node.
pub open spec fn literal_panics(value: Pair) -> bool {
    value.rule == Rule::Value && value.inner@.len() == 0
}

impl Literal {
    /// The number the literal holds, when it is a number that fits a `u32`.
    pub fn u32(&self) -> (res: Option<u32>)
        ensures
            res == literal_u32(self@),
    {
        if let Literal::Number(s) = self {
            parse_u32(s.as_str())
        } else {
            None
        }
    }

    /// A copy of the literal.
    pub fn duplicate(&self) -> (res: Literal)
        ensures
            res@ == self@,
    {
        match self {
            Literal::Boolean(b) => Literal::Boolean(*b),
            Literal::Char(s) => Literal::Char(copy_string(s)),
            Literal::String(s) => Literal::String(copy_string(s)),
            Literal::Number(s) => Literal::Number(copy_string(s)),
        }
    }

    /// Reads a value node.
    pub fn try_from(value: &Pair) -> (res: Result<Literal, Error>)
        requires
            !literal_panics(*value),
        ensures
            match res {
                Ok(l) => literal_of(*value) == Ok::<LiteralView, ErrorView>(l@),
                Err(e) => literal_of(*value) == Err::<LiteralView, ErrorView>(e@),
            },
    {
        Error::rule_matches(Rule::Value, value.rule)?;
        let inner = &value.inner[0];
        match inner.rule {
            Rule::Boolean => {
                if text_is(&inner.text, "True") {
                    Ok(Literal::Boolean(true))
                } else if text_is(&inner.text, "False") {
                    Ok(Literal::Boolean(false))
                } else {
                    Err(Error::InvalidToken(Rule::Boolean, copy_string(&inner.text)))
                }
            },
            Rule::String => Ok(Literal::String(copy_string(&inner.text))),
            Rule::Number => Ok(Literal::Number(copy_string(&inner.text))),
            Rule::Char => Ok(Literal::Char(copy_string(&inner.text))),
            r => Err(Error::UnexpectedInnerRule(Rule::Value, r)),
        }
    }
}

} // verus!
