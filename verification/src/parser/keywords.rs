//! The modifier keywords of fields, parameters, methods, properties and
//! classes, and the type index a comment gives.

use vstd::prelude::*;

use crate::parser::common::{comment_body, keyword_result, result_view, text_is, Comment};
use crate::parser::data_structs::{ClassModifier, FieldModifier, MethodModifier, ParamModifier, PropertyKind, PropertyModifier};
use crate::syntax::{Error, ErrorView, Pair, Rule};
use crate::text::{copy_string, parse_u64, parse_u64_of, strip_prefix_of};

verus! {

/// The field modifier a keyword names.
pub open spec fn field_modifier_of(t: Seq<char>) -> Option<FieldModifier> {
    if t == "readonly"@ {
        Some(FieldModifier::ReadOnly)
    } else if t == "const"@ {
        Some(FieldModifier::Const)
    } else if t == "static"@ {
        Some(FieldModifier::Static)
    } else {
        None
    }
}

impl FieldModifier {
    /// Reads a field modifier node.
    pub fn try_from(value: &Pair) -> (res: Result<FieldModifier, Error>)
        ensures
            result_view(res) == keyword_result(Rule::FieldModifier, value.rule, value.text@,
                field_modifier_of(value.text@), Rule::FieldModifier),
    {
        Error::rule_matches(Rule::FieldModifier, value.rule)?;
        let t = &value.text;
        if text_is(t, "readonly") {
            Ok(FieldModifier::ReadOnly)
        } else if text_is(t, "const") {
            Ok(FieldModifier::Const)
        } else if text_is(t, "static") {
            Ok(FieldModifier::Static)
        } else {
            Err(Error::InvalidToken(Rule::FieldModifier, copy_string(t)))
        }
    }
}

/// The parameter modifier a keyword names.
pub open spec fn param_modifier_of(t: Seq<char>) -> Option<ParamModifier> {
    if t == "out"@ {
        Some(ParamModifier::Out)
    } else if t == "in"@ {
        Some(ParamModifier::In)
    } else if t == "ref"@ {
        Some(ParamModifier::Ref)
    } else {
        None
    }
}

impl ParamModifier {
    /// Reads a parameter modifier node.
    pub fn try_from(value: &Pair) -> (res: Result<ParamModifier, Error>)
        ensures
            result_view(res) == keyword_result(Rule::MethodParamModifier, value.rule, value.text@,
                param_modifier_of(value.text@), Rule::MethodParamModifier),
    {
        Error::rule_matches(Rule::MethodParamModifier, value.rule)?;
        let t = &value.text;
        if text_is(t, "out") {
            Ok(ParamModifier::Out)
        } else if text_is(t, "in") {
            Ok(ParamModifier::In)
        } else if text_is(t, "ref") {
            Ok(ParamModifier::Ref)
        } else {
            Err(Error::InvalidToken(Rule::MethodParamModifier, copy_string(t)))
        }
    }
}

/// The method modifier a keyword names.
pub open spec fn method_modifier_of(t: Seq<char>) -> Option<MethodModifier> {
    if t == "override"@ {
        Some(MethodModifier::Override)
    } else if t == "static"@ {
        Some(MethodModifier::Static)
    } else if t == "abstract"@ {
        Some(MethodModifier::Abstract)
    } else if t == "virtual"@ {
        Some(MethodModifier::Virtual)
    } else if t == "sealed"@ {
        Some(MethodModifier::Sealed)
    } else if t == "extern"@ {
        Some(MethodModifier::Extern)
    } else {
        None
    }
}

impl MethodModifier {
    /// Reads a method modifier node. An unknown keyword is reported as an
    /// invalid token of the parameter modifier rule.
    pub fn try_from(value: &Pair) -> (res: Result<MethodModifier, Error>)
        ensures
            result_view(res) == keyword_result(Rule::MethodModifier, value.rule, value.text@,
                method_modifier_of(value.text@), Rule::MethodParamModifier),
    {
        Error::rule_matches(Rule::MethodModifier, value.rule)?;
        let t = &value.text;
        if text_is(t, "override") {
            Ok(MethodModifier::Override)
        } else if text_is(t, "static") {
            Ok(MethodModifier::Static)
        } else if text_is(t, "abstract") {
            Ok(MethodModifier::Abstract)
        } else if text_is(t, "virtual") {
            Ok(MethodModifier::Virtual)
        } else if text_is(t, "sealed") {
            Ok(MethodModifier::Sealed)
        } else if text_is(t, "extern") {
            Ok(MethodModifier::Extern)
        } else {
            Err(Error::InvalidToken(Rule::MethodParamModifier, copy_string(t)))
        }
    }
}

/// The property accessor a keyword names.
pub open spec fn property_kind_of(t: Seq<char>) -> Option<PropertyKind> {
    if t == "get"@ {
        Some(PropertyKind::Getter)
    } else if t == "set"@ {
        Some(PropertyKind::Setter)
    } else {
        None
    }
}

impl PropertyKind {
    /// Reads a property accessor node.
    pub fn try_from(value: &Pair) -> (res: Result<PropertyKind, Error>)
        ensures
            result_view(res) == keyword_result(Rule::PropertyKind, value.rule, value.text@,
                property_kind_of(value.text@), Rule::PropertyKind),
    {
        Error::rule_matches(Rule::PropertyKind, value.rule)?;
        let t = &value.text;
        if text_is(t, "get") {
            Ok(PropertyKind::Getter)
        } else if text_is(t, "set") {
            Ok(PropertyKind::Setter)
        } else {
            Err(Error::InvalidToken(Rule::PropertyKind, copy_string(t)))
        }
    }
}

/// The property modifier a keyword names.
pub open spec fn property_modifier_of(t: Seq<char>) -> Option<PropertyModifier> {
    if t == "virtual"@ {
        Some(PropertyModifier::Virtual)
    } else if t == "static"@ {
        Some(PropertyModifier::Static)
    } else if t == "sealed"@ {
        Some(PropertyModifier::Sealed)
    } else if t == "override"@ {
        Some(PropertyModifier::Override)
    } else if t == "abstract"@ {
        Some(PropertyModifier::Abstract)
    } else {
        None
    }
}

impl PropertyModifier {
    /// Reads a property modifier node.
    pub fn try_from(value: &Pair) -> (res: Result<PropertyModifier, Error>)
        ensures
            result_view(res) == keyword_result(Rule::PropertyModifier, value.rule, value.text@,
                property_modifier_of(value.text@), Rule::PropertyModifier),
    {
        Error::rule_matches(Rule::PropertyModifier, value.rule)?;
        let t = &value.text;
        if text_is(t, "virtual") {
            Ok(PropertyModifier::Virtual)
        } else if text_is(t, "static") {
            Ok(PropertyModifier::Static)
        } else if text_is(t, "sealed") {
            Ok(PropertyModifier::Sealed)
        } else if text_is(t, "override") {
            Ok(PropertyModifier::Override)
        } else if text_is(t, "abstract") {
            Ok(PropertyModifier::Abstract)
        } else {
            Err(Error::InvalidToken(Rule::PropertyModifier, copy_string(t)))
        }
    }
}

/// The class modifier a keyword names.
pub open spec fn class_modifier_of(t: Seq<char>) -> Option<ClassModifier> {
    if t == "sealed"@ {
        Some(ClassModifier::Sealed)
    } else if t == "static"@ {
        Some(ClassModifier::Static)
    } else if t == "abstract"@ {
        Some(ClassModifier::Abstract)
    } else {
        None
    }
}

impl ClassModifier {
    /// Reads a class modifier node.
    pub fn try_from(value: &Pair) -> (res: Result<ClassModifier, Error>)
        ensures
            result_view(res) == keyword_result(Rule::ClassModifier, value.rule, value.text@,
                class_modifier_of(value.text@), Rule::ClassModifier),
    {
        Error::rule_matches(Rule::ClassModifier, value.rule)?;
        let t = &value.text;
        if text_is(t, "sealed") {
            Ok(ClassModifier::Sealed)
        } else if text_is(t, "static") {
            Ok(ClassModifier::Static)
        } else if text_is(t, "abstract") {
            Ok(ClassModifier::Abstract)
        } else {
            Err(Error::InvalidToken(Rule::ClassModifier, copy_string(t)))
        }
    }
}

/// What a comment says of the type index of what follows: nothing, a
/// number, or a text that is no number.
pub open spec fn comment_type_index(text: Seq<char>) -> Result<Option<u64>, ErrorView> {
    match strip_prefix_of(comment_body(text), "TypeDefIndex: "@) {
        None => Ok(None),
        Some(t) => match parse_u64_of(t) {
            Some(n) => Ok(Some(n)),
            None => Err(ErrorView::InvalidToken(Rule::Comment, t)),
        },
    }
}

/// The type index a comment node gives, if any.
pub fn read_type_index(value: &Pair) -> (res: Result<Option<u64>, Error>)
    requires
        value.rule == Rule::Comment,
    ensures
        result_view(res) == comment_type_index(value.text@),
{
    let comment = match Comment::try_from(value) {
        Ok(c) => c,
        Err(_) => {
            assert(false);
            return Ok(None);
        },
    };
    match comment.extract_type_index() {
        None => Ok(None),
        Some(t) => match parse_u64(t.as_str()) {
            Some(n) => Ok(Some(n)),
            None => Err(Error::InvalidToken(Rule::Comment, t)),
        },
    }
}

} // verus!
