//! Reading fields, parameters, methods and properties from their nodes.
//!
//! Each reader walks the inner nodes in order, filling a draft; a node of
//! a rule it does not expect stops it with an error, and a draft without
//! a required part gives the error naming the first part missing, in the
//! order the parts are declared. Inputs on which the reading panics (a
//! keyword that names nothing, a literal that is no literal) are left out
//! by the readers' preconditions.

use vstd::prelude::*;

use crate::parser::common::{literal_of, literal_panics, visibility_of, Literal, LiteralView, Visibility};
use crate::parser::data_structs::{
    literal_option_view, string_option_view, Field, FieldModifier, FieldView, Method, MethodModifier, MethodView, Param, ParamModifier, ParamView, Property,
    PropertyKind, PropertyModifier, PropertyView, views,
};
use crate::parser::keywords::{field_modifier_of, method_modifier_of, param_modifier_of, property_kind_of, property_modifier_of};
use crate::syntax::{lemma_read_all_halts, lemma_read_all_step, lemma_take_all, read_all, Error, ErrorView, Flow, Pair, Rule};
use crate::text::copy_string;

verus! {

/// One inner node of an assigned value: comments are skipped, a value
/// node gives the literal.
pub open spec fn assign_step(v: Option<LiteralView>, q: Pair) -> Flow<Option<LiteralView>> {
    if q.rule == Rule::Comment {
        Flow::Go(v)
    } else if q.rule == Rule::Value {
        if literal_panics(q) {
            Flow::Panic
        } else {
            match literal_of(q) {
                Ok(l) => Flow::Go(Some(l)),
                Err(_) => Flow::Panic,
            }
        }
    } else {
        Flow::Stop(ErrorView::UnexpectedInnerRule(Rule::FieldAssignValue, q.rule))
    }
}

/// [`assign_step`] as a value.
pub open spec fn assign_stepper() -> spec_fn(Option<LiteralView>, Pair) -> Flow<Option<LiteralView>> {
    |v: Option<LiteralView>, q: Pair| assign_step(v, q)
}

/// Reads the inner nodes of an assigned value, starting from `current`.
#[verifier::loop_isolation(false)]
fn read_assign_value(p: &Pair, current: Option<Literal>) -> (res: Option<Result<Option<Literal>, Error>>)
    ensures
        res is None <==> read_all(p.inner@, literal_option_view(current), assign_stepper()) is Panic,
        res matches Some(r) ==> match r {
            Ok(v) => read_all(p.inner@, literal_option_view(current), assign_stepper()) == Flow::Go(literal_option_view(v)),
            Err(e) => read_all(p.inner@, literal_option_view(current), assign_stepper()) == Flow::<Option<LiteralView>>::Stop(e@),
        },
{
    let ghost s = p.inner@;
    let ghost init = literal_option_view(current);
    let mut cur = current;
    let mut i: usize = 0;
    assert(s.take(0) =~= Seq::<Pair>::empty());
    while i < p.inner.len()
        invariant
            i <= s.len(),
            s == p.inner@,
            read_all(s.take(i as int), init, assign_stepper()) == Flow::Go(literal_option_view(cur)),
        decreases s.len() - i,
    {
        let q = &p.inner[i];
        proof { lemma_read_all_step(s, i as int, init, assign_stepper()); }
        match q.rule {
            Rule::Comment => {},
            Rule::Value => {
                if q.inner.len() == 0 {
                    proof { lemma_read_all_halts(s, i + 1, init, assign_stepper()); }
                    return None;
                }
                match Literal::try_from(q) {
                    Ok(l) => {
                        cur = Some(l);
                    },
                    Err(_) => {
                        proof { lemma_read_all_halts(s, i + 1, init, assign_stepper()); }
                        return None;
                    },
                }
            },
            r => {
                proof { lemma_read_all_halts(s, i + 1, init, assign_stepper()); }
                return Some(Err(Error::UnexpectedInnerRule(Rule::FieldAssignValue, r)));
            },
        }
        i = i + 1;
    }
    proof { lemma_take_all(s); }
    Some(Ok(cur))
}

/// The parts of a field read so far.
pub struct FieldDraft {
    pub ty: Option<Seq<char>>,
    pub name: Option<Seq<char>>,
    pub visibility: Option<Visibility>,
    pub modifiers: Seq<FieldModifier>,
    pub assign_value: Option<LiteralView>,
}

/// One inner node of a field.
pub open spec fn field_step(d: FieldDraft, q: Pair) -> Flow<FieldDraft> {
    if q.rule == Rule::Comment {
        Flow::Go(d)
    } else if q.rule == Rule::FieldModifier {
        match field_modifier_of(q.text@) {
            Some(m) => Flow::Go(FieldDraft { modifiers: d.modifiers.push(m), ..d }),
            None => Flow::Panic,
        }
    } else if q.rule == Rule::ModifierVisibility {
        match visibility_of(q.text@) {
            Some(v) => Flow::Go(FieldDraft { visibility: Some(v), ..d }),
            None => Flow::Panic,
        }
    } else if q.rule == Rule::Type {
        Flow::Go(FieldDraft { ty: Some(q.text@), ..d })
    } else if q.rule == Rule::Ident {
        Flow::Go(FieldDraft { name: Some(q.text@), ..d })
    } else if q.rule == Rule::FieldAssignValue {
        match read_all(q.inner@, d.assign_value, assign_stepper()) {
            Flow::Go(v) => Flow::Go(FieldDraft { assign_value: v, ..d }),
            Flow::Stop(e) => Flow::Stop(e),
            Flow::Panic => Flow::Panic,
        }
    } else {
        Flow::Stop(ErrorView::UnexpectedInnerRule(Rule::Field, q.rule))
    }
}

/// [`field_step`] as a value.
pub open spec fn field_stepper() -> spec_fn(FieldDraft, Pair) -> Flow<FieldDraft> {
    |d: FieldDraft, q: Pair| field_step(d, q)
}

/// The field a complete draft gives, or the first part it lacks.
pub open spec fn field_built(d: FieldDraft) -> Result<FieldView, ErrorView> {
    match d.ty {
        None => Err(ErrorView::Builder("ty"@)),
        Some(ty) => match d.name {
            None => Err(ErrorView::Builder("name"@)),
            Some(name) => match d.visibility {
                None => Err(ErrorView::Builder("visibility"@)),
                Some(visibility) => Ok(FieldView { ty, name, visibility, modifiers: d.modifiers, assign_value: d.assign_value }),
            },
        },
    }
}

/// Reading a field node: the rule is checked, then its inner nodes are read.
pub open spec fn field_reading(p: Pair) -> Flow<FieldDraft> {
    if p.rule != Rule::Field {
        Flow::Stop(ErrorView::UnexpectedRule(Rule::Field, p.rule))
    } else {
        read_all(p.inner@, FieldDraft { ty: None, name: None, visibility: None, modifiers: seq![], assign_value: None }, field_stepper())
    }
}

/// What reading a field node gives, when it does not panic.
pub open spec fn field_of(p: Pair) -> Result<FieldView, ErrorView> {
    match field_reading(p) {
        Flow::Go(d) => field_built(d),
        Flow::Stop(e) => Err(e),
        Flow::Panic => Err(ErrorView::Builder(seq![])),
    }
}

struct FieldParts {
    ty: Option<String>,
    name: Option<String>,
    visibility: Option<Visibility>,
    modifiers: Vec<FieldModifier>,
    assign_value: Option<Literal>,
}

impl View for FieldParts {
    type V = FieldDraft;

    closed spec fn view(&self) -> FieldDraft {
        FieldDraft {
            ty: string_option_view(self.ty),
            name: string_option_view(self.name),
            visibility: self.visibility,
            modifiers: self.modifiers@,
            assign_value: literal_option_view(self.assign_value),
        }
    }
}

impl Field {
    /// Reads a field node.
    pub fn try_from(value: &Pair) -> (res: Result<Field, Error>)
        requires
            !(field_reading(*value) is Panic),
        ensures
            match res {
                Ok(f) => field_of(*value) == Ok::<FieldView, ErrorView>(f@),
                Err(e) => field_of(*value) == Err::<FieldView, ErrorView>(e@),
            },
    {
        match Self::read(value) {
            Some(r) => r,
            None => {
                assert(false);
                Err(Error::from_builder_error(""))
            },
        }
    }

    /// Reads a field node, or gives `None` where reading it panics.
    #[verifier::loop_isolation(false)]
    pub fn read(value: &Pair) -> (res: Option<Result<Field, Error>>)
        ensures
            res is None <==> field_reading(*value) is Panic,
            res matches Some(r) ==> match r {
                Ok(f) => field_of(*value) == Ok::<FieldView, ErrorView>(f@),
                Err(e) => field_of(*value) == Err::<FieldView, ErrorView>(e@),
            },
    {
        if let Err(e) = Error::rule_matches(Rule::Field, value.rule) {
            return Some(Err(e));
        }
        let ghost s = value.inner@;
        let ghost init = FieldDraft { ty: None, name: None, visibility: None, modifiers: seq![], assign_value: None };
        let mut d = FieldParts { ty: None, name: None, visibility: None, modifiers: Vec::new(), assign_value: None };
        assert(d@ == init);
        let mut i: usize = 0;
        assert(s.take(0) =~= Seq::<Pair>::empty());
        while i < value.inner.len()
            invariant
                i <= s.len(),
                s == value.inner@,
                read_all(s.take(i as int), init, field_stepper()) == Flow::Go(d@),
            decreases s.len() - i,
        {
            let q = &value.inner[i];
            proof { lemma_read_all_step(s, i as int, init, field_stepper()); }
            match q.rule {
                Rule::Comment => {},
                Rule::FieldModifier => match FieldModifier::try_from(q) {
                    Ok(m) => {
                        d.modifiers.push(m);
                    },
                    Err(_) => {
                        proof { lemma_read_all_halts(s, i + 1, init, field_stepper()); }
                        return None;
                    },
                },
                Rule::ModifierVisibility => match Visibility::try_from(q) {
                    Ok(v) => {
                        d.visibility = Some(v);
                    },
                    Err(_) => {
                        proof { lemma_read_all_halts(s, i + 1, init, field_stepper()); }
                        return None;
                    },
                },
                Rule::Type => {
                    d.ty = Some(copy_string(&q.text));
                },
                Rule::Ident => {
                    d.name = Some(copy_string(&q.text));
                },
                Rule::FieldAssignValue => {
                    let ghost before = d@;
                    let current = d.assign_value.take();
                    assert(literal_option_view(current) == before.assign_value);
                    match read_assign_value(q, current) {
                        Some(Ok(v)) => {
                            d.assign_value = v;
                        },
                        Some(Err(e)) => {
                            proof { lemma_read_all_halts(s, i + 1, init, field_stepper()); }
                            return Some(Err(e));
                        },
                        None => {
                            proof { lemma_read_all_halts(s, i + 1, init, field_stepper()); }
                            return None;
                        },
                    }
                },
                r => {
                    proof { lemma_read_all_halts(s, i + 1, init, field_stepper()); }
                    return Some(Err(Error::UnexpectedInnerRule(Rule::Field, r)));
                },
            }
            i = i + 1;
        }
        proof { lemma_take_all(s); }
        let ty = match d.ty {
            Some(t) => t,
            None => return Some(Err(Error::from_builder_error("ty"))),
        };
        let name = match d.name {
            Some(t) => t,
            None => return Some(Err(Error::from_builder_error("name"))),
        };
        let visibility = match d.visibility {
            Some(t) => t,
            None => return Some(Err(Error::from_builder_error("visibility"))),
        };
        Some(Ok(Field { ty, name, visibility, modifiers: d.modifiers, assign_value: d.assign_value }))
    }
}

/// The parts of a parameter read so far.
pub struct ParamDraft {
    pub modifier: Option<ParamModifier>,
    pub ty: Option<Seq<char>>,
    pub name: Option<Seq<char>>,
    pub assign_value: Option<LiteralView>,
}

/// One inner node of a parameter.
pub open spec fn param_step(d: ParamDraft, q: Pair) -> Flow<ParamDraft> {
    if q.rule == Rule::Comment || q.rule == Rule::ParamAttr {
        Flow::Go(d)
    } else if q.rule == Rule::MethodParamModifier {
        match param_modifier_of(q.text@) {
            Some(m) => Flow::Go(ParamDraft { modifier: Some(m), ..d }),
            None => Flow::Panic,
        }
    } else if q.rule == Rule::Type {
        Flow::Go(ParamDraft { ty: Some(q.text@), ..d })
    } else if q.rule == Rule::Ident {
        Flow::Go(ParamDraft { name: Some(q.text@), ..d })
    } else if q.rule == Rule::FieldAssignValue {
        match read_all(q.inner@, d.assign_value, assign_stepper()) {
            Flow::Go(v) => Flow::Go(ParamDraft { assign_value: v, ..d }),
            Flow::Stop(e) => Flow::Stop(e),
            Flow::Panic => Flow::Panic,
        }
    } else {
        Flow::Stop(ErrorView::UnexpectedInnerRule(Rule::MethodParam, q.rule))
    }
}

/// [`param_step`] as a value.
pub open spec fn param_stepper() -> spec_fn(ParamDraft, Pair) -> Flow<ParamDraft> {
    |d: ParamDraft, q: Pair| param_step(d, q)
}

/// The parameter a complete draft gives, or the part it lacks.
pub open spec fn param_built(d: ParamDraft) -> Result<ParamView, ErrorView> {
    match d.ty {
        None => Err(ErrorView::Builder("ty"@)),
        Some(ty) => Ok(ParamView { modifier: d.modifier, ty, name: d.name, assign_value: d.assign_value }),
    }
}

/// Reading a parameter node.
pub open spec fn param_reading(p: Pair) -> Flow<ParamDraft> {
    if p.rule != Rule::MethodParam {
        Flow::Stop(ErrorView::UnexpectedRule(Rule::MethodParam, p.rule))
    } else {
        read_all(p.inner@, ParamDraft { modifier: None, ty: None, name: None, assign_value: None }, param_stepper())
    }
}

/// What reading a parameter node gives, when it does not panic.
pub open spec fn param_of(p: Pair) -> Result<ParamView, ErrorView> {
    match param_reading(p) {
        Flow::Go(d) => param_built(d),
        Flow::Stop(e) => Err(e),
        Flow::Panic => Err(ErrorView::Builder(seq![])),
    }
}

struct ParamParts {
    modifier: Option<ParamModifier>,
    ty: Option<String>,
    name: Option<String>,
    assign_value: Option<Literal>,
}

impl View for ParamParts {
    type V = ParamDraft;

    closed spec fn view(&self) -> ParamDraft {
        ParamDraft {
            modifier: self.modifier,
            ty: string_option_view(self.ty),
            name: string_option_view(self.name),
            assign_value: literal_option_view(self.assign_value),
        }
    }
}

impl Param {
    /// Reads a parameter node.
    pub fn try_from(value: &Pair) -> (res: Result<Param, Error>)
        requires
            !(param_reading(*value) is Panic),
        ensures
            match res {
                Ok(f) => param_of(*value) == Ok::<ParamView, ErrorView>(f@),
                Err(e) => param_of(*value) == Err::<ParamView, ErrorView>(e@),
            },
    {
        match Self::read(value) {
            Some(r) => r,
            None => {
                assert(false);
                Err(Error::from_builder_error(""))
            },
        }
    }

    /// Reads a parameter node, or gives `None` where reading it panics.
    #[verifier::loop_isolation(false)]
    pub fn read(value: &Pair) -> (res: Option<Result<Param, Error>>)
        ensures
            res is None <==> param_reading(*value) is Panic,
            res matches Some(r) ==> match r {
                Ok(f) => param_of(*value) == Ok::<ParamView, ErrorView>(f@),
                Err(e) => param_of(*value) == Err::<ParamView, ErrorView>(e@),
            },
    {
        if let Err(e) = Error::rule_matches(Rule::MethodParam, value.rule) {
            return Some(Err(e));
        }
        let ghost s = value.inner@;
        let ghost init = ParamDraft { modifier: None, ty: None, name: None, assign_value: None };
        let mut d = ParamParts { modifier: None, ty: None, name: None, assign_value: None };
        assert(d@ == init);
        let mut i: usize = 0;
        assert(s.take(0) =~= Seq::<Pair>::empty());
        while i < value.inner.len()
            invariant
                i <= s.len(),
                read_all(s.take(i as int), init, param_stepper()) == Flow::Go(d@),
            decreases s.len() - i,
        {
            let q = &value.inner[i];
            proof { lemma_read_all_step(s, i as int, init, param_stepper()); }
            match q.rule {
                Rule::Comment | Rule::ParamAttr => {},
                Rule::MethodParamModifier => match ParamModifier::try_from(q) {
                    Ok(m) => {
                        d.modifier = Some(m);
                    },
                    Err(_) => {
                        proof { lemma_read_all_halts(s, i + 1, init, param_stepper()); }
                        return None;
                    },
                },
                Rule::Type => {
                    d.ty = Some(copy_string(&q.text));
                },
                Rule::Ident => {
                    d.name = Some(copy_string(&q.text));
                },
                Rule::FieldAssignValue => {
                    let ghost before = d@;
                    let current = d.assign_value.take();
                    assert(literal_option_view(current) == before.assign_value);
                    match read_assign_value(q, current) {
                        Some(Ok(v)) => {
                            d.assign_value = v;
                        },
                        Some(Err(e)) => {
                            proof { lemma_read_all_halts(s, i + 1, init, param_stepper()); }
                            return Some(Err(e));
                        },
                        None => {
                            proof { lemma_read_all_halts(s, i + 1, init, param_stepper()); }
                            return None;
                        },
                    }
                },
                r => {
                    proof { lemma_read_all_halts(s, i + 1, init, param_stepper()); }
                    return Some(Err(Error::UnexpectedInnerRule(Rule::MethodParam, r)));
                },
            }
            i = i + 1;
        }
        proof { lemma_take_all(s); }
        let ty = match d.ty {
            Some(t) => t,
            None => return Some(Err(Error::from_builder_error("ty"))),
        };
        Some(Ok(Param { modifier: d.modifier, ty, name: d.name, assign_value: d.assign_value }))
    }
}

/// One inner node of a method's parameter list: parameters are read, any
/// other node skipped.
pub open spec fn params_step(ps: Seq<ParamView>, q: Pair) -> Flow<Seq<ParamView>> {
    if q.rule == Rule::MethodParam {
        if param_reading(q) is Panic {
            Flow::Panic
        } else {
            match param_of(q) {
                Ok(p) => Flow::Go(ps.push(p)),
                Err(_) => Flow::Panic,
            }
        }
    } else {
        Flow::Go(ps)
    }
}

/// [`params_step`] as a value.
pub open spec fn params_stepper() -> spec_fn(Seq<ParamView>, Pair) -> Flow<Seq<ParamView>> {
    |ps: Seq<ParamView>, q: Pair| params_step(ps, q)
}

/// The parts of a method read so far.
pub struct MethodDraft {
    pub visibility: Option<Visibility>,
    pub name: Option<Seq<char>>,
    pub modifiers: Seq<MethodModifier>,
    pub ty: Option<Seq<char>>,
    pub params: Seq<ParamView>,
}

/// One inner node of a method.
pub open spec fn method_step(d: MethodDraft, q: Pair) -> Flow<MethodDraft> {
    if q.rule == Rule::Comment || q.rule == Rule::MethodBody {
        Flow::Go(d)
    } else if q.rule == Rule::Ident {
        Flow::Go(MethodDraft { name: Some(q.text@), ..d })
    } else if q.rule == Rule::Type {
        Flow::Go(MethodDraft { ty: Some(q.text@), ..d })
    } else if q.rule == Rule::ModifierVisibility {
        match visibility_of(q.text@) {
            Some(v) => Flow::Go(MethodDraft { visibility: Some(v), ..d }),
            None => Flow::Panic,
        }
    } else if q.rule == Rule::MethodModifier {
        match method_modifier_of(q.text@) {
            Some(m) => Flow::Go(MethodDraft { modifiers: d.modifiers.push(m), ..d }),
            None => Flow::Panic,
        }
    } else if q.rule == Rule::MethodParams {
        match read_all(q.inner@, d.params, params_stepper()) {
            Flow::Go(ps) => Flow::Go(MethodDraft { params: ps, ..d }),
            Flow::Stop(e) => Flow::Stop(e),
            Flow::Panic => Flow::Panic,
        }
    } else {
        Flow::Stop(ErrorView::UnexpectedInnerRule(Rule::Method, q.rule))
    }
}

/// [`method_step`] as a value.
pub open spec fn method_stepper() -> spec_fn(MethodDraft, Pair) -> Flow<MethodDraft> {
    |d: MethodDraft, q: Pair| method_step(d, q)
}

/// The method a complete draft gives, or the first part it lacks.
pub open spec fn method_built(d: MethodDraft) -> Result<MethodView, ErrorView> {
    match d.visibility {
        None => Err(ErrorView::Builder("visibility"@)),
        Some(visibility) => match d.name {
            None => Err(ErrorView::Builder("name"@)),
            Some(name) => match d.ty {
                None => Err(ErrorView::Builder("ty"@)),
                Some(ty) => Ok(MethodView { visibility, name, modifiers: d.modifiers, ty, params: d.params }),
            },
        },
    }
}

/// Reading a method node.
pub open spec fn method_reading(p: Pair) -> Flow<MethodDraft> {
    if p.rule != Rule::Method {
        Flow::Stop(ErrorView::UnexpectedRule(Rule::Method, p.rule))
    } else {
        read_all(p.inner@, MethodDraft { visibility: None, name: None, modifiers: seq![], ty: None, params: seq![] }, method_stepper())
    }
}

/// What reading a method node gives, when it does not panic.
pub open spec fn method_of(p: Pair) -> Result<MethodView, ErrorView> {
    match method_reading(p) {
        Flow::Go(d) => method_built(d),
        Flow::Stop(e) => Err(e),
        Flow::Panic => Err(ErrorView::Builder(seq![])),
    }
}

/// Reads the parameters of a parameter list node, after `current`.
#[verifier::loop_isolation(false)]
fn read_params(p: &Pair, current: Vec<Param>) -> (res: Option<Vec<Param>>)
    ensures
        match res {
            Some(v) => read_all(p.inner@, views(current@), params_stepper()) == Flow::Go(views(v@)),
            None => read_all(p.inner@, views(current@), params_stepper()) is Panic,
        },
{
    let ghost s = p.inner@;
    let ghost init = views(current@);
    let mut cur = current;
    let mut i: usize = 0;
    assert(s.take(0) =~= Seq::<Pair>::empty());
    while i < p.inner.len()
        invariant
            i <= s.len(),
            read_all(s.take(i as int), init, params_stepper()) == Flow::Go(views(cur@)),
        decreases s.len() - i,
    {
        let q = &p.inner[i];
        proof { lemma_read_all_step(s, i as int, init, params_stepper()); }
        if q.rule == Rule::MethodParam {
            match Param::read(q) {
                Some(Ok(param)) => {
                    let ghost before = views(cur@);
                    let ghost pv = param@;
                    cur.push(param);
                    assert(views(cur@) =~= before.push(pv));
                },
                _ => {
                    proof { lemma_read_all_halts(s, i + 1, init, params_stepper()); }
                    return None;
                },
            }
        }
        i = i + 1;
    }
    proof { lemma_take_all(s); }
    Some(cur)
}

struct MethodParts {
    visibility: Option<Visibility>,
    name: Option<String>,
    modifiers: Vec<MethodModifier>,
    ty: Option<String>,
    params: Vec<Param>,
}

impl View for MethodParts {
    type V = MethodDraft;

    closed spec fn view(&self) -> MethodDraft {
        MethodDraft {
            visibility: self.visibility,
            name: string_option_view(self.name),
            modifiers: self.modifiers@,
            ty: string_option_view(self.ty),
            params: views(self.params@),
        }
    }
}

impl Method {
    /// Reads a method node.
    pub fn try_from(value: &Pair) -> (res: Result<Method, Error>)
        requires
            !(method_reading(*value) is Panic),
        ensures
            match res {
                Ok(f) => method_of(*value) == Ok::<MethodView, ErrorView>(f@),
                Err(e) => method_of(*value) == Err::<MethodView, ErrorView>(e@),
            },
    {
        match Self::read(value) {
            Some(r) => r,
            None => {
                assert(false);
                Err(Error::from_builder_error(""))
            },
        }
    }

    /// Reads a method node, or gives `None` where reading it panics.
    #[verifier::loop_isolation(false)]
    pub fn read(value: &Pair) -> (res: Option<Result<Method, Error>>)
        ensures
            res is None <==> method_reading(*value) is Panic,
            res matches Some(r) ==> match r {
                Ok(f) => method_of(*value) == Ok::<MethodView, ErrorView>(f@),
                Err(e) => method_of(*value) == Err::<MethodView, ErrorView>(e@),
            },
    {
        if let Err(e) = Error::rule_matches(Rule::Method, value.rule) {
            return Some(Err(e));
        }
        let ghost s = value.inner@;
        let ghost init = MethodDraft { visibility: None, name: None, modifiers: seq![], ty: None, params: seq![] };
        let mut d = MethodParts { visibility: None, name: None, modifiers: Vec::new(), ty: None, params: Vec::new() };
        assert(views(d.params@) =~= Seq::<ParamView>::empty());
        assert(d@ == init);
        let mut i: usize = 0;
        assert(s.take(0) =~= Seq::<Pair>::empty());
        while i < value.inner.len()
            invariant
                i <= s.len(),
                read_all(s.take(i as int), init, method_stepper()) == Flow::Go(d@),
            decreases s.len() - i,
        {
            let q = &value.inner[i];
            proof { lemma_read_all_step(s, i as int, init, method_stepper()); }
            match q.rule {
                Rule::Comment | Rule::MethodBody => {},
                Rule::Ident => {
                    d.name = Some(copy_string(&q.text));
                },
                Rule::Type => {
                    d.ty = Some(copy_string(&q.text));
                },
                Rule::ModifierVisibility => match Visibility::try_from(q) {
                    Ok(v) => {
                        d.visibility = Some(v);
                    },
                    Err(_) => {
                        proof { lemma_read_all_halts(s, i + 1, init, method_stepper()); }
                        return None;
                    },
                },
                Rule::MethodModifier => match MethodModifier::try_from(q) {
                    Ok(m) => {
                        d.modifiers.push(m);
                    },
                    Err(_) => {
                        proof { lemma_read_all_halts(s, i + 1, init, method_stepper()); }
                        return None;
                    },
                },
                Rule::MethodParams => {
                    let ghost before = d@;
                    let mut current: Vec<Param> = Vec::new();
                    std::mem::swap(&mut current, &mut d.params);
                    assert(views(current@) == before.params);
                    match read_params(q, current) {
                        Some(ps) => {
                            d.params = ps;
                        },
                        None => {
                            proof { lemma_read_all_halts(s, i + 1, init, method_stepper()); }
                            return None;
                        },
                    }
                },
                r => {
                    proof { lemma_read_all_halts(s, i + 1, init, method_stepper()); }
                    return Some(Err(Error::UnexpectedInnerRule(Rule::Method, r)));
                },
            }
            i = i + 1;
        }
        proof { lemma_take_all(s); }
        let visibility = match d.visibility {
            Some(t) => t,
            None => return Some(Err(Error::from_builder_error("visibility"))),
        };
        let name = match d.name {
            Some(t) => t,
            None => return Some(Err(Error::from_builder_error("name"))),
        };
        let ty = match d.ty {
            Some(t) => t,
            None => return Some(Err(Error::from_builder_error("ty"))),
        };
        Some(Ok(Method { visibility, name, modifiers: d.modifiers, ty, params: d.params }))
    }
}

/// One inner node of a property body: accessors are read, comments skipped.
pub open spec fn kinds_step(ks: Seq<PropertyKind>, q: Pair) -> Flow<Seq<PropertyKind>> {
    if q.rule == Rule::Comment {
        Flow::Go(ks)
    } else if q.rule == Rule::PropertyKind {
        match property_kind_of(q.text@) {
            Some(k) => Flow::Go(ks.push(k)),
            None => Flow::Panic,
        }
    } else {
        Flow::Stop(ErrorView::UnexpectedInnerRule(Rule::PropertyBody, q.rule))
    }
}

/// [`kinds_step`] as a value.
pub open spec fn kinds_stepper() -> spec_fn(Seq<PropertyKind>, Pair) -> Flow<Seq<PropertyKind>> {
    |ks: Seq<PropertyKind>, q: Pair| kinds_step(ks, q)
}

/// Reads the accessors of a property body node, after `current`.
#[verifier::loop_isolation(false)]
fn read_kinds(p: &Pair, current: Vec<PropertyKind>) -> (res: Option<Result<Vec<PropertyKind>, Error>>)
    ensures
        res is None <==> read_all(p.inner@, current@, kinds_stepper()) is Panic,
        res matches Some(r) ==> match r {
            Ok(v) => read_all(p.inner@, current@, kinds_stepper()) == Flow::Go(v@),
            Err(e) => read_all(p.inner@, current@, kinds_stepper()) == Flow::<Seq<PropertyKind>>::Stop(e@),
        },
{
    let ghost s = p.inner@;
    let ghost init = current@;
    let mut cur = current;
    let mut i: usize = 0;
    assert(s.take(0) =~= Seq::<Pair>::empty());
    while i < p.inner.len()
        invariant
            i <= s.len(),
            read_all(s.take(i as int), init, kinds_stepper()) == Flow::Go(cur@),
        decreases s.len() - i,
    {
        let q = &p.inner[i];
        proof { lemma_read_all_step(s, i as int, init, kinds_stepper()); }
        match q.rule {
            Rule::Comment => {},
            Rule::PropertyKind => match PropertyKind::try_from(q) {
                Ok(k) => {
                    cur.push(k);
                },
                Err(_) => {
                    proof { lemma_read_all_halts(s, i + 1, init, kinds_stepper()); }
                    return None;
                },
            },
            r => {
                proof { lemma_read_all_halts(s, i + 1, init, kinds_stepper()); }
                return Some(Err(Error::UnexpectedInnerRule(Rule::PropertyBody, r)));
            },
        }
        i = i + 1;
    }
    proof { lemma_take_all(s); }
    Some(Ok(cur))
}

/// The parts of a property read so far.
pub struct PropertyDraft {
    pub visibility: Option<Visibility>,
    pub name: Option<Seq<char>>,
    pub modifiers: Seq<PropertyModifier>,
    pub kinds: Seq<PropertyKind>,
    pub ty: Option<Seq<char>>,
}

/// One inner node of a property.
pub open spec fn property_step(d: PropertyDraft, q: Pair) -> Flow<PropertyDraft> {
    if q.rule == Rule::Comment {
        Flow::Go(d)
    } else if q.rule == Rule::PropertyBody {
        match read_all(q.inner@, d.kinds, kinds_stepper()) {
            Flow::Go(ks) => Flow::Go(PropertyDraft { kinds: ks, ..d }),
            Flow::Stop(e) => Flow::Stop(e),
            Flow::Panic => Flow::Panic,
        }
    } else if q.rule == Rule::Ident {
        Flow::Go(PropertyDraft { name: Some(q.text@), ..d })
    } else if q.rule == Rule::Type {
        Flow::Go(PropertyDraft { ty: Some(q.text@), ..d })
    } else if q.rule == Rule::ModifierVisibility {
        match visibility_of(q.text@) {
            Some(v) => Flow::Go(PropertyDraft { visibility: Some(v), ..d }),
            None => Flow::Panic,
        }
    } else if q.rule == Rule::PropertyModifier {
        match property_modifier_of(q.text@) {
            Some(m) => Flow::Go(PropertyDraft { modifiers: d.modifiers.push(m), ..d }),
            None => Flow::Panic,
        }
    } else {
        Flow::Stop(ErrorView::UnexpectedInnerRule(Rule::Property, q.rule))
    }
}

/// [`property_step`] as a value.
pub open spec fn property_stepper() -> spec_fn(PropertyDraft, Pair) -> Flow<PropertyDraft> {
    |d: PropertyDraft, q: Pair| property_step(d, q)
}

/// The property a complete draft gives, or the first part it lacks.
pub open spec fn property_built(d: PropertyDraft) -> Result<PropertyView, ErrorView> {
    match d.visibility {
        None => Err(ErrorView::Builder("visibility"@)),
        Some(visibility) => match d.name {
            None => Err(ErrorView::Builder("name"@)),
            Some(name) => match d.ty {
                None => Err(ErrorView::Builder("ty"@)),
                Some(ty) => Ok(PropertyView { visibility, name, modifiers: d.modifiers, kinds: d.kinds, ty }),
            },
        },
    }
}

/// Reading a property node.
pub open spec fn property_reading(p: Pair) -> Flow<PropertyDraft> {
    if p.rule != Rule::Property {
        Flow::Stop(ErrorView::UnexpectedRule(Rule::Property, p.rule))
    } else {
        read_all(p.inner@, PropertyDraft { visibility: None, name: None, modifiers: seq![], kinds: seq![], ty: None }, property_stepper())
    }
}

/// What reading a property node gives, when it does not panic.
pub open spec fn property_of(p: Pair) -> Result<PropertyView, ErrorView> {
    match property_reading(p) {
        Flow::Go(d) => property_built(d),
        Flow::Stop(e) => Err(e),
        Flow::Panic => Err(ErrorView::Builder(seq![])),
    }
}

struct PropertyParts {
    visibility: Option<Visibility>,
    name: Option<String>,
    modifiers: Vec<PropertyModifier>,
    kinds: Vec<PropertyKind>,
    ty: Option<String>,
}

impl View for PropertyParts {
    type V = PropertyDraft;

    closed spec fn view(&self) -> PropertyDraft {
        PropertyDraft {
            visibility: self.visibility,
            name: string_option_view(self.name),
            modifiers: self.modifiers@,
            kinds: self.kinds@,
            ty: string_option_view(self.ty),
        }
    }
}

impl Property {
    /// Reads a property node.
    pub fn try_from(value: &Pair) -> (res: Result<Property, Error>)
        requires
            !(property_reading(*value) is Panic),
        ensures
            match res {
                Ok(f) => property_of(*value) == Ok::<PropertyView, ErrorView>(f@),
                Err(e) => property_of(*value) == Err::<PropertyView, ErrorView>(e@),
            },
    {
        match Self::read(value) {
            Some(r) => r,
            None => {
                assert(false);
                Err(Error::from_builder_error(""))
            },
        }
    }

    /// Reads a property node, or gives `None` where reading it panics.
    #[verifier::loop_isolation(false)]
    pub fn read(value: &Pair) -> (res: Option<Result<Property, Error>>)
        ensures
            res is None <==> property_reading(*value) is Panic,
            res matches Some(r) ==> match r {
                Ok(f) => property_of(*value) == Ok::<PropertyView, ErrorView>(f@),
                Err(e) => property_of(*value) == Err::<PropertyView, ErrorView>(e@),
            },
    {
        if let Err(e) = Error::rule_matches(Rule::Property, value.rule) {
            return Some(Err(e));
        }
        let ghost s = value.inner@;
        let ghost init = PropertyDraft { visibility: None, name: None, modifiers: seq![], kinds: seq![], ty: None };
        let mut d = PropertyParts { visibility: None, name: None, modifiers: Vec::new(), kinds: Vec::new(), ty: None };
        assert(d@ == init);
        let mut i: usize = 0;
        assert(s.take(0) =~= Seq::<Pair>::empty());
        while i < value.inner.len()
            invariant
                i <= s.len(),
                read_all(s.take(i as int), init, property_stepper()) == Flow::Go(d@),
            decreases s.len() - i,
        {
            let q = &value.inner[i];
            proof { lemma_read_all_step(s, i as int, init, property_stepper()); }
            match q.rule {
                Rule::Comment => {},
                Rule::PropertyBody => {
                    let ghost before = d@;
                    let mut current: Vec<PropertyKind> = Vec::new();
                    std::mem::swap(&mut current, &mut d.kinds);
                    match read_kinds(q, current) {
                        Some(Ok(ks)) => {
                            d.kinds = ks;
                        },
                        Some(Err(e)) => {
                            proof { lemma_read_all_halts(s, i + 1, init, property_stepper()); }
                            return Some(Err(e));
                        },
                        None => {
                            proof { lemma_read_all_halts(s, i + 1, init, property_stepper()); }
                            return None;
                        },
                    }
                },
                Rule::Ident => {
                    d.name = Some(copy_string(&q.text));
                },
                Rule::Type => {
                    d.ty = Some(copy_string(&q.text));
                },
                Rule::ModifierVisibility => match Visibility::try_from(q) {
                    Ok(v) => {
                        d.visibility = Some(v);
                    },
                    Err(_) => {
                        proof { lemma_read_all_halts(s, i + 1, init, property_stepper()); }
                        return None;
                    },
                },
                Rule::PropertyModifier => match PropertyModifier::try_from(q) {
                    Ok(m) => {
                        d.modifiers.push(m);
                    },
                    Err(_) => {
                        proof { lemma_read_all_halts(s, i + 1, init, property_stepper()); }
                        return None;
                    },
                },
                r => {
                    proof { lemma_read_all_halts(s, i + 1, init, property_stepper()); }
                    return Some(Err(Error::UnexpectedInnerRule(Rule::Property, r)));
                },
            }
            i = i + 1;
        }
        proof { lemma_take_all(s); }
        let visibility = match d.visibility {
            Some(t) => t,
            None => return Some(Err(Error::from_builder_error("visibility"))),
        };
        let name = match d.name {
            Some(t) => t,
            None => return Some(Err(Error::from_builder_error("name"))),
        };
        let ty = match d.ty {
            Some(t) => t,
            None => return Some(Err(Error::from_builder_error("ty"))),
        };
        Some(Ok(Property { visibility, name, modifiers: d.modifiers, kinds: d.kinds, ty }))
    }
}

} // verus!
