//! Reading enums, classes, top-level members and whole dumps from their
//! nodes, in the manner of [`crate::parser::read_members`].

use vstd::prelude::*;

use crate::parser::common::{comment_body, visibility_of, Attribute, Comment, Visibility};
use crate::parser::data_structs::{
    attribute_texts, string_option_view, views, Class, ClassModifier, ClassView, DataStruct, DataStructInner,
    DataStructInnerView, DataStructView, Enum, EnumMember, EnumMemberView, EnumView, Field, FieldView, Method,
    MethodView, Property, PropertyView,
};
use crate::parser::file::{ParsedFile, ParsedFileView};
use crate::parser::keywords::{class_modifier_of, comment_type_index, read_type_index};
use crate::parser::read_members::{field_of, field_reading, method_of, method_reading, property_of, property_reading};
use crate::syntax::{lemma_read_all_halts, lemma_read_all_step, lemma_take_all, read_all, Error, ErrorView, Flow, Pair, Rule};
use crate::text::{copy_string, strip_prefix_of};

verus! {

/// The state of reading an enum body: the attributes waiting for the next
/// field, and the members read so far.
pub struct EnumBodyDraft {
    pub attributes: Seq<Seq<char>>,
    pub members: Seq<EnumMemberView>,
}

/// One inner node of an enum body: attributes wait for the next field,
/// which takes them.
pub open spec fn enum_body_step(d: EnumBodyDraft, q: Pair) -> Flow<EnumBodyDraft> {
    if q.rule == Rule::Comment {
        Flow::Go(d)
    } else if q.rule == Rule::Attribute {
        Flow::Go(EnumBodyDraft { attributes: d.attributes.push(q.text@), ..d })
    } else if q.rule == Rule::Field {
        if field_reading(q) is Panic {
            Flow::Panic
        } else {
            match field_of(q) {
                Ok(f) => Flow::Go(EnumBodyDraft {
                    attributes: seq![],
                    members: d.members.push(EnumMemberView { field: f, attributes: d.attributes }),
                }),
                Err(_) => Flow::Panic,
            }
        }
    } else {
        Flow::Stop(ErrorView::UnexpectedInnerRule(Rule::EnumBody, q.rule))
    }
}

/// [`enum_body_step`] as a value.
pub open spec fn enum_body_stepper() -> spec_fn(EnumBodyDraft, Pair) -> Flow<EnumBodyDraft> {
    |d: EnumBodyDraft, q: Pair| enum_body_step(d, q)
}

/// The parts of an enum read so far.
pub struct EnumDraft {
    pub visibility: Option<Visibility>,
    pub name: Option<Seq<char>>,
    pub type_index: Option<u64>,
    pub members: Seq<EnumMemberView>,
}

/// One inner node of an enum.
pub open spec fn enum_step(d: EnumDraft, q: Pair) -> Flow<EnumDraft> {
    if q.rule == Rule::ModifierVisibility {
        match visibility_of(q.text@) {
            Some(v) => Flow::Go(EnumDraft { visibility: Some(v), ..d }),
            None => Flow::Panic,
        }
    } else if q.rule == Rule::Comment {
        match comment_type_index(q.text@) {
            Ok(None) => Flow::Go(d),
            Ok(Some(n)) => Flow::Go(EnumDraft { type_index: Some(n), ..d }),
            Err(e) => Flow::Stop(e),
        }
    } else if q.rule == Rule::Ident {
        Flow::Go(EnumDraft { name: Some(q.text@), ..d })
    } else if q.rule == Rule::EnumBody {
        match read_all(q.inner@, EnumBodyDraft { attributes: seq![], members: d.members }, enum_body_stepper()) {
            Flow::Go(b) => Flow::Go(EnumDraft { members: b.members, ..d }),
            Flow::Stop(e) => Flow::Stop(e),
            Flow::Panic => Flow::Panic,
        }
    } else {
        Flow::Stop(ErrorView::UnexpectedInnerRule(Rule::Enum, q.rule))
    }
}

/// [`enum_step`] as a value.
pub open spec fn enum_stepper() -> spec_fn(EnumDraft, Pair) -> Flow<EnumDraft> {
    |d: EnumDraft, q: Pair| enum_step(d, q)
}

/// The enum a complete draft gives, or the first part it lacks.
pub open spec fn enum_built(d: EnumDraft) -> Result<EnumView, ErrorView> {
    match d.visibility {
        None => Err(ErrorView::Builder("visibility"@)),
        Some(visibility) => match d.name {
            None => Err(ErrorView::Builder("name"@)),
            Some(name) => Ok(EnumView { visibility, name, type_index: d.type_index, members: d.members }),
        },
    }
}

/// Reading an enum node.
pub open spec fn enum_reading(p: Pair) -> Flow<EnumDraft> {
    if p.rule != Rule::Enum {
        Flow::Stop(ErrorView::UnexpectedRule(Rule::Enum, p.rule))
    } else {
        read_all(p.inner@, EnumDraft { visibility: None, name: None, type_index: None, members: seq![] }, enum_stepper())
    }
}

/// What reading an enum node gives, when it does not panic.
pub open spec fn enum_of(p: Pair) -> Result<EnumView, ErrorView> {
    match enum_reading(p) {
        Flow::Go(d) => enum_built(d),
        Flow::Stop(e) => Err(e),
        Flow::Panic => Err(ErrorView::Builder(seq![])),
    }
}

struct EnumBodyParts {
    attributes: Vec<Attribute>,
    members: Vec<EnumMember>,
}

impl View for EnumBodyParts {
    type V = EnumBodyDraft;

    closed spec fn view(&self) -> EnumBodyDraft {
        EnumBodyDraft { attributes: attribute_texts(self.attributes@), members: views(self.members@) }
    }
}

/// Reads the members of an enum body node, after `current`.
#[verifier::loop_isolation(false)]
fn read_enum_body(p: &Pair, current: Vec<EnumMember>) -> (res: Option<Result<Vec<EnumMember>, Error>>)
    ensures
        res is None <==> read_all(p.inner@, EnumBodyDraft { attributes: seq![], members: views(current@) }, enum_body_stepper()) is Panic,
        res matches Some(r) ==> match r {
            Ok(v) => read_all(p.inner@, EnumBodyDraft { attributes: seq![], members: views(current@) }, enum_body_stepper())
                matches Flow::Go(b) && b.members == views(v@),
            Err(e) => read_all(p.inner@, EnumBodyDraft { attributes: seq![], members: views(current@) }, enum_body_stepper())
                == Flow::<EnumBodyDraft>::Stop(e@),
        },
{
    let ghost s = p.inner@;
    let ghost init = EnumBodyDraft { attributes: seq![], members: views(current@) };
    let mut d = EnumBodyParts { attributes: Vec::new(), members: current };
    assert(attribute_texts(d.attributes@) =~= Seq::<Seq<char>>::empty());
    assert(d@ == init);
    let mut i: usize = 0;
    assert(s.take(0) =~= Seq::<Pair>::empty());
    while i < p.inner.len()
        invariant
            i <= s.len(),
            read_all(s.take(i as int), init, enum_body_stepper()) == Flow::Go(d@),
        decreases s.len() - i,
    {
        let q = &p.inner[i];
        proof { lemma_read_all_step(s, i as int, init, enum_body_stepper()); }
        match q.rule {
            Rule::Comment => {},
            Rule::Attribute => match Attribute::try_from(q) {
                Ok(a) => {
                    let ghost before = attribute_texts(d.attributes@);
                    d.attributes.push(a);
                    assert(attribute_texts(d.attributes@) =~= before.push(q.text@));
                },
                Err(_) => {
                    assert(false);
                },
            },
            Rule::Field => {
                match Field::read(q) {
                    Some(Ok(field)) => {
                        let ghost before = d@;
                        let mut attributes: Vec<Attribute> = Vec::new();
                        std::mem::swap(&mut attributes, &mut d.attributes);
                        let member = EnumMember { field, attributes };
                        let ghost mv = member@;
                        d.members.push(member);
                        proof {
                            assert(attribute_texts(d.attributes@) =~= Seq::<Seq<char>>::empty());
                            assert(views(d.members@) =~= before.members.push(mv));
                        }
                    },
                    _ => {
                        proof { lemma_read_all_halts(s, i + 1, init, enum_body_stepper()); }
                        return None;
                    },
                }
            },
            r => {
                proof { lemma_read_all_halts(s, i + 1, init, enum_body_stepper()); }
                return Some(Err(Error::UnexpectedInnerRule(Rule::EnumBody, r)));
            },
        }
        i = i + 1;
    }
    proof { lemma_take_all(s); }
    Some(Ok(d.members))
}

struct EnumParts {
    visibility: Option<Visibility>,
    name: Option<String>,
    type_index: Option<u64>,
    members: Vec<EnumMember>,
}

impl View for EnumParts {
    type V = EnumDraft;

    closed spec fn view(&self) -> EnumDraft {
        EnumDraft {
            visibility: self.visibility,
            name: string_option_view(self.name),
            type_index: self.type_index,
            members: views(self.members@),
        }
    }
}

impl Enum {
    /// Reads an enum node.
    pub fn try_from(value: &Pair) -> (res: Result<Enum, Error>)
        requires
            !(enum_reading(*value) is Panic),
        ensures
            match res {
                Ok(e) => enum_of(*value) == Ok::<EnumView, ErrorView>(e@),
                Err(e) => enum_of(*value) == Err::<EnumView, ErrorView>(e@),
            },
    {
        match Self::read(value) {
            Some(r) => r,
            None => {
                assert(false);
                Err(Error::from_builder_error(""))
            },
        }
    }

    /// Reads an enum node, or gives `None` where reading it panics.
    #[verifier::loop_isolation(false)]
    pub fn read(value: &Pair) -> (res: Option<Result<Enum, Error>>)
        ensures
            res is None <==> enum_reading(*value) is Panic,
            res matches Some(r) ==> match r {
                Ok(e) => enum_of(*value) == Ok::<EnumView, ErrorView>(e@),
                Err(e) => enum_of(*value) == Err::<EnumView, ErrorView>(e@),
            },
    {
        if let Err(e) = Error::rule_matches(Rule::Enum, value.rule) {
            return Some(Err(e));
        }
        let ghost s = value.inner@;
        let ghost init = EnumDraft { visibility: None, name: None, type_index: None, members: seq![] };
        let mut d = EnumParts { visibility: None, name: None, type_index: None, members: Vec::new() };
        assert(views(d.members@) =~= Seq::<EnumMemberView>::empty());
        assert(d@ == init);
        let mut i: usize = 0;
        assert(s.take(0) =~= Seq::<Pair>::empty());
        while i < value.inner.len()
            invariant
                i <= s.len(),
                read_all(s.take(i as int), init, enum_stepper()) == Flow::Go(d@),
            decreases s.len() - i,
        {
            let q = &value.inner[i];
            proof { lemma_read_all_step(s, i as int, init, enum_stepper()); }
            match q.rule {
                Rule::ModifierVisibility => match Visibility::try_from(q) {
                    Ok(v) => {
                        d.visibility = Some(v);
                    },
                    Err(_) => {
                        proof { lemma_read_all_halts(s, i + 1, init, enum_stepper()); }
                        return None;
                    },
                },
                Rule::Comment => match read_type_index(q) {
                    Ok(Some(n)) => {
                        d.type_index = Some(n);
                    },
                    Ok(None) => {},
                    Err(e) => {
                        proof { lemma_read_all_halts(s, i + 1, init, enum_stepper()); }
                        return Some(Err(e));
                    },
                },
                Rule::Ident => {
                    d.name = Some(copy_string(&q.text));
                },
                Rule::EnumBody => {
                    let ghost before = d@;
                    let mut current: Vec<EnumMember> = Vec::new();
                    std::mem::swap(&mut current, &mut d.members);
                    match read_enum_body(q, current) {
                        Some(Ok(ms)) => {
                            d.members = ms;
                        },
                        Some(Err(e)) => {
                            proof { lemma_read_all_halts(s, i + 1, init, enum_stepper()); }
                            return Some(Err(e));
                        },
                        None => {
                            proof { lemma_read_all_halts(s, i + 1, init, enum_stepper()); }
                            return None;
                        },
                    }
                },
                r => {
                    proof { lemma_read_all_halts(s, i + 1, init, enum_stepper()); }
                    return Some(Err(Error::UnexpectedInnerRule(Rule::Enum, r)));
                },
            }
            i = i + 1;
        }
        proof { lemma_take_all(s); }
        let visibility = match d.visibility {
            Some(t) => t,
            None => return Some(Err(Error::from_builder_error("visibility"))),
        };
        let name = match d.name {
            Some(t) => t,
            None => return Some(Err(Error::from_builder_error("name"))),
        };
        Some(Ok(Enum { visibility, name, type_index: d.type_index, members: d.members }))
    }
}

/// The parts of a class read so far.
pub struct ClassDraft {
    pub visibility: Option<Visibility>,
    pub modifier: Option<ClassModifier>,
    pub name: Option<Seq<char>>,
    pub interfaces: Seq<Seq<char>>,
    pub type_index: Option<u64>,
    pub methods: Seq<MethodView>,
    pub fields: Seq<FieldView>,
    pub properties: Seq<PropertyView>,
}

/// One inner node of a class member: methods, fields and properties are
/// read, comments and attributes skipped.
pub open spec fn class_member_step(d: ClassDraft, q: Pair) -> Flow<ClassDraft> {
    if q.rule == Rule::Comment || q.rule == Rule::Attribute {
        Flow::Go(d)
    } else if q.rule == Rule::Method {
        if method_reading(q) is Panic {
            Flow::Panic
        } else {
            match method_of(q) {
                Ok(m) => Flow::Go(ClassDraft { methods: d.methods.push(m), ..d }),
                Err(_) => Flow::Panic,
            }
        }
    } else if q.rule == Rule::Field {
        if field_reading(q) is Panic {
            Flow::Panic
        } else {
            match field_of(q) {
                Ok(f) => Flow::Go(ClassDraft { fields: d.fields.push(f), ..d }),
                Err(_) => Flow::Panic,
            }
        }
    } else if q.rule == Rule::Property {
        if property_reading(q) is Panic {
            Flow::Panic
        } else {
            match property_of(q) {
                Ok(p) => Flow::Go(ClassDraft { properties: d.properties.push(p), ..d }),
                Err(_) => Flow::Panic,
            }
        }
    } else {
        Flow::Stop(ErrorView::UnexpectedInnerRule(Rule::ClassBody, q.rule))
    }
}

/// [`class_member_step`] as a value.
pub open spec fn class_member_stepper() -> spec_fn(ClassDraft, Pair) -> Flow<ClassDraft> {
    |d: ClassDraft, q: Pair| class_member_step(d, q)
}

/// One inner node of a class body: class members are read, any other node skipped.
pub open spec fn class_body_step(d: ClassDraft, q: Pair) -> Flow<ClassDraft> {
    if q.rule == Rule::ClassMember {
        read_all(q.inner@, d, class_member_stepper())
    } else {
        Flow::Go(d)
    }
}

/// [`class_body_step`] as a value.
pub open spec fn class_body_stepper() -> spec_fn(ClassDraft, Pair) -> Flow<ClassDraft> {
    |d: ClassDraft, q: Pair| class_body_step(d, q)
}

/// What reading a class body node does to the draft.
pub open spec fn class_body_reading(d: ClassDraft, p: Pair) -> Flow<ClassDraft> {
    if p.rule != Rule::ClassBody {
        Flow::Stop(ErrorView::UnexpectedRule(Rule::ClassBody, p.rule))
    } else {
        read_all(p.inner@, d, class_body_stepper())
    }
}

/// One inner node of a class interface list: names are taken.
pub open spec fn interfaces_step(is: Seq<Seq<char>>, q: Pair) -> Flow<Seq<Seq<char>>> {
    if q.rule == Rule::Ident {
        Flow::Go(is.push(q.text@))
    } else {
        Flow::Go(is)
    }
}

/// [`interfaces_step`] as a value.
pub open spec fn interfaces_stepper() -> spec_fn(Seq<Seq<char>>, Pair) -> Flow<Seq<Seq<char>>> {
    |is: Seq<Seq<char>>, q: Pair| interfaces_step(is, q)
}

/// One inner node of a class. An error in its body makes the reader panic.
pub open spec fn class_step(d: ClassDraft, q: Pair) -> Flow<ClassDraft> {
    if q.rule == Rule::Comment {
        match comment_type_index(q.text@) {
            Ok(None) => Flow::Go(d),
            Ok(Some(n)) => Flow::Go(ClassDraft { type_index: Some(n), ..d }),
            Err(e) => Flow::Stop(e),
        }
    } else if q.rule == Rule::ModifierVisibility {
        match visibility_of(q.text@) {
            Some(v) => Flow::Go(ClassDraft { visibility: Some(v), ..d }),
            None => Flow::Panic,
        }
    } else if q.rule == Rule::Ident {
        Flow::Go(ClassDraft { name: Some(q.text@), ..d })
    } else if q.rule == Rule::ClassBody {
        match class_body_reading(d, q) {
            Flow::Go(d2) => Flow::Go(d2),
            _ => Flow::Panic,
        }
    } else if q.rule == Rule::ClassModifier {
        match class_modifier_of(q.text@) {
            Some(m) => Flow::Go(ClassDraft { modifier: Some(m), ..d }),
            None => Flow::Panic,
        }
    } else if q.rule == Rule::ClassInterfaces {
        match read_all(q.inner@, d.interfaces, interfaces_stepper()) {
            Flow::Go(is) => Flow::Go(ClassDraft { interfaces: is, ..d }),
            other => Flow::Panic,
        }
    } else {
        Flow::Stop(ErrorView::UnexpectedInnerRule(Rule::ClassBody, q.rule))
    }
}

/// [`class_step`] as a value.
pub open spec fn class_stepper() -> spec_fn(ClassDraft, Pair) -> Flow<ClassDraft> {
    |d: ClassDraft, q: Pair| class_step(d, q)
}

/// The class a complete draft gives, or the first part it lacks.
pub open spec fn class_built(d: ClassDraft) -> Result<ClassView, ErrorView> {
    match d.visibility {
        None => Err(ErrorView::Builder("visibility"@)),
        Some(visibility) => match d.name {
            None => Err(ErrorView::Builder("name"@)),
            Some(name) => Ok(ClassView {
                visibility,
                modifier: d.modifier,
                name,
                interfaces: d.interfaces,
                type_index: d.type_index,
                methods: d.methods,
                fields: d.fields,
                properties: d.properties,
            }),
        },
    }
}

/// The draft of a class with nothing read.
pub open spec fn empty_class_draft() -> ClassDraft {
    ClassDraft {
        visibility: None,
        modifier: None,
        name: None,
        interfaces: seq![],
        type_index: None,
        methods: seq![],
        fields: seq![],
        properties: seq![],
    }
}

/// Reading a class node.
pub open spec fn class_reading(p: Pair) -> Flow<ClassDraft> {
    if p.rule != Rule::Class {
        Flow::Stop(ErrorView::UnexpectedRule(Rule::Class, p.rule))
    } else {
        read_all(p.inner@, empty_class_draft(), class_stepper())
    }
}

/// What reading a class node gives, when it does not panic.
pub open spec fn class_of(p: Pair) -> Result<ClassView, ErrorView> {
    match class_reading(p) {
        Flow::Go(d) => class_built(d),
        Flow::Stop(e) => Err(e),
        Flow::Panic => Err(ErrorView::Builder(seq![])),
    }
}

/// The parts of a class read so far.
struct ClassParts {
    visibility: Option<Visibility>,
    modifier: Option<ClassModifier>,
    name: Option<String>,
    interfaces: Vec<String>,
    type_index: Option<u64>,
    methods: Vec<Method>,
    fields: Vec<Field>,
    properties: Vec<Property>,
}

impl View for ClassParts {
    type V = ClassDraft;

    closed spec fn view(&self) -> ClassDraft {
        ClassDraft {
            visibility: self.visibility,
            modifier: self.modifier,
            name: string_option_view(self.name),
            interfaces: views(self.interfaces@),
            type_index: self.type_index,
            methods: views(self.methods@),
            fields: views(self.fields@),
            properties: views(self.properties@),
        }
    }
}

#[verifier::loop_isolation(false)]
fn read_class_member(class: &mut ClassParts, p: &Pair) -> (res: Option<Result<(), Error>>)
    ensures
        res is None <==> read_all(p.inner@, old(class)@, class_member_stepper()) is Panic,
        res matches Some(r) ==> match r {
            Ok(_) => read_all(p.inner@, old(class)@, class_member_stepper()) == Flow::Go(final(class)@),
            Err(e) => read_all(p.inner@, old(class)@, class_member_stepper()) == Flow::<ClassDraft>::Stop(e@),
        },
{
    let ghost s = p.inner@;
    let ghost init = class@;
    let mut i: usize = 0;
    assert(s.take(0) =~= Seq::<Pair>::empty());
    while i < p.inner.len()
        invariant
            i <= s.len(),
            init == old(class)@,
            read_all(s.take(i as int), init, class_member_stepper()) == Flow::Go(class@),
        decreases s.len() - i,
    {
        let q = &p.inner[i];
        proof { lemma_read_all_step(s, i as int, init, class_member_stepper()); }
        let ghost before = class@;
        match q.rule {
            Rule::Comment | Rule::Attribute => {},
            Rule::Method => {
                match Method::read(q) {
                    Some(Ok(m)) => {
                        let ghost mv = m@;
                        class.methods.push(m);
                        assert(views(class.methods@) =~= before.methods.push(mv));
                    },
                    _ => {
                        proof { lemma_read_all_halts(s, i + 1, init, class_member_stepper()); }
                        return None;
                    },
                }
            },
            Rule::Field => {
                match Field::read(q) {
                    Some(Ok(f)) => {
                        let ghost fv = f@;
                        class.fields.push(f);
                        assert(views(class.fields@) =~= before.fields.push(fv));
                    },
                    _ => {
                        proof { lemma_read_all_halts(s, i + 1, init, class_member_stepper()); }
                        return None;
                    },
                }
            },
            Rule::Property => {
                match Property::read(q) {
                    Some(Ok(pr)) => {
                        let ghost pv = pr@;
                        class.properties.push(pr);
                        assert(views(class.properties@) =~= before.properties.push(pv));
                    },
                    _ => {
                        proof { lemma_read_all_halts(s, i + 1, init, class_member_stepper()); }
                        return None;
                    },
                }
            },
            r => {
                proof { lemma_read_all_halts(s, i + 1, init, class_member_stepper()); }
                return Some(Err(Error::UnexpectedInnerRule(Rule::ClassBody, r)));
            },
        }
        i = i + 1;
    }
    proof { lemma_take_all(s); }
    Some(Ok(()))
}

impl Class {
    /// Reads a class body node into the class under construction.
    #[verifier::loop_isolation(false)]
    fn process_body(class: &mut ClassParts, pair: &Pair) -> (res: Option<Result<(), Error>>)
        ensures
            res is None <==> class_body_reading(old(class)@, *pair) is Panic,
            res matches Some(r) ==> match r {
                Ok(_) => class_body_reading(old(class)@, *pair) == Flow::Go(final(class)@),
                Err(e) => class_body_reading(old(class)@, *pair) == Flow::<ClassDraft>::Stop(e@),
            },
    {
        if let Err(e) = Error::rule_matches(Rule::ClassBody, pair.rule) {
            return Some(Err(e));
        }
        let ghost s = pair.inner@;
        let ghost init = class@;
        let mut i: usize = 0;
        assert(s.take(0) =~= Seq::<Pair>::empty());
        while i < pair.inner.len()
            invariant
                i <= s.len(),
                init == old(class)@,
                read_all(s.take(i as int), init, class_body_stepper()) == Flow::Go(class@),
            decreases s.len() - i,
        {
            let q = &pair.inner[i];
            proof { lemma_read_all_step(s, i as int, init, class_body_stepper()); }
            if q.rule == Rule::ClassMember {
                match read_class_member(class, q) {
                    Some(Ok(_)) => {},
                    Some(Err(e)) => {
                        proof { lemma_read_all_halts(s, i + 1, init, class_body_stepper()); }
                        return Some(Err(e));
                    },
                    None => {
                        proof { lemma_read_all_halts(s, i + 1, init, class_body_stepper()); }
                        return None;
                    },
                }
            }
            i = i + 1;
        }
        proof { lemma_take_all(s); }
        Some(Ok(()))
    }

    /// Reads a class node.
    pub fn try_from(value: &Pair) -> (res: Result<Class, Error>)
        requires
            !(class_reading(*value) is Panic),
        ensures
            match res {
                Ok(c) => class_of(*value) == Ok::<ClassView, ErrorView>(c@),
                Err(e) => class_of(*value) == Err::<ClassView, ErrorView>(e@),
            },
    {
        match Self::read(value) {
            Some(r) => r,
            None => {
                assert(false);
                Err(Error::from_builder_error(""))
            },
        }
    }

    /// Reads a class node, or gives `None` where reading it panics.
    #[verifier::loop_isolation(false)]
    pub fn read(value: &Pair) -> (res: Option<Result<Class, Error>>)
        ensures
            res is None <==> class_reading(*value) is Panic,
            res matches Some(r) ==> match r {
                Ok(c) => class_of(*value) == Ok::<ClassView, ErrorView>(c@),
                Err(e) => class_of(*value) == Err::<ClassView, ErrorView>(e@),
            },
    {
        if let Err(e) = Error::rule_matches(Rule::Class, value.rule) {
            return Some(Err(e));
        }
        let ghost s = value.inner@;
        let ghost init = empty_class_draft();
        let mut d = ClassParts {
            visibility: None,
            modifier: None,
            name: None,
            interfaces: Vec::new(),
            type_index: None,
            methods: Vec::new(),
            fields: Vec::new(),
            properties: Vec::new(),
        };
        proof {
            assert(views(d.interfaces@) =~= Seq::<Seq<char>>::empty());
            assert(views(d.methods@) =~= Seq::<MethodView>::empty());
            assert(views(d.fields@) =~= Seq::<FieldView>::empty());
            assert(views(d.properties@) =~= Seq::<PropertyView>::empty());
        }
        assert(d@ == init);
        let mut i: usize = 0;
        assert(s.take(0) =~= Seq::<Pair>::empty());
        while i < value.inner.len()
            invariant
                i <= s.len(),
                read_all(s.take(i as int), init, class_stepper()) == Flow::Go(d@),
            decreases s.len() - i,
        {
            let q = &value.inner[i];
            proof { lemma_read_all_step(s, i as int, init, class_stepper()); }
            match q.rule {
                Rule::Comment => match read_type_index(q) {
                    Ok(Some(n)) => {
                        d.type_index = Some(n);
                    },
                    Ok(None) => {},
                    Err(e) => {
                        proof { lemma_read_all_halts(s, i + 1, init, class_stepper()); }
                        return Some(Err(e));
                    },
                },
                Rule::ModifierVisibility => match Visibility::try_from(q) {
                    Ok(v) => {
                        d.visibility = Some(v);
                    },
                    Err(_) => {
                        proof { lemma_read_all_halts(s, i + 1, init, class_stepper()); }
                        return None;
                    },
                },
                Rule::Ident => {
                    d.name = Some(copy_string(&q.text));
                },
                Rule::ClassBody => {
                    match Class::process_body(&mut d, q) {
                        Some(Ok(_)) => {},
                        _ => {
                            proof { lemma_read_all_halts(s, i + 1, init, class_stepper()); }
                            return None;
                        },
                    }
                },
                Rule::ClassModifier => match ClassModifier::try_from(q) {
                    Ok(m) => {
                        d.modifier = Some(m);
                    },
                    Err(_) => {
                        proof { lemma_read_all_halts(s, i + 1, init, class_stepper()); }
                        return None;
                    },
                },
                Rule::ClassInterfaces => {
                    let ghost is0 = views(d.interfaces@);
                    let ghost d0 = d@;
                    let mut k: usize = 0;
                    let ghost t = q.inner@;
                    assert(t.take(0) =~= Seq::<Pair>::empty());
                    while k < q.inner.len()
                        invariant
                            k <= t.len(),
                            t == q.inner@,
                            read_all(t.take(k as int), is0, interfaces_stepper()) == Flow::Go(views(d.interfaces@)),
                            d@ == (ClassDraft { interfaces: views(d.interfaces@), ..d0 }),
                        decreases t.len() - k,
                    {
                        proof { lemma_read_all_step(t, k as int, is0, interfaces_stepper()); }
                        let name = &q.inner[k];
                        if name.rule == Rule::Ident {
                            let ghost before = views(d.interfaces@);
                            d.interfaces.push(copy_string(&name.text));
                            assert(views(d.interfaces@) =~= before.push(name.text@));
                        }
                        k = k + 1;
                    }
                    proof { lemma_take_all(t); }
                },
                r => {
                    proof { lemma_read_all_halts(s, i + 1, init, class_stepper()); }
                    return Some(Err(Error::UnexpectedInnerRule(Rule::ClassBody, r)));
                },
            }
            i = i + 1;
        }
        proof { lemma_take_all(s); }
        let visibility = match d.visibility {
            Some(t) => t,
            None => return Some(Err(Error::from_builder_error("visibility"))),
        };
        let name = match d.name {
            Some(t) => t,
            None => return Some(Err(Error::from_builder_error("name"))),
        };
        Some(Ok(Class {
            visibility,
            modifier: d.modifier,
            name,
            interfaces: d.interfaces,
            type_index: d.type_index,
            methods: d.methods,
            fields: d.fields,
            properties: d.properties,
        }))
    }
}

/// The number of attribute nodes that `s` starts with.
pub open spec fn attribute_run(s: Seq<Pair>) -> nat
    decreases s.len(),
{
    if s.len() == 0 || s[0].rule != Rule::Attribute {
        0
    } else {
        1 + attribute_run(s.drop_first())
    }
}

proof fn lemma_attribute_run(s: Seq<Pair>, i: int)
    requires
        0 <= i <= attribute_run(s),
    ensures
        attribute_run(s) <= s.len(),
        forall|j: int| 0 <= j < i ==> (#[trigger] s[j]).rule == Rule::Attribute,
        i < s.len() && s[i].rule != Rule::Attribute ==> attribute_run(s) == i,
        attribute_run(s) < s.len() ==> s[attribute_run(s) as int].rule != Rule::Attribute,
    decreases s.len(),
{
    if s.len() > 0 && s[0].rule == Rule::Attribute {
        if i > 0 {
            lemma_attribute_run(s.drop_first(), i - 1);
            assert forall|j: int| 0 <= j < i implies (#[trigger] s[j]).rule == Rule::Attribute by {
                if j > 0 {
                    assert(s[j] == s.drop_first()[j - 1]);
                }
            }
        } else {
            lemma_attribute_run(s.drop_first(), 0);
        }
        if attribute_run(s) < s.len() {
            assert(s[attribute_run(s) as int] == s.drop_first()[attribute_run(s.drop_first()) as int]);
        }
    }
}

/// Reading a top-level member node: it must be one (else the reader
/// panics); its leading attributes are taken, then the next node gives
/// its kind. Without such a node the reader panics.
pub open spec fn data_struct_reading(p: Pair) -> Flow<DataStructView> {
    let s = p.inner@;
    let k = attribute_run(s) as int;
    if p.rule != Rule::FileMember || k >= s.len() {
        Flow::Panic
    } else {
        let q = s[k];
        let attributes = s.take(k).map_values(|a: Pair| a.text@);
        if q.rule == Rule::Class {
            if class_reading(q) is Panic {
                Flow::Panic
            } else {
                match class_of(q) {
                    Ok(c) => Flow::Go(DataStructView { namespace: None, attributes, kind: DataStructInnerView::Class(c) }),
                    Err(e) => Flow::Stop(e),
                }
            }
        } else if q.rule == Rule::Enum {
            if enum_reading(q) is Panic {
                Flow::Panic
            } else {
                match enum_of(q) {
                    Ok(e) => Flow::Go(DataStructView { namespace: None, attributes, kind: DataStructInnerView::Enum(e) }),
                    Err(e) => Flow::Stop(e),
                }
            }
        } else if q.rule == Rule::Struct {
            Flow::Go(DataStructView { namespace: None, attributes, kind: DataStructInnerView::Struct })
        } else if q.rule == Rule::Interface {
            Flow::Go(DataStructView { namespace: None, attributes, kind: DataStructInnerView::Interface })
        } else {
            Flow::Stop(ErrorView::UnexpectedInnerRule(Rule::FileMember, q.rule))
        }
    }
}

impl DataStruct {
    /// Reads a top-level member node.
    pub fn try_from(value: &Pair) -> (res: Result<DataStruct, Error>)
        requires
            !(data_struct_reading(*value) is Panic),
        ensures
            match res {
                Ok(d) => data_struct_reading(*value) == Flow::Go(d@),
                Err(e) => data_struct_reading(*value) == Flow::<DataStructView>::Stop(e@),
            },
    {
        match Self::read(value) {
            Some(r) => r,
            None => {
                assert(false);
                Err(Error::from_builder_error(""))
            },
        }
    }

    /// Reads a top-level member node, or gives `None` where reading it
    /// panics.
    pub fn read(value: &Pair) -> (res: Option<Result<DataStruct, Error>>)
        ensures
            match res {
                None => data_struct_reading(*value) is Panic,
                Some(Ok(d)) => data_struct_reading(*value) == Flow::Go(d@),
                Some(Err(e)) => data_struct_reading(*value) == Flow::<DataStructView>::Stop(e@),
            },
    {
        if value.rule != Rule::FileMember {
            return None;
        }
        let ghost s = value.inner@;
        let mut attributes: Vec<Attribute> = Vec::new();
        let mut i: usize = 0;
        proof { lemma_attribute_run(s, 0); }
        while i < value.inner.len()
            invariant
                i <= s.len(),
                s == value.inner@,
                i <= attribute_run(s),
                value.rule == Rule::FileMember,
                attribute_texts(attributes@) == s.take(i as int).map_values(|a: Pair| a.text@),
            decreases s.len() - i,
        {
            let q = &value.inner[i];
            proof { lemma_attribute_run(s, i as int); }
            let ghost texts = s.take(i as int).map_values(|a: Pair| a.text@);
            match q.rule {
                Rule::Attribute => {
                    let a = match Attribute::try_from(q) {
                        Ok(a) => a,
                        Err(_) => {
                            assert(false);
                            return Some(Err(Error::from_builder_error("")));
                        },
                    };
                    let ghost before = attribute_texts(attributes@);
                    attributes.push(a);
                    proof {
                        assert(attribute_texts(attributes@) =~= before.push(q.text@));
                        assert(s.take(i + 1).map_values(|a: Pair| a.text@) =~= texts.push(q.text@));
                        if i + 1 > attribute_run(s) {
                            lemma_attribute_run(s, attribute_run(s) as int);
                        }
                    }
                },
                Rule::Class => {
                    return match Class::read(q) {
                        Some(Ok(c)) => Some(Ok(DataStruct { attributes, kind: DataStructInner::Class(c), namespace: None })),
                        Some(Err(e)) => Some(Err(e)),
                        None => None,
                    };
                },
                Rule::Enum => {
                    return match Enum::read(q) {
                        Some(Ok(e)) => Some(Ok(DataStruct { attributes, kind: DataStructInner::Enum(e), namespace: None })),
                        Some(Err(e)) => Some(Err(e)),
                        None => None,
                    };
                },
                Rule::Struct => {
                    return Some(Ok(DataStruct { attributes, kind: DataStructInner::Struct, namespace: None }));
                },
                Rule::Interface => {
                    return Some(Ok(DataStruct { attributes, kind: DataStructInner::Interface, namespace: None }));
                },
                r => {
                    return Some(Err(Error::UnexpectedInnerRule(Rule::FileMember, r)));
                },
            }
            i = i + 1;
        }
        proof { lemma_attribute_run(s, i as int); }
        None
    }
}

/// The state of reading a dump: the last comment seen, and the members
/// read so far.
pub struct FileDraft {
    pub last_comment: Option<Seq<char>>,
    pub members: Seq<DataStructView>,
}

/// The namespace a `// Namespace: ...` comment names.
pub open spec fn comment_namespace(c: Seq<char>) -> Option<Seq<char>> {
    strip_prefix_of(comment_body(c), "Namespace: "@)
}

/// One inner node of the dump: a comment is kept for the next member,
/// which takes the namespace it names; an error in a member, or a node of
/// another rule, makes the reader panic.
pub open spec fn file_step(d: FileDraft, q: Pair) -> Flow<FileDraft> {
    if q.rule == Rule::Comment {
        Flow::Go(FileDraft { last_comment: Some(q.text@), ..d })
    } else if q.rule == Rule::FileMember {
        match data_struct_reading(q) {
            Flow::Go(m) => Flow::Go(FileDraft {
                last_comment: None,
                members: d.members.push(DataStructView {
                    namespace: match d.last_comment {
                        Some(c) => comment_namespace(c),
                        None => None,
                    },
                    ..m
                }),
            }),
            _ => Flow::Panic,
        }
    } else if q.rule == Rule::Eoi {
        Flow::Go(d)
    } else {
        Flow::Panic
    }
}

/// [`file_step`] as a value.
pub open spec fn file_stepper() -> spec_fn(FileDraft, Pair) -> Flow<FileDraft> {
    |d: FileDraft, q: Pair| file_step(d, q)
}

/// Reading the root node of a dump.
pub open spec fn file_reading(p: Pair) -> Flow<FileDraft> {
    read_all(p.inner@, FileDraft { last_comment: None, members: seq![] }, file_stepper())
}

impl ParsedFile {
    /// Reads the root node of a dump: its members in order, each with the
    /// namespace of the comment right before it.
    pub fn from_tree(file: &Pair) -> (res: ParsedFile)
        requires
            !(file_reading(*file) is Panic),
        ensures
            file_reading(*file) matches Flow::Go(d) && d.members == res@.members,
    {
        match Self::try_from_tree(file) {
            Some(f) => f,
            None => {
                assert(false);
                ParsedFile { members: Vec::new() }
            },
        }
    }

    /// The file [`Self::from_tree`] reads, or `None` where reading the
    /// dump panics: a member that cannot be read, or a node of a rule no
    /// dump holds at its top level.
    #[verifier::loop_isolation(false)]
    pub fn try_from_tree(file: &Pair) -> (res: Option<ParsedFile>)
        ensures
            match res {
                None => file_reading(*file) is Panic,
                Some(f) => file_reading(*file) matches Flow::Go(d) && d.members == f@.members,
            },
    {
        let ghost s = file.inner@;
        let ghost init = FileDraft { last_comment: None, members: seq![] };
        let mut last_comment: Option<Comment> = None;
        let mut members: Vec<DataStruct> = Vec::new();
        let mut i: usize = 0;
        assert(s.take(0) =~= Seq::<Pair>::empty());
        assert(members@.map_values(|d: DataStruct| d@) =~= Seq::<DataStructView>::empty());
        while i < file.inner.len()
            invariant
                i <= s.len(),
                read_all(s.take(i as int), init, file_stepper()) == Flow::Go(FileDraft {
                    last_comment: match last_comment {
                        Some(c) => Some(c.0@),
                        None => None,
                    },
                    members: members@.map_values(|d: DataStruct| d@),
                }),
            decreases s.len() - i,
        {
            let q = &file.inner[i];
            proof { lemma_read_all_step(s, i as int, init, file_stepper()); }
            match q.rule {
                Rule::Comment => {
                    last_comment = Some(Comment(copy_string(&q.text)));
                },
                Rule::FileMember => {
                    match DataStruct::read(q) {
                        Some(Ok(mut member)) => {
                            let ghost before = members@.map_values(|d: DataStruct| d@);
                            member.namespace = match last_comment.take() {
                                Some(c) => c.try_extract_namespace(),
                                None => None,
                            };
                            let ghost mv = member@;
                            members.push(member);
                            assert(members@.map_values(|d: DataStruct| d@) =~= before.push(mv));
                        },
                        _ => {
                            proof { lemma_read_all_halts(s, i + 1, init, file_stepper()); }
                            return None;
                        },
                    }
                },
                Rule::Eoi => {},
                _ => {
                    proof { lemma_read_all_halts(s, i + 1, init, file_stepper()); }
                    return None;
                },
            }
            i = i + 1;
        }
        proof { lemma_take_all(s); }
        Some(ParsedFile { members })
    }
}

} // verus!
