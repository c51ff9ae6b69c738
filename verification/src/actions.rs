//! The semantic actions of the outline grammar: they build the outline of a
//! model (its components, handlers and their locations) from what the parser
//! recognized.
use vstd::prelude::*;
use crate::lexer::{Ctx, Token};
use crate::location::{Position, SourceLocation};
use crate::text::{all_chars, split_after_chars};

verus! {

pub type OBrace = ();

pub fn obrace<'i>(_ctx: &Ctx<'i>, _token: Token<'i>) -> OBrace {
}

pub type CBrace = ();

pub fn cbrace<'i>(_ctx: &Ctx<'i>, _token: Token<'i>) -> CBrace {
}

pub type ComponentKW = ();

pub fn component_kw<'i>(_ctx: &Ctx<'i>, _token: Token<'i>) -> ComponentKW {
}

pub type ConfigurationKW = ();

pub fn configuration_kw<'i>(_ctx: &Ctx<'i>, _token: Token<'i>) -> ConfigurationKW {
}

pub type CodeKW = ();

pub fn code_kw<'i>(_ctx: &Ctx<'i>, _token: Token<'i>) -> CodeKW {
}

pub type EndCodeKW = ();

pub fn end_code_kw<'i>(_ctx: &Ctx<'i>, _token: Token<'i>) -> EndCodeKW {
}

pub type ModelKW = ();

pub fn model_kw<'i>(_ctx: &Ctx<'i>, _token: Token<'i>) -> ModelKW {
}

pub type ID = String;

/// An identifier is the text of its token.
pub fn id<'i>(_ctx: &Ctx<'i>, token: Token<'i>) -> (r: ID)
    ensures
        r@ == token.value@,
{
    token.value.to_owned()
}

pub type TillEndCodeKW = ();

pub fn till_end_code_kw<'i>(_ctx: &Ctx<'i>, _token: Token<'i>) -> TillEndCodeKW {
}

pub type Name = String;

/// The text of a name: a quoted name loses its first and last characters.
pub open spec fn unquoted(s: Seq<char>) -> Seq<char> {
    if s.len() > 0 && (s[0] == '"' || s[0] == '\'') {
        if s.len() >= 2 {
            s.subrange(1, s.len() - 1)
        } else {
            Seq::empty()
        }
    } else {
        s
    }
}

/// A name is the text of its token, without the quotes when it is quoted.
pub fn name<'i>(_ctx: &Ctx<'i>, token: Token<'i>) -> (r: Name)
    ensures
        r@ == unquoted(token.value@),
{
    let chars = all_chars(token.value);
    let n = chars.len();
    if n > 0 && (chars[0] == '"' || chars[0] == '\'') {
        if n >= 2 {
            assert(chars@ =~= token.value@.take(chars@.len() as int));
            let (inner_and_first, _) = split_after_chars(token.value, &chars, n - 1);
            let inner_chars = all_chars(inner_and_first);
            assert(inner_chars@ =~= inner_and_first@.take(inner_chars@.len() as int));
            let (_, inner) = split_after_chars(inner_and_first, &inner_chars, 1);
            proof {
                assert(inner@ =~= token.value@.subrange(1, n - 1));
            }
            inner.to_owned()
        } else {
            String::new()
        }
    } else {
        token.value.to_owned()
    }
}

/// The line/column span of a construct in the model.
#[derive(Debug)]
pub struct Location {
    pub line_start: usize,
    pub column_start: usize,
    pub line_end: usize,
    pub column_end: usize,
}

/// The location has a line/column based start and end.
pub open spec fn is_line_span(location: SourceLocation) -> bool {
    &&& location.start is LineBased
    &&& location.end matches Some(end) && end is LineBased
}

/// The line/column span of a line/column based location.
pub open spec fn line_span(location: SourceLocation) -> Location
    recommends
        is_line_span(location),
{
    let start = location.start->LineBased_0;
    let end = location.end->0->LineBased_0;
    Location {
        line_start: start.line,
        column_start: start.column,
        line_end: end.line,
        column_end: end.column,
    }
}

impl Location {
    /// The line/column span of a parser location, which must have a
    /// line/column based start and end.
    pub fn from_location(location: SourceLocation) -> (r: Location)
        requires
            is_line_span(location),
        ensures
            r == line_span(location),
            r.line_start == location.start->LineBased_0.line,
            r.column_start == location.start->LineBased_0.column,
            r.line_end == location.end->0->LineBased_0.line,
            r.column_end == location.end->0->LineBased_0.column,
    {
        let (line_start, column_start) = match location.start {
            Position::LineBased(lb) => (lb.line, lb.column),
            Position::Position(_) => (0, 0),
        };
        let (line_end, column_end) = match location.end {
            Some(Position::LineBased(lb)) => (lb.line, lb.column),
            _ => (0, 0),
        };
        Location { line_start, column_start, line_end, column_end }
    }
}

/// A model (or a library) with its name, its configuration and its elements.
#[derive(Debug)]
pub struct Model {
    pub name: Name,
    pub location: Location,
    pub configuration: Option<Configuration>,
    pub elements: Element0,
}

pub fn model_c1(
    ctx: &Ctx,
    _model_kw: ModelKW,
    name: Name,
    _obrace: OBrace,
    configuration: Option<Configuration>,
    elements: Element0,
    _cbrace: CBrace,
) -> (r: Model)
    requires
        is_line_span(ctx.location),
    ensures
        r.name == name,
        r.location == line_span(ctx.location),
        r.configuration == configuration,
        r.elements == elements,
{
    Model { name, location: Location::from_location(ctx.location), configuration, elements }
}

/// An element of a model: a component, a handler, or a block of which the
/// outline keeps nothing.
#[derive(Debug)]
pub enum Element {
    Component(Component),
    Handler(Handler),
    Block,
}

pub fn element_component(_ctx: &Ctx, component: Component) -> (r: Element)
    ensures
        r == Element::Component(component),
{
    Element::Component(component)
}

pub fn element_handler(_ctx: &Ctx, handler: Handler) -> (r: Element)
    ensures
        r == Element::Handler(handler),
{
    Element::Handler(handler)
}

pub fn element_block(_ctx: &Ctx, _block: Block) -> (r: Element)
    ensures
        r == Element::Block,
{
    Element::Block
}

pub type Element0 = Option<Element1>;

pub fn element0_element1(_ctx: &Ctx, element1: Element1) -> (r: Element0)
    ensures
        r == Some(element1),
{
    Some(element1)
}

pub fn element0_empty(_ctx: &Ctx) -> (r: Element0)
    ensures
        r is None,
{
    None
}

pub type Element1 = Vec<Element>;

/// The outline keeps components and handlers, and drops blocks.
pub open spec fn is_kept(element: Element) -> bool {
    element is Component || element is Handler
}

/// The elements kept from `elements`, in order.
pub open spec fn kept(elements: Seq<Element>) -> Seq<Element> {
    elements.filter(|e: Element| is_kept(e))
}

/// The list that starts with `element`: the element itself when it is kept,
/// otherwise nothing.
pub open spec fn first_list(element: Element) -> Seq<Element> {
    if is_kept(element) { seq![element] } else { Seq::<Element>::empty() }
}

/// The list `list` followed by `element` when it is kept.
pub open spec fn next_list(list: Seq<Element>, element: Element) -> Seq<Element> {
    if is_kept(element) { list.push(element) } else { list }
}

/// The list built from a non-empty run of elements: the first element starts
/// it, and each later one is added to it, in order.
pub open spec fn built_list(elements: Seq<Element>) -> Seq<Element> {
    elements.skip(1).fold_left(first_list(elements[0]), |list: Seq<Element>, e: Element| next_list(list, e))
}

pub fn element1_c1(_ctx: &Ctx, element1: Element1, element: Element) -> (r: Element1)
    ensures
        r@ == next_list(element1@, element),
{
    let mut element1 = element1;
    if let Element::Component(_) | Element::Handler(_) = element {
        element1.push(element)
    }
    element1
}

pub fn element1_element(_ctx: &Ctx, element: Element) -> (r: Element1)
    ensures
        r@ == first_list(element),
{
    let mut v: Vec<Element> = Vec::new();
    if let Element::Component(_) | Element::Handler(_) = element {
        v.push(element)
    }
    v
}

/// A component with its type, name, optional identifier and elements.
#[derive(Debug)]
pub struct Component {
    pub component_type: String,
    pub name: Name,
    pub idopt: IDOpt,
    pub elements: Box<Element0>,
    pub location: Location,
}

pub fn component_c1(
    ctx: &Ctx,
    _component_kw: ComponentKW,
    component_type: TypeName,
    name: Name,
    idopt: IDOpt,
    _obrace: OBrace,
    elements: Element0,
    _cbrace: CBrace,
) -> (r: Component)
    requires
        is_line_span(ctx.location),
    ensures
        r.component_type == type_name_text(component_type),
        r.name == name,
        r.idopt == idopt,
        *r.elements == elements,
        r.location == line_span(ctx.location),
{
    Component {
        component_type: String::from(component_type),
        name,
        idopt,
        elements: Box::new(elements),
        location: Location::from_location(ctx.location),
    }
}

pub type IDOpt = Option<ID>;

pub fn idopt_id(_ctx: &Ctx, id: ID) -> (r: IDOpt)
    ensures
        r == Some(id),
{
    Some(id)
}

pub fn idopt_empty(_ctx: &Ctx) -> (r: IDOpt)
    ensures
        r is None,
{
    None
}

/// The configuration block of a model; the outline keeps its location.
#[derive(Debug)]
pub struct Configuration {
    pub location: Location,
}

pub fn configuration_c1(ctx: &Ctx, _configuration_kw: ConfigurationKW, _block: Block) -> (r: Configuration)
    requires
        is_line_span(ctx.location),
    ensures
        r.location == line_span(ctx.location),
{
    Configuration { location: Location::from_location(ctx.location) }
}

/// A block in braces.
#[derive(Debug)]
pub struct Block {
    pub element0: Element0,
}

pub fn block_c1(_ctx: &Ctx, _obrace: OBrace, element0: Element0, _cbrace: CBrace) -> (r: Block)
    ensures
        r.element0 == element0,
{
    Block { element0 }
}

/// A code handler with its name.
#[derive(Debug)]
pub struct Handler {
    pub name: ID,
    pub location: Location,
}

pub fn handler_c1(
    ctx: &Ctx,
    _code_kw: CodeKW,
    name: ID,
    _till_end_code_kwopt: TillEndCodeKWOpt,
    _end_code_kw: EndCodeKW,
) -> (r: Handler)
    requires
        is_line_span(ctx.location),
    ensures
        r.name == name,
        r.location == line_span(ctx.location),
{
    Handler { name, location: Location::from_location(ctx.location) }
}

pub type TillEndCodeKWOpt = ();

pub fn till_end_code_kwopt_till_end_code_kw(_ctx: &Ctx, _till_end_code_kw: TillEndCodeKW) -> TillEndCodeKWOpt {
}

pub fn till_end_code_kwopt_empty(_ctx: &Ctx) -> TillEndCodeKWOpt {
}

/// The type of a component, written as a name or as an identifier.
#[derive(Debug)]
pub enum TypeName {
    Name(Name),
    ID(ID),
}

/// The text of a component type.
pub open spec fn type_name_text(value: TypeName) -> String {
    match value {
        TypeName::Name(s) => s,
        TypeName::ID(s) => s,
    }
}

impl From<TypeName> for String {
    fn from(value: TypeName) -> (r: Self) {
        match value {
            TypeName::Name(s) => s,
            TypeName::ID(s) => s,
        }
    }
}

impl vstd::std_specs::convert::FromSpecImpl<TypeName> for String {
    open spec fn obeys_from_spec() -> bool {
        true
    }

    open spec fn from_spec(value: TypeName) -> String {
        type_name_text(value)
    }
}

pub fn type_name_name(_ctx: &Ctx, name: Name) -> (r: TypeName)
    ensures
        r == TypeName::Name(name),
{
    TypeName::Name(name)
}

pub fn type_name_id(_ctx: &Ctx, id: ID) -> (r: TypeName)
    ensures
        r == TypeName::ID(id),
{
    TypeName::ID(id)
}

pub type LibraryKW = ();

pub fn library_kw<'i>(_ctx: &Ctx<'i>, _token: Token<'i>) -> LibraryKW {
}

pub type ConfigurationOpt = Option<Configuration>;

pub fn configuration_opt_configuration(_ctx: &Ctx, configuration: Configuration) -> (r: ConfigurationOpt)
    ensures
        r == Some(configuration),
{
    Some(configuration)
}

pub fn configuration_opt_empty(_ctx: &Ctx) -> (r: ConfigurationOpt)
    ensures
        r is None,
{
    None
}

pub type ModelOrLibrary = ();

pub fn model_or_library_model_kw(_ctx: &Ctx, _model_kw: ModelKW) -> ModelOrLibrary {
}

pub fn model_or_library_library_kw(_ctx: &Ctx, _library_kw: LibraryKW) -> ModelOrLibrary {
}


/// `b` is a copy of the element `a`: the same variant with equal fields, and
/// the elements of a component copied in turn.
pub open spec fn copy_of_element(a: Element, b: Element) -> bool
    decreases a,
{
    match a {
        Element::Component(x) => b matches Element::Component(y) && copy_of_component(x, y),
        Element::Handler(x) => b == Element::Handler(x),
        Element::Block => b is Block,
    }
}

/// `b` is a copy of the component `a`.
pub open spec fn copy_of_component(a: Component, b: Component) -> bool
    decreases a,
{
    &&& b.component_type == a.component_type
    &&& b.name == a.name
    &&& b.idopt == a.idopt
    &&& b.location == a.location
    &&& copy_of_elements(*a.elements, *b.elements)
}

/// `b` is a copy of the optional element list `a`: both are absent, or both
/// are lists of the same length whose elements are copies one of the other.
pub open spec fn copy_of_elements(a: Element0, b: Element0) -> bool
    decreases a,
{
    match a {
        None => b is None,
        Some(v) => b matches Some(w) && w.len() == v.len() && forall|i: int|
            0 <= i < v.len() ==> copy_of_element(#[trigger] v[i], w[i]),
    }
}

fn clone_element(e: &Element) -> (r: Element)
    ensures
        copy_of_element(*e, r),
    decreases *e,
{
    match e {
        Element::Component(c) => Element::Component(clone_component(c)),
        Element::Handler(h) => Element::Handler(h.clone()),
        Element::Block => Element::Block,
    }
}

fn clone_component(c: &Component) -> (r: Component)
    ensures
        copy_of_component(*c, r),
    decreases *c,
{
    let idopt = match &c.idopt {
        Some(id) => Some(id.clone()),
        None => None,
    };
    Component {
        component_type: c.component_type.clone(),
        name: c.name.clone(),
        idopt,
        elements: Box::new(clone_elements(&c.elements)),
        location: c.location.clone(),
    }
}

fn clone_elements(o: &Element0) -> (r: Element0)
    ensures
        copy_of_elements(*o, r),
    decreases *o,
{
    match o {
        None => None,
        Some(v) => {
            let mut w: Vec<Element> = Vec::new();
            let mut i: usize = 0;
            while i < v.len()
                invariant
                    *o == Some(*v),
                    i <= v.len(),
                    w.len() == i,
                    forall|j: int| 0 <= j < i ==> copy_of_element(#[trigger] v[j], w[j]),
                decreases v.len() - i,
            {
                proof {
                    assert(decreases_to!(*o => (*o)->0));
                    vstd::std_specs::vec::axiom_vec_index_decreases(*v, i as int);
                    assert(decreases_to!(*o => v[i as int]));
                }
                let e = clone_element(&v[i]);
                w.push(e);
                i = i + 1;
            }
            Some(w)
        },
    }
}

impl Clone for Location {
    fn clone(&self) -> (r: Self)
        ensures
            r == *self,
    {
        Location {
            line_start: self.line_start,
            column_start: self.column_start,
            line_end: self.line_end,
            column_end: self.column_end,
        }
    }
}

impl Clone for Configuration {
    fn clone(&self) -> (r: Self)
        ensures
            r == *self,
    {
        Configuration { location: self.location.clone() }
    }
}

impl Clone for Handler {
    fn clone(&self) -> (r: Self)
        ensures
            r == *self,
    {
        Handler { name: self.name.clone(), location: self.location.clone() }
    }
}

impl Clone for TypeName {
    fn clone(&self) -> (r: Self)
        ensures
            r == *self,
    {
        match self {
            TypeName::Name(s) => TypeName::Name(s.clone()),
            TypeName::ID(s) => TypeName::ID(s.clone()),
        }
    }
}

impl Clone for Element {
    fn clone(&self) -> (r: Self)
        ensures
            copy_of_element(*self, r),
    {
        clone_element(self)
    }
}

impl Clone for Component {
    fn clone(&self) -> (r: Self)
        ensures
            copy_of_component(*self, r),
    {
        clone_component(self)
    }
}

impl Clone for Block {
    fn clone(&self) -> (r: Self)
        ensures
            copy_of_elements(self.element0, r.element0),
    {
        Block { element0: clone_elements(&self.element0) }
    }
}

impl Clone for Model {
    fn clone(&self) -> (r: Self)
        ensures
            r.name == self.name,
            r.location == self.location,
            r.configuration == self.configuration,
            copy_of_elements(self.elements, r.elements),
    {
        let configuration = match &self.configuration {
            Some(c) => Some(c.clone()),
            None => None,
        };
        Model {
            name: self.name.clone(),
            location: self.location.clone(),
            configuration,
            elements: clone_elements(&self.elements),
        }
    }
}

} // verus!
