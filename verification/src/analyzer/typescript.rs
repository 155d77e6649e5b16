//! TypeScript / JavaScript analyzer built on the [oxc](https://oxc.rs) parser.
//!
//! It reduces the syntax tree to every function and method definition together
//! with the source line range it spans. Anonymous functions assigned to a binding
//! (`const f = () => {}`, class fields, object properties) inherit that binding's
//! name so the leaderboard stays readable. A callback argument is named after its
//! callee: an arrow passed to `describe(...)` or `useMemo(...)` is recorded as
//! `describe()` or `useMemo()`.
use oxc_ast_visit::Visit;
use vstd::prelude::*;
use vstd::utf8::encode_utf8;

use super::lines::{LineIndex, line_ends, line_starts, lines_fit, starts_up_to};
use super::outline::{
    Label, LabelView, Outline, OutlineView, binding_outline, binding_view, call_hint,
    call_hint_text, function_outline, function_view, member_outline, member_view, nothing, only,
    outline_result, outline_symbols, put_all, scope_outline, scope_view,
};
use super::tree::{SourceTree, SourceTreeView, tree_view_parts, tree_views};
use super::walk::{TreeWalk, met_next};
use super::{AnalyzerError, Extraction, LanguageAnalyzer, Symbol, str_views, symbol_views};
use crate::text::text_option;

verus! {

/// The memory that a syntax tree lives in.
#[verifier::external_type_specification]
#[verifier::external_body]
pub struct ExAllocator(oxc_allocator::Allocator);

/// Why a path tells no dialect.
#[verifier::external_type_specification]
#[verifier::external_body]
pub struct ExUnknownExtension(oxc_span::UnknownExtension);

/// What a scope is.
#[verifier::external_type_specification]
#[verifier::external_body]
pub struct ExScopeFlags(oxc_syntax::scope::ScopeFlags);

/// A file.
#[verifier::external_type_specification]
#[verifier::external_body]
pub struct ExProgram<'a>(oxc_ast::ast::Program<'a>);

/// A function declaration, expression or method body.
#[verifier::external_type_specification]
#[verifier::external_body]
pub struct ExFunction<'a>(oxc_ast::ast::Function<'a>);

/// An arrow function.
#[verifier::external_type_specification]
#[verifier::external_body]
pub struct ExArrow<'a>(oxc_ast::ast::ArrowFunctionExpression<'a>);

/// A class.
#[verifier::external_type_specification]
#[verifier::external_body]
pub struct ExClass<'a>(oxc_ast::ast::Class<'a>);

/// A method of a class.
#[verifier::external_type_specification]
#[verifier::external_body]
pub struct ExMethodDefinition<'a>(oxc_ast::ast::MethodDefinition<'a>);

/// A field of a class.
#[verifier::external_type_specification]
#[verifier::external_body]
pub struct ExPropertyDefinition<'a>(oxc_ast::ast::PropertyDefinition<'a>);

/// A property of an object literal.
#[verifier::external_type_specification]
#[verifier::external_body]
pub struct ExObjectProperty<'a>(oxc_ast::ast::ObjectProperty<'a>);

/// A declared variable.
#[verifier::external_type_specification]
#[verifier::external_body]
pub struct ExVariableDeclarator<'a>(oxc_ast::ast::VariableDeclarator<'a>);

/// A call.
#[verifier::external_type_specification]
#[verifier::external_body]
pub struct ExCallExpression<'a>(oxc_ast::ast::CallExpression<'a>);

/// What a call calls: an identifier, or a member with a name that is there in the
/// source. Anything more dynamic has none.
pub enum Callee {
    Identifier(String),
    Member(Option<String>),
}

/// What a [`Callee`] stands for.
pub enum CalleeView {
    Identifier(Seq<char>),
    Member(Option<Seq<char>>),
}

impl View for Callee {
    type V = CalleeView;

    open spec fn view(&self) -> CalleeView {
        match self {
            Callee::Identifier(name) => CalleeView::Identifier(name@),
            Callee::Member(name) => CalleeView::Member(text_option(*name)),
        }
    }
}

/// A part of a TypeScript or JavaScript file.
pub enum TsPart {
    /// A function and the bytes it spans.
    Function { name: Option<String>, start: u32, end: u32 },
    /// An arrow function and the bytes it spans.
    Arrow { start: u32, end: u32 },
    Class { name: Option<String> },
    /// A method or a field of a class.
    Member { name: Option<String> },
    /// A property of an object literal.
    Property { name: Option<String> },
    Declarator { name: Option<String> },
    Call { callee: Callee },
}

/// What a [`TsPart`] stands for.
pub enum TsPartView {
    Function { name: Option<Seq<char>>, start: int, end: int },
    Arrow { start: int, end: int },
    Class { name: Option<Seq<char>> },
    Member { name: Option<Seq<char>> },
    Property { name: Option<Seq<char>> },
    Declarator { name: Option<Seq<char>> },
    Call { callee: CalleeView },
}

impl View for TsPart {
    type V = TsPartView;

    open spec fn view(&self) -> TsPartView {
        match self {
            TsPart::Function { name, start, end } => TsPartView::Function {
                name: text_option(*name),
                start: *start as int,
                end: *end as int,
            },
            TsPart::Arrow { start, end } => TsPartView::Arrow {
                start: *start as int,
                end: *end as int,
            },
            TsPart::Class { name } => TsPartView::Class { name: text_option(*name) },
            TsPart::Member { name } => TsPartView::Member { name: text_option(*name) },
            TsPart::Property { name } => TsPartView::Property { name: text_option(*name) },
            TsPart::Declarator { name } => TsPartView::Declarator { name: text_option(*name) },
            TsPart::Call { callee } => TsPartView::Call { callee: callee@ },
        }
    }
}

/// A tree of parts.
pub type TsTreeView = SourceTreeView<TsPartView>;

/// The parts of a source, read in the dialect that its path tells, or an error
/// where the path tells none. The name of the file is what the target takes for the
/// last component of the path, so the answer is one and the same on one target.
pub uninterp spec fn typescript_parse(path: Seq<char>, source: Seq<char>) -> Result<
    Seq<TsTreeView>,
    (),
>;

/// The parts of a source read as TSX.
pub uninterp spec fn tsx_parse(source: Seq<char>) -> Seq<TsTreeView>;

/// The parts inside a file.
pub uninterp spec fn program_inside(it: oxc_ast::ast::Program<'_>) -> Seq<TsTreeView>;

/// The part that a function is: its name, and the bytes its span covers.
pub uninterp spec fn function_is(it: oxc_ast::ast::Function<'_>) -> TsPartView;

/// The parts inside a function.
pub uninterp spec fn function_inside(it: oxc_ast::ast::Function<'_>) -> Seq<TsTreeView>;

/// The part that an arrow function is: the bytes its span covers.
pub uninterp spec fn arrow_is(it: oxc_ast::ast::ArrowFunctionExpression<'_>) -> TsPartView;

/// The parts inside an arrow function.
pub uninterp spec fn arrow_inside(it: oxc_ast::ast::ArrowFunctionExpression<'_>) -> Seq<
    TsTreeView,
>;

/// The part that a class is: its name.
pub uninterp spec fn class_is(it: oxc_ast::ast::Class<'_>) -> TsPartView;

/// The parts inside a class.
pub uninterp spec fn class_inside(it: oxc_ast::ast::Class<'_>) -> Seq<TsTreeView>;

/// The part that a method is: `PropertyKey::name` of its key.
pub uninterp spec fn method_definition_is(it: oxc_ast::ast::MethodDefinition<'_>) -> TsPartView;

/// The parts inside a method.
pub uninterp spec fn method_definition_inside(it: oxc_ast::ast::MethodDefinition<'_>) -> Seq<
    TsTreeView,
>;

/// The part that a class field is: `PropertyKey::name` of its key.
pub uninterp spec fn property_definition_is(it: oxc_ast::ast::PropertyDefinition<'_>) -> TsPartView;

/// The parts inside a class field.
pub uninterp spec fn property_definition_inside(it: oxc_ast::ast::PropertyDefinition<'_>) -> Seq<
    TsTreeView,
>;

/// The part that a property of an object literal is: `PropertyKey::name` of its key.
pub uninterp spec fn object_property_is(it: oxc_ast::ast::ObjectProperty<'_>) -> TsPartView;

/// The parts inside a property of an object literal.
pub uninterp spec fn object_property_inside(it: oxc_ast::ast::ObjectProperty<'_>) -> Seq<
    TsTreeView,
>;

/// The part that a declared variable is: `BindingPattern::get_identifier_name` of its
/// pattern.
pub uninterp spec fn variable_declarator_is(it: oxc_ast::ast::VariableDeclarator<'_>) -> TsPartView;

/// The parts inside a declared variable.
pub uninterp spec fn variable_declarator_inside(it: oxc_ast::ast::VariableDeclarator<'_>) -> Seq<
    TsTreeView,
>;

/// The part that a call is: its callee, an identifier or else
/// `MemberExpression::static_property_name` of the member expression it is, if it is
/// one.
pub uninterp spec fn call_expression_is(it: oxc_ast::ast::CallExpression<'_>) -> TsPartView;

/// The parts inside a call.
pub uninterp spec fn call_expression_inside(it: oxc_ast::ast::CallExpression<'_>) -> Seq<
    TsTreeView,
>;

/// What `oxc_ast` says of a function: its name, and the bytes its span covers.
#[verifier::external_body]
fn function_part<'a>(it: &oxc_ast::ast::Function<'a>) -> (part: TsPart)
    ensures
        part@ == function_is(*it),
        part is Function,
{
    TsPart::Function {
        name: it.id.as_ref().map(|id| id.name.as_str().to_string()),
        start: it.span.start,
        end: it.span.end,
    }
}

/// What `oxc_ast` says of an arrow function: the bytes its span covers.
#[verifier::external_body]
fn arrow_part<'a>(it: &oxc_ast::ast::ArrowFunctionExpression<'a>) -> (part: TsPart)
    ensures
        part@ == arrow_is(*it),
        part is Arrow,
{
    TsPart::Arrow { start: it.span.start, end: it.span.end }
}

/// What `oxc_ast` says of a class: its name.
#[verifier::external_body]
fn class_part<'a>(it: &oxc_ast::ast::Class<'a>) -> (part: TsPart)
    ensures
        part@ == class_is(*it),
        part is Class,
{
    TsPart::Class { name: it.id.as_ref().map(|id| id.name.as_str().to_string()) }
}

/// What `oxc_ast` says of a method: `PropertyKey::name` of its key.
#[verifier::external_body]
fn method_definition_part<'a>(it: &oxc_ast::ast::MethodDefinition<'a>) -> (part: TsPart)
    ensures
        part@ == method_definition_is(*it),
        part is Member,
{
    TsPart::Member { name: it.key.name().map(|n| n.into_owned()) }
}

/// What `oxc_ast` says of a class field: `PropertyKey::name` of its key.
#[verifier::external_body]
fn property_definition_part<'a>(it: &oxc_ast::ast::PropertyDefinition<'a>) -> (part: TsPart)
    ensures
        part@ == property_definition_is(*it),
        part is Member,
{
    TsPart::Member { name: it.key.name().map(|n| n.into_owned()) }
}

/// What `oxc_ast` says of a property of an object literal: `PropertyKey::name` of its
/// key.
#[verifier::external_body]
fn object_property_part<'a>(it: &oxc_ast::ast::ObjectProperty<'a>) -> (part: TsPart)
    ensures
        part@ == object_property_is(*it),
        part is Property,
{
    TsPart::Property { name: it.key.name().map(|n| n.into_owned()) }
}

/// What `oxc_ast` says of a declared variable: `BindingPattern::get_identifier_name` of its
/// pattern.
#[verifier::external_body]
fn variable_declarator_part<'a>(it: &oxc_ast::ast::VariableDeclarator<'a>) -> (part: TsPart)
    ensures
        part@ == variable_declarator_is(*it),
        part is Declarator,
{
    TsPart::Declarator { name: it.id.get_identifier_name().map(|n| n.as_str().to_string()) }
}

/// What `oxc_ast` says of a call: its callee, an identifier or else
/// `MemberExpression::static_property_name` of the member expression it is, if it is
/// one.
#[verifier::external_body]
fn call_expression_part<'a>(it: &oxc_ast::ast::CallExpression<'a>) -> (part: TsPart)
    ensures
        part@ == call_expression_is(*it),
        part is Call,
{
    let callee = match &it.callee {
        oxc_ast::ast::Expression::Identifier(id) => Callee::Identifier(id.name.to_string()),
        other => Callee::Member(
            other.get_member_expr().and_then(|m| m.static_property_name()).map(str::to_string),
        ),
    };
    TsPart::Call { callee }
}

/// `oxc_ast_visit::walk::walk_program`: hands what is inside the node to the walk,
/// which adds its parts.
#[verifier::external_body]
fn walk_program<'a>(walk: &mut TreeWalk<TsPart>, it: &oxc_ast::ast::Program<'a>)
    ensures
        met_next(*old(walk), *final(walk), program_inside(*it)),
{
    oxc_ast_visit::walk::walk_program(walk, it)
}

/// `oxc_ast_visit::walk::walk_function`, likewise. The flags only tell of scopes.
#[verifier::external_body]
fn walk_function<'a>(
    walk: &mut TreeWalk<TsPart>,
    it: &oxc_ast::ast::Function<'a>,
    flags: oxc_syntax::scope::ScopeFlags,
)
    ensures
        met_next(*old(walk), *final(walk), function_inside(*it)),
{
    oxc_ast_visit::walk::walk_function(walk, it, flags)
}

/// `oxc_ast_visit::walk::walk_arrow_function_expression`, likewise.
#[verifier::external_body]
fn walk_arrow_function_expression<'a>(
    walk: &mut TreeWalk<TsPart>,
    it: &oxc_ast::ast::ArrowFunctionExpression<'a>,
)
    ensures
        met_next(*old(walk), *final(walk), arrow_inside(*it)),
{
    oxc_ast_visit::walk::walk_arrow_function_expression(walk, it)
}

/// `oxc_ast_visit::walk::walk_class`, likewise.
#[verifier::external_body]
fn walk_class<'a>(walk: &mut TreeWalk<TsPart>, it: &oxc_ast::ast::Class<'a>)
    ensures
        met_next(*old(walk), *final(walk), class_inside(*it)),
{
    oxc_ast_visit::walk::walk_class(walk, it)
}

/// `oxc_ast_visit::walk::walk_method_definition`, likewise.
#[verifier::external_body]
fn walk_method_definition<'a>(walk: &mut TreeWalk<TsPart>, it: &oxc_ast::ast::MethodDefinition<'a>)
    ensures
        met_next(*old(walk), *final(walk), method_definition_inside(*it)),
{
    oxc_ast_visit::walk::walk_method_definition(walk, it)
}

/// `oxc_ast_visit::walk::walk_property_definition`, likewise.
#[verifier::external_body]
fn walk_property_definition<'a>(
    walk: &mut TreeWalk<TsPart>,
    it: &oxc_ast::ast::PropertyDefinition<'a>,
)
    ensures
        met_next(*old(walk), *final(walk), property_definition_inside(*it)),
{
    oxc_ast_visit::walk::walk_property_definition(walk, it)
}

/// `oxc_ast_visit::walk::walk_object_property`, likewise.
#[verifier::external_body]
fn walk_object_property<'a>(walk: &mut TreeWalk<TsPart>, it: &oxc_ast::ast::ObjectProperty<'a>)
    ensures
        met_next(*old(walk), *final(walk), object_property_inside(*it)),
{
    oxc_ast_visit::walk::walk_object_property(walk, it)
}

/// `oxc_ast_visit::walk::walk_variable_declarator`, likewise.
#[verifier::external_body]
fn walk_variable_declarator<'a>(
    walk: &mut TreeWalk<TsPart>,
    it: &oxc_ast::ast::VariableDeclarator<'a>,
)
    ensures
        met_next(*old(walk), *final(walk), variable_declarator_inside(*it)),
{
    oxc_ast_visit::walk::walk_variable_declarator(walk, it)
}

/// `oxc_ast_visit::walk::walk_call_expression`, likewise.
#[verifier::external_body]
fn walk_call_expression<'a>(walk: &mut TreeWalk<TsPart>, it: &oxc_ast::ast::CallExpression<'a>)
    ensures
        met_next(*old(walk), *final(walk), call_expression_inside(*it)),
{
    oxc_ast_visit::walk::walk_call_expression(walk, it)
}

/// A part and what is inside it.
pub open spec fn ts_tree(part: TsPartView, inside: Seq<TsTreeView>) -> TsTreeView {
    SourceTreeView { data: part, children: inside }
}

impl<'a> Visit<'a> for TreeWalk<TsPart> {
    fn visit_function(
        &mut self,
        it: &oxc_ast::ast::Function<'a>,
        flags: oxc_syntax::scope::ScopeFlags,
    )
        ensures
            met_next(
                *old(self),
                *final(self),
                seq![ts_tree(function_is(*it), function_inside(*it))],
            ),
    {
        self.enter();
        walk_function(self, it, flags);
        assert(self.met() =~= function_inside(*it));
        self.leave(function_part(it));
        assert(self.around@ =~= old(self).around@);
    }

    fn visit_arrow_function_expression(&mut self, it: &oxc_ast::ast::ArrowFunctionExpression<'a>)
        ensures
            met_next(
                *old(self),
                *final(self),
                seq![
                    ts_tree(
                        arrow_is(*it),
                        arrow_inside(*it),
                    ),
                ],
            ),
    {
        self.enter();
        walk_arrow_function_expression(self, it);
        assert(self.met() =~= arrow_inside(*it));
        self.leave(arrow_part(it));
        assert(self.around@ =~= old(self).around@);
    }

    fn visit_class(&mut self, it: &oxc_ast::ast::Class<'a>)
        ensures
            met_next(
                *old(self),
                *final(self),
                seq![ts_tree(class_is(*it), class_inside(*it))],
            ),
    {
        self.enter();
        walk_class(self, it);
        assert(self.met() =~= class_inside(*it));
        self.leave(class_part(it));
        assert(self.around@ =~= old(self).around@);
    }

    fn visit_method_definition(&mut self, it: &oxc_ast::ast::MethodDefinition<'a>)
        ensures
            met_next(
                *old(self),
                *final(self),
                seq![ts_tree(method_definition_is(*it), method_definition_inside(*it))],
            ),
    {
        self.enter();
        walk_method_definition(self, it);
        assert(self.met() =~= method_definition_inside(*it));
        self.leave(method_definition_part(it));
        assert(self.around@ =~= old(self).around@);
    }

    fn visit_property_definition(&mut self, it: &oxc_ast::ast::PropertyDefinition<'a>)
        ensures
            met_next(
                *old(self),
                *final(self),
                seq![ts_tree(property_definition_is(*it), property_definition_inside(*it))],
            ),
    {
        self.enter();
        walk_property_definition(self, it);
        assert(self.met() =~= property_definition_inside(*it));
        self.leave(property_definition_part(it));
        assert(self.around@ =~= old(self).around@);
    }

    fn visit_object_property(&mut self, it: &oxc_ast::ast::ObjectProperty<'a>)
        ensures
            met_next(
                *old(self),
                *final(self),
                seq![ts_tree(object_property_is(*it), object_property_inside(*it))],
            ),
    {
        self.enter();
        walk_object_property(self, it);
        assert(self.met() =~= object_property_inside(*it));
        self.leave(object_property_part(it));
        assert(self.around@ =~= old(self).around@);
    }

    fn visit_variable_declarator(&mut self, it: &oxc_ast::ast::VariableDeclarator<'a>)
        ensures
            met_next(
                *old(self),
                *final(self),
                seq![ts_tree(variable_declarator_is(*it), variable_declarator_inside(*it))],
            ),
    {
        self.enter();
        walk_variable_declarator(self, it);
        assert(self.met() =~= variable_declarator_inside(*it));
        self.leave(variable_declarator_part(it));
        assert(self.around@ =~= old(self).around@);
    }

    fn visit_call_expression(&mut self, it: &oxc_ast::ast::CallExpression<'a>)
        ensures
            met_next(
                *old(self),
                *final(self),
                seq![ts_tree(call_expression_is(*it), call_expression_inside(*it))],
            ),
    {
        self.enter();
        walk_call_expression(self, it);
        assert(self.met() =~= call_expression_inside(*it));
        self.leave(call_expression_part(it));
        assert(self.around@ =~= old(self).around@);
    }
}

/// A construct of each kind that a walk records, as a part with what is inside it.
pub open spec fn each_kind<'a>(
    function: &oxc_ast::ast::Function<'a>,
    arrow: &oxc_ast::ast::ArrowFunctionExpression<'a>,
    class: &oxc_ast::ast::Class<'a>,
    method: &oxc_ast::ast::MethodDefinition<'a>,
    field: &oxc_ast::ast::PropertyDefinition<'a>,
    property: &oxc_ast::ast::ObjectProperty<'a>,
    variable: &oxc_ast::ast::VariableDeclarator<'a>,
    call: &oxc_ast::ast::CallExpression<'a>,
) -> Seq<TsTreeView> {
    seq![
        ts_tree(function_is(*function), function_inside(*function)),
        ts_tree(arrow_is(*arrow), arrow_inside(*arrow)),
        ts_tree(class_is(*class), class_inside(*class)),
        ts_tree(method_definition_is(*method), method_definition_inside(*method)),
        ts_tree(property_definition_is(*field), property_definition_inside(*field)),
        ts_tree(object_property_is(*property), object_property_inside(*property)),
        ts_tree(variable_declarator_is(*variable), variable_declarator_inside(*variable)),
        ts_tree(call_expression_is(*call), call_expression_inside(*call)),
    ]
}

/// What a walk over a file records: a construct of each of these kinds is met as one
/// part, with what is inside it.
#[allow(dead_code)]
pub(crate) fn visit_each_kind<'a>(
    walk: &mut TreeWalk<TsPart>,
    flags: oxc_syntax::scope::ScopeFlags,
    function: &oxc_ast::ast::Function<'a>,
    arrow: &oxc_ast::ast::ArrowFunctionExpression<'a>,
    class: &oxc_ast::ast::Class<'a>,
    method: &oxc_ast::ast::MethodDefinition<'a>,
    field: &oxc_ast::ast::PropertyDefinition<'a>,
    property: &oxc_ast::ast::ObjectProperty<'a>,
    variable: &oxc_ast::ast::VariableDeclarator<'a>,
    call: &oxc_ast::ast::CallExpression<'a>,
)
    ensures
        met_next(
            *old(walk),
            *final(walk),
            each_kind(
                function,
                arrow,
                class,
                method,
                field,
                property,
                variable,
                call,
            ),
        ),
{
    let ghost before = walk.met();
    walk.visit_function(function, flags);
    walk.visit_arrow_function_expression(arrow);
    walk.visit_class(class);
    walk.visit_method_definition(method);
    walk.visit_property_definition(field);
    walk.visit_object_property(property);
    walk.visit_variable_declarator(variable);
    walk.visit_call_expression(call);
    assert(walk.met() =~= before + each_kind(
        function,
        arrow,
        class,
        method,
        field,
        property,
        variable,
        call,
    ));
}

/// `oxc_allocator::Allocator::default`: memory for one syntax tree.
#[verifier::external_body]
fn new_allocator() -> (allocator: oxc_allocator::Allocator) {
    oxc_allocator::Allocator::default()
}

/// `oxc_parser::Parser::parse` in the dialect of `oxc_span::SourceType::from_path`:
/// on one target, the parts of the file are a function of path and source alone. The
/// parser recovers from syntax errors, and gives an empty program where it cannot.
#[verifier::external_body]
fn parse_by_path<'a>(
    allocator: &'a oxc_allocator::Allocator,
    path: &str,
    source: &'a str,
) -> (parsed: Result<oxc_ast::ast::Program<'a>, oxc_span::UnknownExtension>)
    ensures
        (match parsed {
            Ok(program) => Ok::<_, ()>(program_inside(program)),
            Err(_) => Err(()),
        }) == typescript_parse(path@, source@),
{
    let source_type = oxc_span::SourceType::from_path(path)?;
    Ok(oxc_parser::Parser::new(allocator, source, source_type).parse().program)
}

/// `oxc_parser::Parser::parse` with `oxc_span::SourceType::tsx`: the parts of the
/// file are a function of the source alone.
#[verifier::external_body]
fn parse_tsx<'a>(allocator: &'a oxc_allocator::Allocator, source: &'a str) -> (program:
    oxc_ast::ast::Program<'a>)
    ensures
        program_inside(program) == tsx_parse(source@),
{
    oxc_parser::Parser::new(allocator, source, oxc_span::SourceType::tsx()).parse().program
}

/// The parts of a source: in the dialect its path tells, and in TSX, the most
/// permissive superset, where the path tells none.
pub open spec fn typescript_parts(path: Seq<char>, source: Seq<char>) -> Seq<TsTreeView> {
    match typescript_parse(path, source) {
        Ok(trees) => trees,
        Err(_) => tsx_parse(source),
    }
}

/// The simple name of a call's callee: `foo` for `foo(...)`, the property name for
/// member calls like `arr.map(...)`. `None` for anything more dynamic.
pub open spec fn callee_name(callee: CalleeView) -> Option<Seq<char>> {
    match callee {
        CalleeView::Identifier(name) => Some(name),
        CalleeView::Member(name) => name,
    }
}

/// How a function or a class is named: by its own name where it has one, else by
/// the pending hint.
pub open spec fn own_or_hinted(name: Option<Seq<char>>, fallback: Seq<char>) -> LabelView {
    match name {
        Some(name) => LabelView::Fixed(name),
        None => LabelView::Hinted(fallback),
    }
}

/// The line on which the byte at `offset` lies.
pub open spec fn line_at(source: Seq<char>, offset: int) -> int {
    starts_up_to(line_starts(encode_utf8(source)), offset) as int
}

/// The last line that holds content of a span that ends before `end`.
pub open spec fn last_line_before(source: Seq<char>, end: int) -> int {
    line_at(
        source,
        if end > 0 {
            end - 1
        } else {
            0
        },
    )
}

/// The outline of a part and of what is inside it.
pub open spec fn typescript_outline(t: TsTreeView, source: Seq<char>) -> Seq<
    OutlineView,
>
    decreases t,
{
    let body = typescript_outline_all(t.children, source);
    match t.data {
        TsPartView::Function { name, start, end } => seq![
            function_view(
                own_or_hinted(name, "<anonymous>"@),
                line_at(source, start),
                last_line_before(source, end),
                body,
            ),
        ],
        TsPartView::Arrow { start, end } => seq![
            function_view(
                LabelView::Hinted("<arrow>"@),
                line_at(source, start),
                last_line_before(source, end),
                body,
            ),
        ],
        TsPartView::Class { name } => seq![
            scope_view(own_or_hinted(name, "<anonymous class>"@), body),
        ],
        // A method's value is a function and a class field may hold one: both are
        // recorded under the member's name, qualified by the class.
        TsPartView::Member { name } => seq![member_view(name, body)],
        TsPartView::Property { name } => seq![binding_view(name, body)],
        TsPartView::Declarator { name } => seq![binding_view(name, body)],
        TsPartView::Call { callee } => seq![binding_view(call_hint(callee_name(callee)), body)],
    }
}

/// The outlines of `trees`, one after the other.
pub open spec fn typescript_outline_all(
    trees: Seq<TsTreeView>,
    source: Seq<char>,
) -> Seq<OutlineView>
    decreases trees,
{
    if trees.len() == 0 {
        Seq::empty()
    } else {
        typescript_outline_all(trees.drop_last(), source) + typescript_outline(
            trees.last(),
            source,
        )
    }
}

/// The symbols of a TypeScript or JavaScript source. One too long for the parser
/// has none, and one with more lines than can be numbered is an error.
pub open spec fn typescript_symbols(path: Seq<char>, source: Seq<char>) -> Extraction {
    if encode_utf8(source).len() > u32::MAX {
        Ok(Seq::empty())
    } else if line_ends(encode_utf8(source)) >= u32::MAX {
        Err(AnalyzerError::TooLong)
    } else {
        outline_result(typescript_outline_all(typescript_parts(path, source), source))
    }
}

fn callee_text(callee: &Callee) -> (name: Option<String>)
    ensures
        text_option(name) == callee_name(callee@),
{
    match callee {
        Callee::Identifier(name) => Some(name.clone()),
        Callee::Member(name) => copy_of(name),
    }
}

fn copy_of(name: &Option<String>) -> (copy: Option<String>)
    ensures
        text_option(copy) == text_option(*name),
{
    match name {
        Some(name) => Some(name.clone()),
        None => None,
    }
}

fn own_or_hinted_label(name: &Option<String>, fallback: &str) -> (label: Label)
    ensures
        label@ == own_or_hinted(text_option(*name), fallback@),
{
    match name {
        Some(name) => Label::Fixed(name.clone()),
        None => Label::Hinted(fallback.to_string()),
    }
}

fn last_line(lines: &LineIndex, end: u32) -> (line: u32)
    ensures
        line == starts_up_to(
            lines@,
            if end > 0 {
                end - 1
            } else {
                0
            },
        ),
{
    // The end of a span is exclusive; step back one byte to land on the last
    // line that actually holds content.
    if end > 0 {
        lines.line_of(end - 1)
    } else {
        lines.line_of(0)
    }
}

fn outline_below(tree: &SourceTree<TsPart>, lines: &LineIndex, source: &str) -> (out: Vec<Outline>)
    requires
        lines@ == line_starts(encode_utf8(source@)),
    ensures
        tree_views(out@) == typescript_outline(tree@, source@),
    decreases tree,
{
    proof {
        tree_view_parts(*tree);
    }
    let body = outline_all(&tree.children, lines, source);
    match &tree.data {
        TsPart::Function { name, start, end } => only(
            function_outline(
                own_or_hinted_label(name, "<anonymous>"),
                lines.line_of(*start),
                last_line(lines, *end),
                body,
            ),
        ),
        TsPart::Arrow { start, end } => only(
            function_outline(
                Label::Hinted("<arrow>".to_string()),
                lines.line_of(*start),
                last_line(lines, *end),
                body,
            ),
        ),
        TsPart::Class { name } => only(
            scope_outline(own_or_hinted_label(name, "<anonymous class>"), body),
        ),
        TsPart::Member { name } => only(member_outline(copy_of(name), body)),
        TsPart::Property { name } => only(binding_outline(copy_of(name), body)),
        TsPart::Declarator { name } => only(binding_outline(copy_of(name), body)),
        TsPart::Call { callee } => only(
            binding_outline(call_hint_text(callee_text(callee)), body),
        ),
    }
}

fn outline_all(trees: &Vec<SourceTree<TsPart>>, lines: &LineIndex, source: &str) -> (out: Vec<
    Outline,
>)
    requires
        lines@ == line_starts(encode_utf8(source@)),
    ensures
        tree_views(out@) == typescript_outline_all(tree_views(trees@), source@),
    decreases trees,
{
    let ghost views = tree_views(trees@);
    let mut out = nothing();
    let mut i: usize = 0;
    assert(views.take(0) =~= Seq::empty());
    while i < trees.len()
        invariant
            i <= trees@.len() == views.len(),
            views == tree_views(trees@),
            lines@ == line_starts(encode_utf8(source@)),
            tree_views(out@) == typescript_outline_all(views.take(i as int), source@),
        decreases trees@.len() - i,
    {
        assert(views.take(i as int + 1).drop_last() =~= views.take(i as int));
        assert(views[i as int] == trees@[i as int]@);
        put_all(&mut out, outline_below(&trees[i], lines, source));
        i += 1;
    }
    assert(views.take(i as int) =~= views);
    out
}

/// The outlines of the parts of a TypeScript or JavaScript file, one after the
/// other.
pub fn outline(trees: &Vec<SourceTree<TsPart>>, source: &str) -> (out: Vec<Outline>)
    requires
        encode_utf8(source@).len() <= u32::MAX,
        line_ends(encode_utf8(source@)) < u32::MAX,
    ensures
        tree_views(out@) == typescript_outline_all(tree_views(trees@), source@),
{
    let lines = LineIndex::new(source);
    outline_all(trees, &lines, source)
}

/// The analyzer of TypeScript and JavaScript sources.
pub struct TypeScriptAnalyzer;

impl LanguageAnalyzer for TypeScriptAnalyzer {
    open spec fn language(&self) -> Seq<char> {
        "TypeScript"@
    }

    open spec fn own_extensions(&self) -> Seq<Seq<char>> {
        seq!["ts"@, "tsx"@, "mts"@, "cts"@, "js"@, "jsx"@, "mjs"@, "cjs"@]
    }

    open spec fn gives(&self, path: Seq<char>, source: Seq<char>, symbols: Extraction) -> bool {
        symbols == typescript_symbols(path, source)
    }

    fn name(&self) -> (name: &'static str) {
        "TypeScript"
    }

    fn extensions(&self) -> (list: &'static [&'static str]) {
        let list: &'static [&'static str] = &[
            "ts",
            "tsx",
            "mts",
            "cts",
            "js",
            "jsx",
            "mjs",
            "cjs",
        ];
        assert(str_views(list@) =~= self.own_extensions());
        list
    }

    fn extract_symbols(&self, path: &str, source: &str) -> (symbols: Result<
        Vec<Symbol>,
        AnalyzerError,
    >) {
        if source.as_bytes().len() > u32::MAX as usize {
            let none: Vec<Symbol> = Vec::new();
            assert(symbol_views(none@) =~= Seq::empty());
            return Ok(none);
        }
        if !lines_fit(source) {
            return Err(AnalyzerError::TooLong);
        }
        let allocator = new_allocator();
        let program = match parse_by_path(&allocator, path, source) {
            Ok(program) => program,
            Err(_) => parse_tsx(&allocator, source),
        };
        let mut walk: TreeWalk<TsPart> = TreeWalk::new();
        walk_program(&mut walk, &program);
        assert(walk.met() =~= typescript_parts(path@, source@));
        outline_symbols(&outline(&walk.trees, source))
    }
}

} // verus!
