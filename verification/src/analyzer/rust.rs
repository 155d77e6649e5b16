//! Rust analyzer built on the [`syn`](https://docs.rs/syn) parser.
//!
//! It reduces the syntax tree to every function, method, associated function,
//! and closure together with the source line range it spans. Free functions and
//! methods are named after their identifier; a closure bound to a `let`
//! (`let f = |x| ...;`) inherits that binding's name so the leaderboard stays
//! readable, otherwise it is recorded as `<closure>`.
//!
//! Names are qualified by the enclosing modules, `impl` types, and traits, e.g.
//! `parser.Lexer.next` for a `next` method of `impl Lexer` inside `mod parser`.
//! Entering such a scope qualifies the name but, like a class in the TypeScript
//! analyzer, does not increase nesting depth; only stepping into a function body
//! does.
use quote::ToTokens;
use syn::visit::Visit;
use vstd::prelude::*;
use vstd::utf8::encode_utf8;

use super::outline::{
    Label, LabelView, Outline, OutlineView, binding_outline, binding_view, function_outline,
    function_view, nothing, only, outline_result, outline_symbols, put_all, scope_outline,
    scope_view,
};
use super::tree::{SourceTree, SourceTreeView, tree_view_parts, tree_views};
use super::walk::TreeWalk;
use super::{AnalyzerError, Extraction, LanguageAnalyzer, Symbol, str_views, symbols_result};
use crate::text::{text_option, texts};

verus! {

/// Why `syn` refuses a source.
#[verifier::external_type_specification]
#[verifier::external_body]
pub struct ExSynError(syn::Error);

/// Where a token stands.
#[verifier::external_type_specification]
#[verifier::external_body]
pub struct ExSpan(proc_macro2::Span);

/// A free function.
#[verifier::external_type_specification]
#[verifier::external_body]
pub struct ExItemFn(syn::ItemFn);

/// A method or an associated function.
#[verifier::external_type_specification]
#[verifier::external_body]
pub struct ExImplItemFn(syn::ImplItemFn);

/// A function of a trait.
#[verifier::external_type_specification]
#[verifier::external_body]
pub struct ExTraitItemFn(syn::TraitItemFn);

/// A closure.
#[verifier::external_type_specification]
#[verifier::external_body]
pub struct ExExprClosure(syn::ExprClosure);

/// An `impl` block.
#[verifier::external_type_specification]
#[verifier::external_body]
pub struct ExItemImpl(syn::ItemImpl);

/// A trait.
#[verifier::external_type_specification]
#[verifier::external_body]
pub struct ExItemTrait(syn::ItemTrait);

/// A module.
#[verifier::external_type_specification]
#[verifier::external_body]
pub struct ExItemMod(syn::ItemMod);

/// A `let` binding.
#[verifier::external_type_specification]
#[verifier::external_body]
pub struct ExLocal(syn::Local);

/// A type.
#[verifier::external_type_specification]
#[verifier::external_body]
pub struct ExType(syn::Type);

/// A pattern.
#[verifier::external_type_specification]
#[verifier::external_body]
pub struct ExPat(syn::Pat);

/// What a type is at its outermost: a path with its segments, a reference or a
/// pair of parentheses around another type, or anything else.
pub enum TypeLayer {
    Path(Vec<String>),
    Around,
    Other,
}

/// What a [`TypeLayer`] stands for.
pub enum TypeLayerView {
    Path(Seq<Seq<char>>),
    Around,
    Other,
}

impl View for TypeLayer {
    type V = TypeLayerView;

    open spec fn view(&self) -> TypeLayerView {
        match self {
            TypeLayer::Path(segments) => TypeLayerView::Path(texts(segments@)),
            TypeLayer::Around => TypeLayerView::Around,
            TypeLayer::Other => TypeLayerView::Other,
        }
    }
}

/// What a pattern is at its outermost: an identifier, a pattern with a type
/// behind it, or anything else.
pub enum PatternLayer {
    Ident(String),
    Typed,
    Other,
}

/// What a [`PatternLayer`] stands for.
pub enum PatternLayerView {
    Ident(Seq<char>),
    Typed,
    Other,
}

impl View for PatternLayer {
    type V = PatternLayerView;

    open spec fn view(&self) -> PatternLayerView {
        match self {
            PatternLayer::Ident(name) => PatternLayerView::Ident(name@),
            PatternLayer::Typed => PatternLayerView::Typed,
            PatternLayer::Other => PatternLayerView::Other,
        }
    }
}

/// A part of a Rust file.
pub enum RustPart {
    /// A function, a method or an associated function, and its place among the
    /// functions and closures of the file.
    Function { name: String, at: usize },
    /// A closure and its place.
    Closure { at: usize },
    /// An `impl` block and the layers of its type, outermost first.
    Impl { self_type: Vec<TypeLayer> },
    /// A module or a trait.
    Scope { name: String },
    /// A `let` binding and the layers of its pattern, outermost first.
    Local { pattern: Vec<PatternLayer> },
}

/// What a [`RustPart`] stands for.
pub enum RustPartView {
    Function { name: Seq<char>, at: nat },
    Closure { at: nat },
    Impl { self_type: Seq<TypeLayerView> },
    Scope { name: Seq<char> },
    Local { pattern: Seq<PatternLayerView> },
}

impl View for RustPart {
    type V = RustPartView;

    open spec fn view(&self) -> RustPartView {
        match self {
            RustPart::Function { name, at } => RustPartView::Function {
                name: name@,
                at: *at as nat,
            },
            RustPart::Closure { at } => RustPartView::Closure { at: *at as nat },
            RustPart::Impl { self_type } => RustPartView::Impl {
                self_type: self_type@.map_values(|l: TypeLayer| l@),
            },
            RustPart::Scope { name } => RustPartView::Scope { name: name@ },
            RustPart::Local { pattern } => RustPartView::Local {
                pattern: pattern@.map_values(|l: PatternLayer| l@),
            },
        }
    }
}

/// A tree of parts.
pub type RustTreeView = SourceTreeView<RustPartView>;

/// The spans of the first and of the last token of a function or closure.
pub type Ends = (proc_macro2::Span, proc_macro2::Span);

/// What a definition says of itself: its name and its ends.
pub struct Definition {
    pub name: String,
    pub ends: Ends,
}

/// What a [`Definition`] stands for.
pub struct DefinitionView {
    pub name: Seq<char>,
    pub ends: Ends,
}

impl View for Definition {
    type V = DefinitionView;

    open spec fn view(&self) -> DefinitionView {
        DefinitionView { name: self.name@, ends: self.ends }
    }
}

/// What a walk meets: parts, and the ends of the functions and closures among them and
/// inside them, in the order of their places.
pub struct Met {
    pub trees: Seq<RustTreeView>,
    pub ends: Seq<Ends>,
}

/// A Rust file as a parse gives it: its parts, and the first and the last line of each
/// of its functions and closures, in the order of their places.
pub struct RustFile {
    pub trees: Seq<RustTreeView>,
    pub lines: Seq<(int, int)>,
}

/// The file that a Rust source holds, or an error where `syn` refuses the source.
pub uninterp spec fn rust_parse(source: Seq<char>) -> Result<RustFile, ()>;

/// The name and the ends of a free function.
pub uninterp spec fn item_fn_is(node: syn::ItemFn) -> DefinitionView;

/// The name and the ends of a method or an associated function.
pub uninterp spec fn impl_item_fn_is(node: syn::ImplItemFn) -> DefinitionView;

/// The name and the ends of a function of a trait.
pub uninterp spec fn trait_item_fn_is(node: syn::TraitItemFn) -> DefinitionView;

/// The ends of a closure.
pub uninterp spec fn expr_closure_is(node: syn::ExprClosure) -> Ends;

/// The name of a trait.
pub uninterp spec fn item_trait_is(node: syn::ItemTrait) -> Seq<char>;

/// The name of a module.
pub uninterp spec fn item_mod_is(node: syn::ItemMod) -> Seq<char>;

/// What a walk meets inside a free function, places being counted from `at`.
pub uninterp spec fn item_fn_inside(node: syn::ItemFn, at: nat) -> Met;

/// What a walk meets inside a method or an associated function, places being counted from `at`.
pub uninterp spec fn impl_item_fn_inside(node: syn::ImplItemFn, at: nat) -> Met;

/// What a walk meets inside a function of a trait, places being counted from `at`.
pub uninterp spec fn trait_item_fn_inside(node: syn::TraitItemFn, at: nat) -> Met;

/// What a walk meets inside a closure, places being counted from `at`.
pub uninterp spec fn expr_closure_inside(node: syn::ExprClosure, at: nat) -> Met;

/// What a walk meets inside a trait, places being counted from `at`.
pub uninterp spec fn item_trait_inside(node: syn::ItemTrait, at: nat) -> Met;

/// What a walk meets inside a module, places being counted from `at`.
pub uninterp spec fn item_mod_inside(node: syn::ItemMod, at: nat) -> Met;

/// What a walk meets inside an `impl` block, places being counted from `at`.
pub uninterp spec fn item_impl_inside(node: syn::ItemImpl, at: nat) -> Met;

/// What a walk meets inside a `let` binding, places being counted from `at`.
pub uninterp spec fn local_inside(node: syn::Local, at: nat) -> Met;

/// The type an `impl` block is for.
pub uninterp spec fn impl_type(node: syn::ItemImpl) -> syn::Type;

/// The pattern of a `let` binding.
pub uninterp spec fn local_pattern(node: syn::Local) -> syn::Pat;

/// What a type is at its outermost.
pub uninterp spec fn type_is(ty: syn::Type) -> TypeLayerView;

/// The layers of the types that a type is made of, in the order in which they are
/// visited.
pub uninterp spec fn type_inside(ty: syn::Type) -> Seq<TypeLayerView>;

/// What a pattern is at its outermost.
pub uninterp spec fn pattern_is(pattern: syn::Pat) -> PatternLayerView;

/// The layers of the patterns that a pattern is made of, in the order in which
/// they are visited.
pub uninterp spec fn pattern_inside(pattern: syn::Pat) -> Seq<PatternLayerView>;

/// The layers of a type, outermost first: a reference or a pair of parentheses has
/// those of the type inside.
pub open spec fn type_layers(ty: syn::Type) -> Seq<TypeLayerView> {
    if type_is(ty) is Around {
        seq![type_is(ty)] + type_inside(ty)
    } else {
        seq![type_is(ty)]
    }
}

/// The layers of a pattern, outermost first: one with a type behind it has those
/// of the pattern in front.
pub open spec fn pattern_layers(pattern: syn::Pat) -> Seq<PatternLayerView> {
    if pattern_is(pattern) is Typed {
        seq![pattern_is(pattern)] + pattern_inside(pattern)
    } else {
        seq![pattern_is(pattern)]
    }
}

/// What the layers of a type stand for.
pub open spec fn type_layer_views(layers: Seq<TypeLayer>) -> Seq<TypeLayerView> {
    layers.map_values(|l: TypeLayer| l@)
}

/// What the layers of a pattern stand for.
pub open spec fn pattern_layer_views(layers: Seq<PatternLayer>) -> Seq<PatternLayerView> {
    layers.map_values(|l: PatternLayer| l@)
}

/// The layers of a type, as a walk over it meets them.
pub struct TypeWalk {
    pub layers: Vec<TypeLayer>,
}

/// The layers of a pattern, as a walk over it meets them.
pub struct PatternWalk {
    pub layers: Vec<PatternLayer>,
}

/// The outermost layer of a type, by the variants of `syn::Type`. A path is
/// described by the identifiers of its segments.
#[verifier::external_body]
fn type_layer(ty: &syn::Type) -> (layer: TypeLayer)
    ensures
        layer@ == type_is(*ty),
{
    match ty {
        syn::Type::Path(p) => TypeLayer::Path(
            p.path.segments.iter().map(|s| s.ident.to_string()).collect(),
        ),
        syn::Type::Reference(_) => TypeLayer::Around,
        syn::Type::Group(_) => TypeLayer::Around,
        syn::Type::Paren(_) => TypeLayer::Around,
        _ => TypeLayer::Other,
    }
}

/// The outermost layer of a pattern, by the variants of `syn::Pat`.
#[verifier::external_body]
fn pattern_layer(pattern: &syn::Pat) -> (layer: PatternLayer)
    ensures
        layer@ == pattern_is(*pattern),
{
    match pattern {
        syn::Pat::Ident(p) => PatternLayer::Ident(p.ident.to_string()),
        syn::Pat::Type(_) => PatternLayer::Typed,
        _ => PatternLayer::Other,
    }
}

/// `syn::visit::visit_type`: hands the types that a type is made of to the walk,
/// which adds their layers.
#[verifier::external_body]
fn walk_type(walk: &mut TypeWalk, ty: &syn::Type)
    ensures
        type_layer_views(final(walk).layers@) == type_layer_views(old(walk).layers@) + type_inside(
            *ty,
        ),
{
    syn::visit::visit_type(walk, ty)
}

/// `syn::visit::visit_pat`: hands the patterns that a pattern is made of to the
/// walk, which adds their layers.
#[verifier::external_body]
fn walk_pat(walk: &mut PatternWalk, pattern: &syn::Pat)
    ensures
        pattern_layer_views(final(walk).layers@) == pattern_layer_views(old(walk).layers@)
            + pattern_inside(*pattern),
{
    syn::visit::visit_pat(walk, pattern)
}

impl<'ast> Visit<'ast> for TypeWalk {
    fn visit_type(&mut self, ty: &'ast syn::Type)
        ensures
            type_layer_views(final(self).layers@) == type_layer_views(old(self).layers@)
                + type_layers(*ty),
    {
        let ghost before = type_layer_views(self.layers@);
        let layer = type_layer(ty);
        let around = matches!(layer, TypeLayer::Around);
        self.layers.push(layer);
        assert(type_layer_views(self.layers@) =~= before + seq![type_is(*ty)]);
        if around {
            walk_type(self, ty);
            assert(before + seq![type_is(*ty)] + type_inside(*ty) =~= before + type_layers(*ty));
        }
    }
}

impl<'ast> Visit<'ast> for PatternWalk {
    fn visit_pat(&mut self, pattern: &'ast syn::Pat)
        ensures
            pattern_layer_views(final(self).layers@) == pattern_layer_views(old(self).layers@)
                + pattern_layers(*pattern),
    {
        let ghost before = pattern_layer_views(self.layers@);
        let layer = pattern_layer(pattern);
        let typed = matches!(layer, PatternLayer::Typed);
        self.layers.push(layer);
        assert(pattern_layer_views(self.layers@) =~= before + seq![pattern_is(*pattern)]);
        if typed {
            walk_pat(self, pattern);
            assert(before + seq![pattern_is(*pattern)] + pattern_inside(*pattern) =~= before
                + pattern_layers(*pattern));
        }
    }

    /// The type behind a pattern binds nothing.
    fn visit_type(&mut self, ty: &'ast syn::Type)
        ensures
            *final(self) == *old(self),
    {
    }
}

/// The name of a `syn::ItemFn`, and the spans of the first and the last token that
/// `quote::ToTokens` gives of it.
#[verifier::external_body]
fn item_fn_part(node: &syn::ItemFn) -> (definition: Definition)
    ensures
        definition@ == item_fn_is(*node),
{
    let mut spans = node.to_token_stream().into_iter().map(|t| t.span());
    let first = spans.next().unwrap();
    let last = spans.last().unwrap_or(first);
    Definition { name: node.sig.ident.to_string(), ends: (first, last) }
}

/// The name of a `syn::ImplItemFn`, and the spans of the first and the last token that
/// `quote::ToTokens` gives of it.
#[verifier::external_body]
fn impl_item_fn_part(node: &syn::ImplItemFn) -> (definition: Definition)
    ensures
        definition@ == impl_item_fn_is(*node),
{
    let mut spans = node.to_token_stream().into_iter().map(|t| t.span());
    let first = spans.next().unwrap();
    let last = spans.last().unwrap_or(first);
    Definition { name: node.sig.ident.to_string(), ends: (first, last) }
}

/// The name of a `syn::TraitItemFn`, and the spans of the first and the last token that
/// `quote::ToTokens` gives of it.
#[verifier::external_body]
fn trait_item_fn_part(node: &syn::TraitItemFn) -> (definition: Definition)
    ensures
        definition@ == trait_item_fn_is(*node),
{
    let mut spans = node.to_token_stream().into_iter().map(|t| t.span());
    let first = spans.next().unwrap();
    let last = spans.last().unwrap_or(first);
    Definition { name: node.sig.ident.to_string(), ends: (first, last) }
}

/// The spans of the first and the last token that `quote::ToTokens` gives of a
/// `syn::ExprClosure`.
#[verifier::external_body]
fn expr_closure_part(node: &syn::ExprClosure) -> (ends: Ends)
    ensures
        ends == expr_closure_is(*node),
{
    let mut spans = node.to_token_stream().into_iter().map(|t| t.span());
    let first = spans.next().unwrap();
    let last = spans.last().unwrap_or(first);
    (first, last)
}

/// The name of a `syn::ItemTrait`.
#[verifier::external_body]
fn item_trait_part(node: &syn::ItemTrait) -> (name: String)
    ensures
        name@ == item_trait_is(*node),
{
    node.ident.to_string()
}

/// The name of a `syn::ItemMod`.
#[verifier::external_body]
fn item_mod_part(node: &syn::ItemMod) -> (name: String)
    ensures
        name@ == item_mod_is(*node),
{
    node.ident.to_string()
}

/// The type a `syn::ItemImpl` is for.
#[verifier::external_body]
fn self_type(node: &syn::ItemImpl) -> (ty: &syn::Type)
    ensures
        *ty == impl_type(*node),
{
    &node.self_ty
}

/// The pattern of a `syn::Local`.
#[verifier::external_body]
fn bound_pattern(node: &syn::Local) -> (pattern: &syn::Pat)
    ensures
        *pattern == local_pattern(*node),
{
    &node.pat
}

/// What a walk over a Rust file has met so far.
pub struct RustWalk {
    pub parts: TreeWalk<RustPart>,
    /// The ends of the functions and closures that were met, by their places.
    pub ends: Vec<Ends>,
}

/// Whether a walk met `more` next, and is where it was.
pub open spec fn met_next(before: RustWalk, after: RustWalk, more: Met) -> bool {
    &&& after.parts.met() == before.parts.met() + more.trees
    &&& after.parts.around@ == before.parts.around@
    &&& after.ends@ == before.ends@ + more.ends
}

/// `syn::visit::visit_item_fn`: hands what is inside the node to the walk, which adds
/// what it meets.
#[verifier::external_body]
fn walk_item_fn(walk: &mut RustWalk, node: &syn::ItemFn)
    ensures
        met_next(*old(walk), *final(walk), item_fn_inside(*node, old(walk).ends@.len())),
{
    syn::visit::visit_item_fn(walk, node)
}

/// `syn::visit::visit_impl_item_fn`, likewise.
#[verifier::external_body]
fn walk_impl_item_fn(walk: &mut RustWalk, node: &syn::ImplItemFn)
    ensures
        met_next(*old(walk), *final(walk), impl_item_fn_inside(*node, old(walk).ends@.len())),
{
    syn::visit::visit_impl_item_fn(walk, node)
}

/// `syn::visit::visit_trait_item_fn`, likewise.
#[verifier::external_body]
fn walk_trait_item_fn(walk: &mut RustWalk, node: &syn::TraitItemFn)
    ensures
        met_next(*old(walk), *final(walk), trait_item_fn_inside(*node, old(walk).ends@.len())),
{
    syn::visit::visit_trait_item_fn(walk, node)
}

/// `syn::visit::visit_expr_closure`, likewise.
#[verifier::external_body]
fn walk_expr_closure(walk: &mut RustWalk, node: &syn::ExprClosure)
    ensures
        met_next(*old(walk), *final(walk), expr_closure_inside(*node, old(walk).ends@.len())),
{
    syn::visit::visit_expr_closure(walk, node)
}

/// `syn::visit::visit_item_trait`, likewise.
#[verifier::external_body]
fn walk_item_trait(walk: &mut RustWalk, node: &syn::ItemTrait)
    ensures
        met_next(*old(walk), *final(walk), item_trait_inside(*node, old(walk).ends@.len())),
{
    syn::visit::visit_item_trait(walk, node)
}

/// `syn::visit::visit_item_mod`, likewise.
#[verifier::external_body]
fn walk_item_mod(walk: &mut RustWalk, node: &syn::ItemMod)
    ensures
        met_next(*old(walk), *final(walk), item_mod_inside(*node, old(walk).ends@.len())),
{
    syn::visit::visit_item_mod(walk, node)
}

/// `syn::visit::visit_item_impl`, likewise.
#[verifier::external_body]
fn walk_item_impl(walk: &mut RustWalk, node: &syn::ItemImpl)
    ensures
        met_next(*old(walk), *final(walk), item_impl_inside(*node, old(walk).ends@.len())),
{
    syn::visit::visit_item_impl(walk, node)
}

/// `syn::visit::visit_local`, likewise.
#[verifier::external_body]
fn walk_local(walk: &mut RustWalk, node: &syn::Local)
    ensures
        met_next(*old(walk), *final(walk), local_inside(*node, old(walk).ends@.len())),
{
    syn::visit::visit_local(walk, node)
}

/// A function or closure with the given ends, and what is inside it.
pub open spec fn met_function(part: RustPartView, ends: Ends, inside: Met) -> Met {
    Met {
        trees: seq![SourceTreeView { data: part, children: inside.trees }],
        ends: seq![ends] + inside.ends,
    }
}

/// Another part, and what is inside it.
pub open spec fn met_part(part: RustPartView, inside: Met) -> Met {
    Met {
        trees: seq![SourceTreeView { data: part, children: inside.trees }],
        ends: inside.ends,
    }
}

/// What a walk meets of a free function, places being counted from `at`.
pub open spec fn item_fn_met(node: syn::ItemFn, at: nat) -> Met {
    let own = item_fn_is(node);
    met_function(
        RustPartView::Function { name: own.name, at },
        own.ends,
        item_fn_inside(node, at + 1),
    )
}

/// What a walk meets of a method or an associated function.
pub open spec fn impl_item_fn_met(node: syn::ImplItemFn, at: nat) -> Met {
    let own = impl_item_fn_is(node);
    met_function(
        RustPartView::Function { name: own.name, at },
        own.ends,
        impl_item_fn_inside(node, at + 1),
    )
}

/// What a walk meets of a function of a trait. Trait methods with a default body are
/// functions worth tracking; those without one still occupy a signature line and are
/// recorded uniformly.
pub open spec fn trait_item_fn_met(node: syn::TraitItemFn, at: nat) -> Met {
    let own = trait_item_fn_is(node);
    met_function(
        RustPartView::Function { name: own.name, at },
        own.ends,
        trait_item_fn_inside(node, at + 1),
    )
}

/// What a walk meets of a closure.
pub open spec fn expr_closure_met(node: syn::ExprClosure, at: nat) -> Met {
    met_function(
        RustPartView::Closure { at },
        expr_closure_is(node),
        expr_closure_inside(node, at + 1),
    )
}

/// What a walk meets of a trait.
pub open spec fn item_trait_met(node: syn::ItemTrait, at: nat) -> Met {
    met_part(RustPartView::Scope { name: item_trait_is(node) }, item_trait_inside(node, at))
}

/// What a walk meets of a module.
pub open spec fn item_mod_met(node: syn::ItemMod, at: nat) -> Met {
    met_part(RustPartView::Scope { name: item_mod_is(node) }, item_mod_inside(node, at))
}

/// What a walk meets of an `impl` block.
pub open spec fn item_impl_met(node: syn::ItemImpl, at: nat) -> Met {
    met_part(item_impl_is(node), item_impl_inside(node, at))
}

/// What a walk meets of a `let` binding.
pub open spec fn local_met(node: syn::Local, at: nat) -> Met {
    met_part(local_is(node), local_inside(node, at))
}

/// What an `impl` block is.
pub open spec fn item_impl_is(node: syn::ItemImpl) -> RustPartView {
    RustPartView::Impl { self_type: type_layers(impl_type(node)) }
}

/// What a `let` binding is.
pub open spec fn local_is(node: syn::Local) -> RustPartView {
    RustPartView::Local { pattern: pattern_layers(local_pattern(node)) }
}

fn item_impl_part(node: &syn::ItemImpl) -> (part: RustPart)
    ensures
        part@ == item_impl_is(*node),
{
    let mut walk = TypeWalk { layers: Vec::new() };
    walk.visit_type(self_type(node));
    assert(type_layer_views(walk.layers@) =~= type_layers(impl_type(*node)));
    RustPart::Impl { self_type: walk.layers }
}

fn local_part(node: &syn::Local) -> (part: RustPart)
    ensures
        part@ == local_is(*node),
{
    let mut walk = PatternWalk { layers: Vec::new() };
    walk.visit_pat(bound_pattern(node));
    assert(pattern_layer_views(walk.layers@) =~= pattern_layers(local_pattern(*node)));
    RustPart::Local { pattern: walk.layers }
}

impl<'ast> Visit<'ast> for RustWalk {
    fn visit_item_fn(&mut self, node: &'ast syn::ItemFn)
        ensures
            met_next(*old(self), *final(self), item_fn_met(*node, old(self).ends@.len())),
    {
        let own = item_fn_part(node);
        let at = self.ends.len();
        self.ends.push(own.ends);
        self.parts.enter();
        walk_item_fn(self, node);
        assert(self.parts.met() =~= item_fn_inside(*node, at as nat + 1).trees);
        self.parts.leave(RustPart::Function { name: own.name, at });
        assert(self.parts.around@ =~= old(self).parts.around@);
        assert(self.ends@ =~= old(self).ends@ + item_fn_met(*node, old(self).ends@.len()).ends);
    }

    fn visit_impl_item_fn(&mut self, node: &'ast syn::ImplItemFn)
        ensures
            met_next(*old(self), *final(self), impl_item_fn_met(*node, old(self).ends@.len())),
    {
        let own = impl_item_fn_part(node);
        let at = self.ends.len();
        self.ends.push(own.ends);
        self.parts.enter();
        walk_impl_item_fn(self, node);
        assert(self.parts.met() =~= impl_item_fn_inside(*node, at as nat + 1).trees);
        self.parts.leave(RustPart::Function { name: own.name, at });
        assert(self.parts.around@ =~= old(self).parts.around@);
        let ghost met = impl_item_fn_met(*node, old(self).ends@.len());
        assert(self.ends@ =~= old(self).ends@ + met.ends);
    }

    fn visit_trait_item_fn(&mut self, node: &'ast syn::TraitItemFn)
        ensures
            met_next(*old(self), *final(self), trait_item_fn_met(*node, old(self).ends@.len())),
    {
        let own = trait_item_fn_part(node);
        let at = self.ends.len();
        self.ends.push(own.ends);
        self.parts.enter();
        walk_trait_item_fn(self, node);
        assert(self.parts.met() =~= trait_item_fn_inside(*node, at as nat + 1).trees);
        self.parts.leave(RustPart::Function { name: own.name, at });
        assert(self.parts.around@ =~= old(self).parts.around@);
        let ghost met = trait_item_fn_met(*node, old(self).ends@.len());
        assert(self.ends@ =~= old(self).ends@ + met.ends);
    }

    fn visit_expr_closure(&mut self, node: &'ast syn::ExprClosure)
        ensures
            met_next(*old(self), *final(self), expr_closure_met(*node, old(self).ends@.len())),
    {
        let at = self.ends.len();
        self.ends.push(expr_closure_part(node));
        self.parts.enter();
        walk_expr_closure(self, node);
        assert(self.parts.met() =~= expr_closure_inside(*node, at as nat + 1).trees);
        self.parts.leave(RustPart::Closure { at });
        assert(self.parts.around@ =~= old(self).parts.around@);
        let ghost met = expr_closure_met(*node, old(self).ends@.len());
        assert(self.ends@ =~= old(self).ends@ + met.ends);
    }

    fn visit_item_trait(&mut self, node: &'ast syn::ItemTrait)
        ensures
            met_next(*old(self), *final(self), item_trait_met(*node, old(self).ends@.len())),
    {
        self.parts.enter();
        walk_item_trait(self, node);
        assert(self.parts.met() =~= item_trait_inside(*node, old(self).ends@.len()).trees);
        self.parts.leave(RustPart::Scope { name: item_trait_part(node) });
        assert(self.parts.around@ =~= old(self).parts.around@);
        assert(self.ends@ =~= old(self).ends@ + item_trait_met(*node, old(self).ends@.len()).ends);
    }

    fn visit_item_mod(&mut self, node: &'ast syn::ItemMod)
        ensures
            met_next(*old(self), *final(self), item_mod_met(*node, old(self).ends@.len())),
    {
        self.parts.enter();
        walk_item_mod(self, node);
        assert(self.parts.met() =~= item_mod_inside(*node, old(self).ends@.len()).trees);
        self.parts.leave(RustPart::Scope { name: item_mod_part(node) });
        assert(self.parts.around@ =~= old(self).parts.around@);
        assert(self.ends@ =~= old(self).ends@ + item_mod_met(*node, old(self).ends@.len()).ends);
    }

    fn visit_item_impl(&mut self, node: &'ast syn::ItemImpl)
        ensures
            met_next(*old(self), *final(self), item_impl_met(*node, old(self).ends@.len())),
    {
        self.parts.enter();
        walk_item_impl(self, node);
        assert(self.parts.met() =~= item_impl_inside(*node, old(self).ends@.len()).trees);
        self.parts.leave(item_impl_part(node));
        assert(self.parts.around@ =~= old(self).parts.around@);
        assert(self.ends@ =~= old(self).ends@ + item_impl_met(*node, old(self).ends@.len()).ends);
    }

    fn visit_local(&mut self, node: &'ast syn::Local)
        ensures
            met_next(*old(self), *final(self), local_met(*node, old(self).ends@.len())),
    {
        self.parts.enter();
        walk_local(self, node);
        assert(self.parts.met() =~= local_inside(*node, old(self).ends@.len()).trees);
        self.parts.leave(local_part(node));
        assert(self.parts.around@ =~= old(self).parts.around@);
        assert(self.ends@ =~= old(self).ends@ + local_met(*node, old(self).ends@.len()).ends);
    }
}

/// What is met one after the other.
pub open spec fn met_both(first: Met, second: Met) -> Met {
    Met { trees: first.trees + second.trees, ends: first.ends + second.ends }
}

/// A walk that met one thing and then another met both.
proof fn met_in_turn(start: RustWalk, between: RustWalk, end: RustWalk, first: Met, second: Met)
    requires
        met_next(start, between, first),
        met_next(between, end, second),
    ensures
        met_next(start, end, met_both(first, second)),
{
    assert(end.parts.met() =~= start.parts.met() + (first.trees + second.trees));
    assert(end.ends@ =~= start.ends@ + (first.ends + second.ends));
}

/// What a walk over a Rust file records: a construct of each of these kinds is met as one
/// part, with what is inside it.
#[allow(dead_code)]
pub(crate) fn visit_each_kind(
    walk: &mut RustWalk,
    free: &syn::ItemFn,
    method: &syn::ImplItemFn,
    signature: &syn::TraitItemFn,
    closure: &syn::ExprClosure,
    interface: &syn::ItemTrait,
    module: &syn::ItemMod,
    block: &syn::ItemImpl,
    binding: &syn::Local,
)
    ensures
        ({
            let n = old(walk).ends@.len();
            let m1 = item_fn_met(*free, n);
            let m2 = met_both(m1, impl_item_fn_met(*method, n + m1.ends.len()));
            let m3 = met_both(m2, trait_item_fn_met(*signature, n + m2.ends.len()));
            let m4 = met_both(m3, expr_closure_met(*closure, n + m3.ends.len()));
            let m5 = met_both(m4, item_trait_met(*interface, n + m4.ends.len()));
            let m6 = met_both(m5, item_mod_met(*module, n + m5.ends.len()));
            let m7 = met_both(m6, item_impl_met(*block, n + m6.ends.len()));
            let m8 = met_both(m7, local_met(*binding, n + m7.ends.len()));
            met_next(*old(walk), *final(walk), m8)
        }),
{
    let ghost start = *walk;
    let ghost n = walk.ends@.len();
    walk.visit_item_fn(free);
    let ghost m1 = item_fn_met(*free, n);
    let ghost w1 = *walk;
    walk.visit_impl_item_fn(method);
    let ghost m2 = met_both(m1, impl_item_fn_met(*method, n + m1.ends.len()));
    proof {
        met_in_turn(start, w1, *walk, m1, impl_item_fn_met(*method, n + m1.ends.len()));
    }
    let ghost w2 = *walk;
    walk.visit_trait_item_fn(signature);
    let ghost m3 = met_both(m2, trait_item_fn_met(*signature, n + m2.ends.len()));
    proof {
        met_in_turn(start, w2, *walk, m2, trait_item_fn_met(*signature, n + m2.ends.len()));
    }
    let ghost w3 = *walk;
    walk.visit_expr_closure(closure);
    let ghost m4 = met_both(m3, expr_closure_met(*closure, n + m3.ends.len()));
    proof {
        met_in_turn(start, w3, *walk, m3, expr_closure_met(*closure, n + m3.ends.len()));
    }
    let ghost w4 = *walk;
    walk.visit_item_trait(interface);
    let ghost m5 = met_both(m4, item_trait_met(*interface, n + m4.ends.len()));
    proof {
        met_in_turn(start, w4, *walk, m4, item_trait_met(*interface, n + m4.ends.len()));
    }
    let ghost w5 = *walk;
    walk.visit_item_mod(module);
    let ghost m6 = met_both(m5, item_mod_met(*module, n + m5.ends.len()));
    proof {
        met_in_turn(start, w5, *walk, m5, item_mod_met(*module, n + m5.ends.len()));
    }
    let ghost w6 = *walk;
    walk.visit_item_impl(block);
    let ghost m7 = met_both(m6, item_impl_met(*block, n + m6.ends.len()));
    proof {
        met_in_turn(start, w6, *walk, m6, item_impl_met(*block, n + m6.ends.len()));
    }
    let ghost w7 = *walk;
    walk.visit_local(binding);
    let ghost m8 = met_both(m7, local_met(*binding, n + m7.ends.len()));
    proof {
        met_in_turn(start, w7, *walk, m7, local_met(*binding, n + m7.ends.len()));
    }
}

/// Whether a source leaves room in the 32-bit space that `proc_macro2` keeps the spans
/// of a thread in. Besides the source, it holds the text of every negative literal once
/// more for each time that `syn` reads it.
pub open spec fn spannable(source: Seq<char>) -> bool {
    encode_utf8(source).len() <= SPANNABLE
}

/// The most bytes of a source whose spans are kept.
pub const SPANNABLE: usize = 0x1000_0000;

/// What lines stand for.
pub open spec fn line_views(lines: Seq<(u32, u32)>) -> Seq<(int, int)> {
    lines.map_values(|l: (u32, u32)| (l.0 as int, l.1 as int))
}

/// `syn::parse_file` and `syn::visit::visit_file`: hands the file to the walk, which adds
/// what it meets, and then asks `proc_macro2` for the line on which each function and
/// closure starts and for the one on which it ends. Parts and lines are a function of the
/// source alone: the spans of the thread are forgotten first, and those of this file are
/// asked before anything else is parsed. Where `syn` refuses the source nothing is added.
#[verifier::external_body]
fn parse_rust(walk: &mut RustWalk, source: &str) -> (parsed: Result<Vec<(u32, u32)>, syn::Error>)
    requires
        spannable(source@),
        old(walk).ends@.len() == 0,
    ensures
        match (parsed, rust_parse(source@)) {
            (Ok(lines), Ok(file)) => {
                &&& final(walk).parts.met() == old(walk).parts.met() + file.trees
                &&& line_views(lines@) == file.lines
            },
            (Err(_), Err(_)) => *final(walk) == *old(walk),
            _ => false,
        },
{
    proc_macro2::extra::invalidate_current_thread_spans();
    let file = syn::parse_file(source)?;
    syn::visit::visit_file(walk, &file);
    let lines = |ends: &Ends| (ends.0.start().line as u32, ends.1.end().line as u32);
    Ok(walk.ends.iter().map(lines).collect())
}

/// The simple name of an `impl` type with these layers: `Foo` for `impl Foo`,
/// `impl Trait for Foo`, `impl Foo<T>`, or `impl &Foo`. Falls back to `<type>` for
/// shapes without an obvious name (tuples, slices, ...).
pub open spec fn self_type_name(layers: Seq<TypeLayerView>) -> Seq<char> {
    if layers.len() == 0 {
        "<type>"@
    } else {
        match layers.last() {
            TypeLayerView::Path(segments) if segments.len() > 0 => segments.last(),
            _ => "<type>"@,
        }
    }
}

/// The identifier a pattern with these layers binds, if it is a plain `x` or a
/// typed `x: T`.
pub open spec fn binding_ident(layers: Seq<PatternLayerView>) -> Option<Seq<char>> {
    if layers.len() == 0 {
        None
    } else {
        match layers.last() {
            PatternLayerView::Ident(name) => Some(name),
            _ => None,
        }
    }
}

/// Whether every function and closure has a place among `count`.
pub open spec fn placed(t: RustTreeView, count: nat) -> bool
    decreases t,
{
    &&& match t.data {
        RustPartView::Function { at, .. } => at < count,
        RustPartView::Closure { at } => at < count,
        _ => true,
    }
    &&& forall|i: int| 0 <= i < t.children.len() ==> placed(#[trigger] t.children[i], count)
}

/// Whether this holds of each of `trees`.
pub open spec fn all_placed(trees: Seq<RustTreeView>, count: nat) -> bool {
    forall|i: int| 0 <= i < trees.len() ==> placed(#[trigger] trees[i], count)
}

/// The outline of a part and of what is inside it, given the lines of the functions and
/// closures by their places.
pub open spec fn rust_outline(t: RustTreeView, lines: Seq<(int, int)>) -> Seq<OutlineView>
    decreases t,
{
    let body = rust_outline_all(t.children, lines);
    match t.data {
        RustPartView::Function { name, at } => seq![
            function_view(LabelView::Fixed(name), lines[at as int].0, lines[at as int].1, body),
        ],
        RustPartView::Closure { at } => seq![
            function_view(
                LabelView::Hinted("<closure>"@),
                lines[at as int].0,
                lines[at as int].1,
                body,
            ),
        ],
        RustPartView::Impl { self_type } => seq![
            scope_view(LabelView::Fixed(self_type_name(self_type)), body),
        ],
        RustPartView::Scope { name } => seq![scope_view(LabelView::Fixed(name), body)],
        RustPartView::Local { pattern } => seq![binding_view(binding_ident(pattern), body)],
    }
}

/// The outlines of `trees`, one after the other.
pub open spec fn rust_outline_all(trees: Seq<RustTreeView>, lines: Seq<(int, int)>) -> Seq<
    OutlineView,
>
    decreases trees,
{
    if trees.len() == 0 {
        Seq::empty()
    } else {
        rust_outline_all(trees.drop_last(), lines) + rust_outline(trees.last(), lines)
    }
}

/// The symbols of a Rust source.
pub open spec fn rust_symbols(source: Seq<char>) -> Extraction {
    if !spannable(source) {
        Err(AnalyzerError::TooLong)
    } else {
        match rust_parse(source) {
            Ok(file) => if all_placed(file.trees, file.lines.len()) {
                outline_result(rust_outline_all(file.trees, file.lines))
            } else {
                Err(AnalyzerError::Malformed)
            },
            Err(_) => Err(AnalyzerError::Syntax),
        }
    }
}

/// Whether every function and closure in a tree has a place among `count`.
fn is_placed(tree: &SourceTree<RustPart>, count: usize) -> (is: bool)
    ensures
        is == placed(tree@, count as nat),
    decreases tree,
{
    proof {
        tree_view_parts(*tree);
    }
    let own = match &tree.data {
        RustPart::Function { at, .. } => *at < count,
        RustPart::Closure { at } => *at < count,
        _ => true,
    };
    own && are_placed(&tree.children, count)
}

/// Whether this holds of each of `trees`.
fn are_placed(trees: &Vec<SourceTree<RustPart>>, count: usize) -> (are: bool)
    ensures
        are == all_placed(tree_views(trees@), count as nat),
    decreases trees,
{
    let ghost views = tree_views(trees@);
    let mut i: usize = 0;
    while i < trees.len()
        invariant
            i <= trees@.len() == views.len(),
            views == tree_views(trees@),
            forall|j: int| 0 <= j < i ==> placed(#[trigger] views[j], count as nat),
        decreases trees@.len() - i,
    {
        assert(views[i as int] == trees@[i as int]@);
        if !is_placed(&trees[i], count) {
            return false;
        }
        i += 1;
    }
    true
}

fn self_type_text(layers: &Vec<TypeLayer>) -> (name: String)
    ensures
        name@ == self_type_name(type_layer_views(layers@)),
{
    if layers.len() > 0 {
        if let TypeLayer::Path(segments) = &layers[layers.len() - 1] {
            if segments.len() > 0 {
                return segments[segments.len() - 1].clone();
            }
        }
    }
    "<type>".to_string()
}

fn binding_text(layers: &Vec<PatternLayer>) -> (name: Option<String>)
    ensures
        text_option(name) == binding_ident(pattern_layer_views(layers@)),
{
    if layers.len() > 0 {
        if let PatternLayer::Ident(name) = &layers[layers.len() - 1] {
            return Some(name.clone());
        }
    }
    None
}

/// The outline of a part of a Rust file and of what is inside it.
fn outline_below(tree: &SourceTree<RustPart>, lines: &Vec<(u32, u32)>) -> (out: Vec<Outline>)
    requires
        placed(tree@, lines@.len()),
    ensures
        tree_views(out@) == rust_outline(tree@, line_views(lines@)),
    decreases tree,
{
    proof {
        tree_view_parts(*tree);
    }
    let body = outline(&tree.children, lines);
    match &tree.data {
        RustPart::Function { name, at } => {
            let (start, end) = lines[*at];
            assert(line_views(lines@)[*at as int] == (start as int, end as int));
            only(function_outline(Label::Fixed(name.clone()), start, end, body))
        },
        RustPart::Closure { at } => {
            let (start, end) = lines[*at];
            assert(line_views(lines@)[*at as int] == (start as int, end as int));
            only(function_outline(Label::Hinted("<closure>".to_string()), start, end, body))
        },
        RustPart::Impl { self_type } => only(
            scope_outline(Label::Fixed(self_type_text(self_type)), body),
        ),
        RustPart::Scope { name } => only(scope_outline(Label::Fixed(name.clone()), body)),
        RustPart::Local { pattern } => only(binding_outline(binding_text(pattern), body)),
    }
}

/// The outlines of the parts of a Rust file, one after the other, given the lines of
/// its functions and closures by their places.
pub fn outline(trees: &Vec<SourceTree<RustPart>>, lines: &Vec<(u32, u32)>) -> (out: Vec<Outline>)
    requires
        all_placed(tree_views(trees@), lines@.len()),
    ensures
        tree_views(out@) == rust_outline_all(tree_views(trees@), line_views(lines@)),
    decreases trees,
{
    let ghost views = tree_views(trees@);
    let mut out = nothing();
    let mut i: usize = 0;
    assert(views.take(0) =~= Seq::empty());
    while i < trees.len()
        invariant
            i <= trees@.len() == views.len(),
            views == tree_views(trees@),
            all_placed(views, lines@.len()),
            tree_views(out@) == rust_outline_all(views.take(i as int), line_views(lines@)),
        decreases trees@.len() - i,
    {
        assert(views.take(i as int + 1).drop_last() =~= views.take(i as int));
        assert(placed(views[i as int], lines@.len()));
        put_all(&mut out, outline_below(&trees[i], lines));
        i += 1;
    }
    assert(views.take(i as int) =~= views);
    out
}

/// The symbols of a Rust file with these parts and lines, or an error where a function
/// or closure has no lines.
pub fn extract(trees: &Vec<SourceTree<RustPart>>, lines: &Vec<(u32, u32)>) -> (symbols: Result<
    Vec<Symbol>,
    AnalyzerError,
>)
    ensures
        symbols_result(symbols) == (if all_placed(tree_views(trees@), lines@.len()) {
            outline_result(rust_outline_all(tree_views(trees@), line_views(lines@)))
        } else {
            Err(AnalyzerError::Malformed)
        }),
{
    if are_placed(trees, lines.len()) {
        outline_symbols(&outline(trees, lines))
    } else {
        Err(AnalyzerError::Malformed)
    }
}

/// The analyzer of Rust sources.
///
/// `extract_symbols` makes the calling thread forget the spans of everything that it
/// has parsed with `proc_macro2` before: asking one of them for its place afterwards
/// gives a wrong answer or panics. Where such spans are still needed, extract on another
/// thread. Sources of more than [`SPANNABLE`] bytes are refused as too long.
pub struct RustAnalyzer;

impl LanguageAnalyzer for RustAnalyzer {
    open spec fn language(&self) -> Seq<char> {
        "Rust"@
    }

    open spec fn own_extensions(&self) -> Seq<Seq<char>> {
        seq!["rs"@]
    }

    open spec fn gives(&self, path: Seq<char>, source: Seq<char>, symbols: Extraction) -> bool {
        symbols == rust_symbols(source)
    }

    fn name(&self) -> (name: &'static str) {
        "Rust"
    }

    fn extensions(&self) -> (list: &'static [&'static str]) {
        let list: &'static [&'static str] = &["rs"];
        assert(str_views(list@) =~= self.own_extensions());
        list
    }

    fn extract_symbols(&self, path: &str, source: &str) -> (symbols: Result<
        Vec<Symbol>,
        AnalyzerError,
    >) {
        if source.as_bytes().len() > SPANNABLE {
            return Err(AnalyzerError::TooLong);
        }
        let mut walk = RustWalk { parts: TreeWalk::new(), ends: Vec::new() };
        match parse_rust(&mut walk, source) {
            Ok(lines) => {
                assert(walk.parts.met() =~= rust_parse(source@)->Ok_0.trees);
                assert(rust_parse(source@)->Ok_0.lines.len() == lines@.len());
                extract(&walk.parts.trees, &lines)
            },
            Err(_) => Err(AnalyzerError::Syntax),
        }
    }
}

} // verus!
