//! What the analyzers share: the outline of a source file, and the walk that
//! turns it into qualified, depth-numbered symbols.
//!
//! Each language module reduces its syntax tree to an [`Outline`]: the
//! functions, the scopes that qualify names, and the bindings that offer a name
//! to a function literal. Names, depths and the handing-down of binding names
//! are settled here, once for all languages.
use vstd::prelude::*;

use super::tree::{SourceTree, SourceTreeView, tree_view_parts, tree_views};
use super::{AnalyzerError, Symbol, SymbolView, symbol_views, symbols_result};
use crate::text::{join, joined, text_option, texts};

verus! {

/// How a function or a scope is named.
pub enum Label {
    /// By a name of its own.
    Fixed(String),
    /// By the pending hint, which it uses up, or else by this placeholder.
    Hinted(String),
}

/// What a [`Label`] stands for.
pub enum LabelView {
    Fixed(Seq<char>),
    Hinted(Seq<char>),
}

impl View for Label {
    type V = LabelView;

    open spec fn view(&self) -> LabelView {
        match self {
            Label::Fixed(name) => LabelView::Fixed(name@),
            Label::Hinted(name) => LabelView::Hinted(name@),
        }
    }
}

/// One construct of a source file that matters to its symbols.
pub enum Part {
    /// A function, method or function literal and the 1-based, inclusive line
    /// range it spans.
    Function { label: Label, start_line: u32, end_line: u32 },
    /// A type, module or receiver that qualifies the names below it and adds no
    /// nesting depth.
    Scope { label: Label },
    /// A construct that offers `hint` as the name of the next function literal
    /// below it. Afterwards the hint that was pending before is pending again,
    /// or none at all where the construct `clears` it.
    Binding { hint: Option<String>, clears: bool },
    /// A construct whose body sees the pending hint without using it up.
    Delegate,
}

/// What a [`Part`] stands for.
pub enum PartView {
    Function { label: LabelView, start_line: int, end_line: int },
    Scope { label: LabelView },
    Binding { hint: Option<Seq<char>>, clears: bool },
    Delegate,
}

impl View for Part {
    type V = PartView;

    open spec fn view(&self) -> PartView {
        match self {
            Part::Function { label, start_line, end_line } => PartView::Function {
                label: label@,
                start_line: *start_line as int,
                end_line: *end_line as int,
            },
            Part::Scope { label } => PartView::Scope { label: label@ },
            Part::Binding { hint, clears } => PartView::Binding {
                hint: text_option(*hint),
                clears: *clears,
            },
            Part::Delegate => PartView::Delegate,
        }
    }
}

/// A construct together with the constructs inside it, in source order.
pub type Outline = SourceTree<Part>;

/// What an [`Outline`] stands for.
pub type OutlineView = SourceTreeView<PartView>;

/// A function with the given label, lines and body.
pub open spec fn function_view(
    label: LabelView,
    start_line: int,
    end_line: int,
    body: Seq<OutlineView>,
) -> OutlineView {
    SourceTreeView { data: PartView::Function { label, start_line, end_line }, children: body }
}

/// A scope with the given label and body.
pub open spec fn scope_view(label: LabelView, body: Seq<OutlineView>) -> OutlineView {
    SourceTreeView { data: PartView::Scope { label }, children: body }
}

/// A construct that offers `hint` while its body lasts.
pub open spec fn binding_view(hint: Option<Seq<char>>, body: Seq<OutlineView>) -> OutlineView {
    SourceTreeView { data: PartView::Binding { hint, clears: false }, children: body }
}

/// A construct that offers `hint` while its body lasts and leaves no hint behind.
pub open spec fn member_view(hint: Option<Seq<char>>, body: Seq<OutlineView>) -> OutlineView {
    SourceTreeView { data: PartView::Binding { hint, clears: true }, children: body }
}

/// A construct whose body sees the pending hint without using it up.
pub open spec fn delegate_view(body: Seq<OutlineView>) -> OutlineView {
    SourceTreeView { data: PartView::Delegate, children: body }
}

/// A body inside a scope with the given name, or by itself where there is none.
pub open spec fn in_scope_view(name: Option<Seq<char>>, body: Seq<OutlineView>) -> Seq<
    OutlineView,
> {
    match name {
        Some(name) => seq![scope_view(LabelView::Fixed(name), body)],
        None => body,
    }
}

/// The name a call offers to its function-literal arguments: `describe()` for
/// arguments passed to `describe(...)`.
pub open spec fn call_hint(callee: Option<Seq<char>>) -> Option<Seq<char>> {
    match callee {
        Some(name) => Some(name + "()"@),
        None => None,
    }
}

/// A function with the given label, lines and body.
pub(crate) fn function_outline(
    label: Label,
    start_line: u32,
    end_line: u32,
    body: Vec<Outline>,
) -> (outline: Outline)
    ensures
        outline@ == function_view(
            label@,
            start_line as int,
            end_line as int,
            tree_views(body@),
        ),
{
    let outline = SourceTree {
        data: Part::Function { label, start_line, end_line },
        children: body,
    };
    proof {
        tree_view_parts(outline);
    }
    outline
}

/// A scope with the given label and body.
pub(crate) fn scope_outline(label: Label, body: Vec<Outline>) -> (outline: Outline)
    ensures
        outline@ == scope_view(label@, tree_views(body@)),
{
    let outline = SourceTree { data: Part::Scope { label }, children: body };
    proof {
        tree_view_parts(outline);
    }
    outline
}

/// A construct that offers `hint` while its body lasts.
pub(crate) fn binding_outline(hint: Option<String>, body: Vec<Outline>) -> (outline: Outline)
    ensures
        outline@ == binding_view(text_option(hint), tree_views(body@)),
{
    let outline = SourceTree { data: Part::Binding { hint, clears: false }, children: body };
    proof {
        tree_view_parts(outline);
    }
    outline
}

/// A construct that offers `hint` while its body lasts and leaves no hint behind.
pub(crate) fn member_outline(hint: Option<String>, body: Vec<Outline>) -> (outline: Outline)
    ensures
        outline@ == member_view(text_option(hint), tree_views(body@)),
{
    let outline = SourceTree { data: Part::Binding { hint, clears: true }, children: body };
    proof {
        tree_view_parts(outline);
    }
    outline
}

/// A construct whose body sees the pending hint without using it up.
pub(crate) fn delegate_outline(body: Vec<Outline>) -> (outline: Outline)
    ensures
        outline@ == delegate_view(tree_views(body@)),
{
    let outline = SourceTree { data: Part::Delegate, children: body };
    proof {
        tree_view_parts(outline);
    }
    outline
}

/// `body` inside a scope with the given name, or by itself where there is none.
pub(crate) fn in_scope(name: Option<String>, body: Vec<Outline>) -> (list: Vec<Outline>)
    ensures
        tree_views(list@) == in_scope_view(text_option(name), tree_views(body@)),
{
    match name {
        Some(name) => only(scope_outline(Label::Fixed(name), body)),
        None => body,
    }
}

/// The name a call of `callee` offers to its function-literal arguments.
pub(crate) fn call_hint_text(callee: Option<String>) -> (hint: Option<String>)
    ensures
        text_option(hint) == call_hint(text_option(callee)),
{
    match callee {
        Some(callee) => {
            let mut name = callee;
            name.append("()");
            Some(name)
        },
        None => None,
    }
}

/// The list that holds nothing.
pub(crate) fn nothing() -> (list: Vec<Outline>)
    ensures
        tree_views(list@) == Seq::<OutlineView>::empty(),
{
    let list: Vec<Outline> = Vec::new();
    assert(tree_views(list@) =~= Seq::empty());
    list
}

/// The list that holds `outline` alone.
pub(crate) fn only(outline: Outline) -> (list: Vec<Outline>)
    ensures
        tree_views(list@) == seq![outline@],
{
    let mut list: Vec<Outline> = Vec::new();
    list.push(outline);
    assert(tree_views(list@) =~= seq![outline@]);
    list
}

/// Put `outline` after the outlines in `list`.
pub(crate) fn put(list: &mut Vec<Outline>, outline: Outline)
    ensures
        tree_views(final(list)@) == tree_views(old(list)@).push(outline@),
{
    list.push(outline);
    assert(tree_views(list@) =~= tree_views(old(list)@).push(outline@));
}

/// Put `more` after the outlines in `list`.
pub(crate) fn put_all(list: &mut Vec<Outline>, more: Vec<Outline>)
    ensures
        tree_views(final(list)@) == tree_views(old(list)@) + tree_views(more@),
{
    let ghost tail = more@;
    let mut more = more;
    list.append(&mut more);
    assert(tree_views(list@) =~= tree_views(old(list)@) + tree_views(tail));
}

/// Where in a file a construct stands.
pub struct Place {
    /// The names of the enclosing scopes, outermost first.
    pub scopes: Seq<Seq<char>>,
    /// The name on offer to the next function literal.
    pub hint: Option<Seq<char>>,
    /// The number of enclosing functions.
    pub depth: nat,
}

/// What a construct contributes: its symbols in source order, and the hint that
/// is pending after it.
pub struct Found {
    pub symbols: Seq<SymbolView>,
    pub hint: Option<Seq<char>>,
}

/// `name` qualified by the names of the scopes around it.
pub open spec fn qualified(scopes: Seq<Seq<char>>, name: Seq<char>) -> Seq<char> {
    if scopes.len() == 0 {
        name
    } else {
        joined(scopes, seq!['.']) + seq!['.'] + name
    }
}

/// The name that `label` gives while `hint` is pending.
pub open spec fn label_name(label: LabelView, hint: Option<Seq<char>>) -> Seq<char> {
    match label {
        LabelView::Fixed(name) => name,
        LabelView::Hinted(placeholder) => match hint {
            Some(name) => name,
            None => placeholder,
        },
    }
}

/// The hint that is still pending once `label` has been named.
pub open spec fn hint_after(label: LabelView, hint: Option<Seq<char>>) -> Option<Seq<char>> {
    match label {
        LabelView::Fixed(_) => hint,
        LabelView::Hinted(_) => None,
    }
}

/// What `outline` contributes at `place`.
pub open spec fn found(outline: OutlineView, place: Place) -> Found
    decreases outline,
{
    let body = outline.children;
    match outline.data {
        // A function is recorded one level below its enclosers. Its body starts
        // with no hint, so that a hint cannot leak onto a nested literal.
        PartView::Function { label, start_line, end_line } => {
            let symbol = SymbolView {
                name: qualified(place.scopes, label_name(label, place.hint)),
                start_line,
                end_line,
                depth: place.depth as int + 1,
            };
            let inner = found_all(body, Place { hint: None, depth: place.depth + 1, ..place });
            Found { symbols: seq![symbol] + inner.symbols, hint: hint_after(label, place.hint) }
        },
        PartView::Scope { label } => {
            let scopes = place.scopes.push(label_name(label, place.hint));
            found_all(body, Place { scopes, hint: hint_after(label, place.hint), ..place })
        },
        PartView::Binding { hint, clears } => Found {
            symbols: found_all(body, Place { hint, ..place }).symbols,
            hint: if clears {
                None
            } else {
                place.hint
            },
        },
        PartView::Delegate => Found {
            symbols: found_all(body, place).symbols,
            hint: place.hint,
        },
    }
}

/// What `outlines` contribute one after the other, the first of them at `place`.
pub open spec fn found_all(outlines: Seq<OutlineView>, place: Place) -> Found
    decreases outlines,
{
    if outlines.len() == 0 {
        Found { symbols: Seq::empty(), hint: place.hint }
    } else {
        let before = found_all(outlines.drop_last(), place);
        let last = found(outlines.last(), Place { hint: before.hint, ..place });
        Found { symbols: before.symbols + last.symbols, hint: last.hint }
    }
}

/// The symbols of a whole file with these outlines.
pub open spec fn file_symbols(outlines: Seq<OutlineView>) -> Seq<SymbolView> {
    found_all(outlines, Place { scopes: Seq::empty(), hint: None, depth: 0 }).symbols
}

/// The greatest number of functions nested in one another in `outline`.
pub open spec fn nesting(outline: OutlineView) -> nat
    decreases outline,
{
    if outline.data is Function {
        1 + nesting_all(outline.children)
    } else {
        nesting_all(outline.children)
    }
}

/// The greatest number of functions nested in one another in `outlines`.
pub open spec fn nesting_all(outlines: Seq<OutlineView>) -> nat
    decreases outlines,
{
    if outlines.len() == 0 {
        0
    } else {
        let before = nesting_all(outlines.drop_last());
        let last = nesting(outlines.last());
        if before > last {
            before
        } else {
            last
        }
    }
}

proof fn nesting_in_all(outlines: Seq<OutlineView>, i: int)
    requires
        0 <= i < outlines.len(),
    ensures
        nesting(outlines[i]) <= nesting_all(outlines),
    decreases outlines,
{
    if i < outlines.len() - 1 {
        nesting_in_all(outlines.drop_last(), i);
    }
}

/// How deep functions nest in `outline`, where a `u32` can tell.
fn nesting_depth(outline: &Outline) -> (depth: Option<u32>)
    ensures
        depth matches Some(n) ==> n == nesting(outline@),
        depth is None ==> nesting(outline@) > u32::MAX,
    decreases outline,
{
    proof {
        tree_view_parts(*outline);
    }
    let inner = nesting_depth_all(&outline.children);
    match (&outline.data, inner) {
        (Part::Function { .. }, Some(n)) => {
            if n < u32::MAX {
                Some(n + 1)
            } else {
                None
            }
        },
        (_, depth) => depth,
    }
}

/// How deep functions nest in `outlines`, where a `u32` can tell.
fn nesting_depth_all(outlines: &Vec<Outline>) -> (depth: Option<u32>)
    ensures
        depth matches Some(n) ==> n == nesting_all(tree_views(outlines@)),
        depth is None ==> nesting_all(tree_views(outlines@)) > u32::MAX,
    decreases outlines,
{
    let ghost views = tree_views(outlines@);
    let mut deepest: u32 = 0;
    let mut i: usize = 0;
    while i < outlines.len()
        invariant
            i <= outlines@.len(),
            views == tree_views(outlines@),
            deepest == nesting_all(views.take(i as int)),
        decreases outlines@.len() - i,
    {
        assert(views[i as int] == outlines@[i as int]@);
        assert(views.take(i + 1).drop_last() =~= views.take(i as int));
        match nesting_depth(&outlines[i]) {
            Some(n) => {
                if n > deepest {
                    deepest = n;
                }
            },
            None => {
                proof {
                    nesting_in_all(views, i as int);
                }
                return None;
            },
        }
        i += 1;
    }
    assert(views.take(i as int) =~= views);
    Some(deepest)
}

/// The walk over a file's outline: the symbols recorded so far and where the
/// walk stands.
pub struct Walk {
    pub symbols: Vec<Symbol>,
    /// Names of the scopes (types, receivers, enum entries) the walk is
    /// currently inside, outermost first. Used to qualify recorded names.
    pub scope_stack: Vec<String>,
    /// Name to attach to the next function literal the walk descends into.
    pub name_hint: Option<String>,
    /// Number of enclosing function bodies the walk is currently inside.
    pub depth: u32,
}

impl Walk {
    /// Where the walk stands.
    pub open spec fn place(&self) -> Place {
        Place {
            scopes: texts(self.scope_stack@),
            hint: text_option(self.name_hint),
            depth: self.depth as nat,
        }
    }

    /// A walk at the top of a file, with nothing recorded.
    pub fn new() -> (walk: Walk)
        ensures
            walk.symbols@ == Seq::<Symbol>::empty(),
            walk.place() == (Place { scopes: Seq::empty(), hint: None, depth: 0 }),
    {
        let walk = Walk {
            symbols: Vec::new(),
            scope_stack: Vec::new(),
            name_hint: None,
            depth: 0,
        };
        assert(walk.place().scopes =~= Seq::empty());
        walk
    }

    /// Record `name`, qualified by the scopes around it, one level below the
    /// functions around it.
    fn record(&mut self, name: &str, start_line: u32, end_line: u32)
        requires
            old(self).depth < u32::MAX,
        ensures
            symbol_views(final(self).symbols@) == symbol_views(old(self).symbols@).push(
                SymbolView {
                    name: qualified(old(self).place().scopes, name@),
                    start_line: start_line as int,
                    end_line: end_line as int,
                    depth: old(self).depth + 1,
                },
            ),
            final(self).place() == old(self).place(),
    {
        let mut full = String::new();
        if self.scope_stack.len() > 0 {
            full = join(&self.scope_stack, ".");
            full.append(".");
            proof {
                reveal_strlit(".");
                assert("."@ =~= seq!['.']);
            }
        }
        full.append(name);
        assert(full@ =~= qualified(self.place().scopes, name@));
        let symbol = Symbol { name: full, start_line, end_line, depth: self.depth + 1 };
        self.symbols.push(symbol);
        assert(symbol_views(self.symbols@) =~= symbol_views(old(self).symbols@).push(symbol@));
    }

    /// The name `label` gives here; a label that relies on the pending hint uses
    /// the hint up.
    fn take_name(&mut self, label: &Label) -> (name: String)
        ensures
            name@ == label_name(label@, old(self).place().hint),
            final(self).symbols == old(self).symbols,
            final(self).place() == (Place {
                hint: hint_after(label@, old(self).place().hint),
                ..old(self).place()
            }),
    {
        match label {
            Label::Fixed(name) => name.clone(),
            Label::Hinted(placeholder) => match self.name_hint.take() {
                Some(name) => name,
                None => placeholder.clone(),
            },
        }
    }

    /// Record the functions of `outline`.
    fn visit(&mut self, outline: &Outline)
        requires
            old(self).depth + nesting(outline@) <= u32::MAX,
        ensures
            symbol_views(final(self).symbols@) == symbol_views(old(self).symbols@) + found(
                outline@,
                old(self).place(),
            ).symbols,
            final(self).place() == (Place {
                hint: found(outline@, old(self).place()).hint,
                ..old(self).place()
            }),
        decreases outline,
    {
        proof {
        tree_view_parts(*outline);
    }
        match &outline.data {
            Part::Function { label, start_line, end_line } => {
                let name = self.take_name(label);
                self.record(name.as_str(), *start_line, *end_line);
                let saved = self.name_hint.take();
                self.depth = self.depth + 1;
                self.visit_all(&outline.children);
                self.depth = self.depth - 1;
                self.name_hint = saved;
            },
            Part::Scope { label } => {
                let name = self.take_name(label);
                let ghost outer = self.scope_stack@;
                self.scope_stack.push(name);
                assert(texts(self.scope_stack@) =~= texts(outer).push(name@));
                self.visit_all(&outline.children);
                let ghost inner = self.scope_stack@;
                self.scope_stack.pop();
                proof {
                    assert(texts(self.scope_stack@) =~= texts(inner).drop_last());
                    assert(texts(inner).drop_last() =~= texts(outer));
                }
            },
            Part::Binding { hint, clears } => {
                let saved = self.name_hint.take();
                self.name_hint = hint.clone();
                self.visit_all(&outline.children);
                self.name_hint = if *clears {
                    None
                } else {
                    saved
                };
            },
            Part::Delegate => {
                let saved = self.name_hint.clone();
                self.visit_all(&outline.children);
                self.name_hint = saved;
            },
        }
    }

    /// Record the functions of `outlines`, in order.
    fn visit_all(&mut self, outlines: &Vec<Outline>)
        requires
            old(self).depth + nesting_all(tree_views(outlines@)) <= u32::MAX,
        ensures
            symbol_views(final(self).symbols@) == symbol_views(old(self).symbols@) + found_all(
                tree_views(outlines@),
                old(self).place(),
            ).symbols,
            final(self).place() == (Place {
                hint: found_all(tree_views(outlines@), old(self).place()).hint,
                ..old(self).place()
            }),
        decreases outlines,
    {
        let ghost views = tree_views(outlines@);
        let ghost start = self.place();
        let mut i: usize = 0;
        assert(views.take(0) =~= Seq::empty());
        while i < outlines.len()
            invariant
                i <= outlines@.len(),
                views == tree_views(outlines@),
                start == old(self).place(),
                start.depth + nesting_all(views) <= u32::MAX,
                symbol_views(self.symbols@) == symbol_views(old(self).symbols@) + found_all(
                    views.take(i as int),
                    start,
                ).symbols,
                self.place() == (Place {
                    hint: found_all(views.take(i as int), start).hint,
                    ..start
                }),
            decreases outlines@.len() - i,
        {
            proof {
                assert(views[i as int] == outlines@[i as int]@);
                assert(views.take(i + 1).drop_last() =~= views.take(i as int));
                nesting_in_all(views, i as int);
            }
            self.visit(&outlines[i]);
            i += 1;
        }
        assert(views.take(i as int) =~= views);
    }
}

/// The symbols of a file with these outlines, or an error where its functions
/// nest deeper than a depth can count.
pub open spec fn outline_result(outlines: Seq<OutlineView>) -> Result<
    Seq<SymbolView>,
    AnalyzerError,
> {
    if nesting_all(outlines) <= u32::MAX {
        Ok(file_symbols(outlines))
    } else {
        Err(AnalyzerError::Nesting)
    }
}

/// The symbols of a file with these outlines.
pub fn outline_symbols(outlines: &Vec<Outline>) -> (symbols: Result<Vec<Symbol>, AnalyzerError>)
    ensures
        symbols_result(symbols) == outline_result(tree_views(outlines@)),
{
    match nesting_depth_all(outlines) {
        Some(_) => {
            let mut walk = Walk::new();
            walk.visit_all(outlines);
            assert(symbol_views(Seq::<Symbol>::empty()) =~= Seq::empty());
            assert(symbol_views(walk.symbols@) =~= file_symbols(tree_views(outlines@)));
            Ok(walk.symbols)
        },
        None => Err(AnalyzerError::Nesting),
    }
}

/// The number of functions in `outline`.
pub open spec fn function_count(outline: OutlineView) -> nat
    decreases outline,
{
    if outline.data is Function {
        1 + function_count_all(outline.children)
    } else {
        function_count_all(outline.children)
    }
}

/// The number of functions in `outlines`.
pub open spec fn function_count_all(outlines: Seq<OutlineView>) -> nat
    decreases outlines,
{
    if outlines.len() == 0 {
        0
    } else {
        function_count_all(outlines.drop_last()) + function_count(outlines.last())
    }
}

/// The place at which the body of `outline` starts when `outline` stands at
/// `place`.
pub open spec fn inner_place(outline: OutlineView, place: Place) -> Place {
    match outline.data {
        PartView::Function { .. } => Place { hint: None, depth: place.depth + 1, ..place },
        PartView::Scope { label } => Place {
            scopes: place.scopes.push(label_name(label, place.hint)),
            hint: hint_after(label, place.hint),
            ..place
        },
        PartView::Binding { hint, .. } => Place { hint, ..place },
        PartView::Delegate => place,
    }
}

/// Every function of a file is recorded exactly once.
pub proof fn every_function_is_recorded(outlines: Seq<OutlineView>)
    ensures
        file_symbols(outlines).len() == function_count_all(outlines),
{
    recorded_all(outlines, Place { scopes: Seq::empty(), hint: None, depth: 0 });
}

proof fn recorded(outline: OutlineView, place: Place)
    ensures
        found(outline, place).symbols.len() == function_count(outline),
    decreases outline,
{
    recorded_all(outline.children, inner_place(outline, place));
}

proof fn recorded_all(outlines: Seq<OutlineView>, place: Place)
    ensures
        found_all(outlines, place).symbols.len() == function_count_all(outlines),
    decreases outlines,
{
    if outlines.len() > 0 {
        let before = found_all(outlines.drop_last(), place);
        recorded_all(outlines.drop_last(), place);
        recorded(outlines.last(), Place { hint: before.hint, ..place });
    }
}

/// A construct leaves the pending hint as it was or uses it up. It never puts
/// another in its place, so no name offered inside it reaches what follows.
pub proof fn hints_do_not_leak(outline: OutlineView, place: Place)
    ensures
        found(outline, place).hint == place.hint || found(outline, place).hint is None,
    decreases outline,
{
    if outline.data is Scope {
        hints_do_not_leak_all(outline.children, inner_place(outline, place));
    }
}

/// What [`hints_do_not_leak`] says of one construct holds of a list of them.
pub proof fn hints_do_not_leak_all(outlines: Seq<OutlineView>, place: Place)
    ensures
        found_all(outlines, place).hint == place.hint || found_all(outlines, place).hint is None,
    decreases outlines,
{
    if outlines.len() > 0 {
        let before = found_all(outlines.drop_last(), place);
        hints_do_not_leak_all(outlines.drop_last(), place);
        hints_do_not_leak(outlines.last(), Place { hint: before.hint, ..place });
    }
}

/// Whether two findings agree in everything but the qualification of the names,
/// with every depth of the second `levels` greater.
pub open spec fn same_but_names(a: Found, b: Found, levels: int) -> bool {
    &&& a.hint == b.hint
    &&& a.symbols.len() == b.symbols.len()
    &&& forall|i: int|
        0 <= i < a.symbols.len() ==> {
            &&& (#[trigger] a.symbols[i]).start_line == b.symbols[i].start_line
            &&& a.symbols[i].end_line == b.symbols[i].end_line
            &&& a.symbols[i].depth + levels == b.symbols[i].depth
        }
}

/// The scopes around a construct qualify names and add no nesting depth, and the
/// depths in it are counted from the number of functions around it: moved into
/// other scopes, `levels` functions deeper, it gives the same line ranges, each
/// `levels` deeper.
pub proof fn depth_counts_functions_only(outline: OutlineView, a: Place, b: Place, levels: nat)
    requires
        a.hint == b.hint,
        b.depth == a.depth + levels,
    ensures
        same_but_names(found(outline, a), found(outline, b), levels as int),
    decreases outline,
{
    depth_counts_functions_only_all(
        outline.children,
        inner_place(outline, a),
        inner_place(outline, b),
        levels,
    );
}

/// What [`depth_counts_functions_only`] says of one construct holds of a list of
/// them.
pub proof fn depth_counts_functions_only_all(
    outlines: Seq<OutlineView>,
    a: Place,
    b: Place,
    levels: nat,
)
    requires
        a.hint == b.hint,
        b.depth == a.depth + levels,
    ensures
        same_but_names(found_all(outlines, a), found_all(outlines, b), levels as int),
    decreases outlines,
{
    if outlines.len() > 0 {
        let x = found_all(outlines.drop_last(), a);
        let y = found_all(outlines.drop_last(), b);
        depth_counts_functions_only_all(outlines.drop_last(), a, b, levels);
        depth_counts_functions_only(
            outlines.last(),
            Place { hint: x.hint, ..a },
            Place { hint: y.hint, ..b },
            levels,
        );
    }
}

/// A function found at a place lies deeper than every function around the place,
/// and no deeper than the functions in the construct nest.
pub proof fn depth_is_bounded(outline: OutlineView, place: Place)
    ensures
        forall|i: int|
            0 <= i < found(outline, place).symbols.len() ==> place.depth + 1 <= (
            #[trigger] found(outline, place).symbols[i]).depth <= place.depth + nesting(outline),
    decreases outline,
{
    depth_is_bounded_all(outline.children, inner_place(outline, place));
}

/// What [`depth_is_bounded`] says of one construct holds of a list of them.
pub proof fn depth_is_bounded_all(outlines: Seq<OutlineView>, place: Place)
    ensures
        forall|i: int|
            0 <= i < found_all(outlines, place).symbols.len() ==> place.depth + 1 <= (
            #[trigger] found_all(outlines, place).symbols[i]).depth <= place.depth + nesting_all(
                outlines,
            ),
    decreases outlines,
{
    if outlines.len() > 0 {
        let before = found_all(outlines.drop_last(), place);
        depth_is_bounded_all(outlines.drop_last(), place);
        depth_is_bounded(outlines.last(), Place { hint: before.hint, ..place });
    }
}

/// The name of everything inside a scope starts with the names of the scopes
/// around it.
pub proof fn names_are_qualified(outline: OutlineView, place: Place)
    requires
        place.scopes.len() > 0,
    ensures
        forall|i: int|
            0 <= i < found(outline, place).symbols.len() ==> (joined(place.scopes, seq!['.'])
                + seq!['.']).is_prefix_of((#[trigger] found(outline, place).symbols[i]).name),
    decreases outline,
{
    let inner = inner_place(outline, place);
    let prefix = joined(place.scopes, seq!['.']) + seq!['.'];
    names_are_qualified_all(outline.children, inner);
    if outline.data is Scope {
        assert(inner.scopes.drop_last() =~= place.scopes);
        let longer = joined(inner.scopes, seq!['.']) + seq!['.'];
        assert(longer =~= prefix + inner.scopes.last() + seq!['.']);
        let symbols = found(outline, place).symbols;
        assert forall|i: int| 0 <= i < symbols.len() implies prefix.is_prefix_of(
            (#[trigger] symbols[i]).name,
        ) by {
            assert(longer.is_prefix_of(found_all(outline.children, inner).symbols[i].name));
            assert(prefix =~= longer.take(prefix.len() as int));
            assert(prefix =~= symbols[i].name.take(prefix.len() as int));
        }
    } else if outline.data is Function {
        let label = outline.data->Function_label;
        let name = label_name(label, place.hint);
        assert(prefix =~= (prefix + name).take(prefix.len() as int));
    }
}

/// What [`names_are_qualified`] says of one construct holds of a list of them.
pub proof fn names_are_qualified_all(outlines: Seq<OutlineView>, place: Place)
    requires
        place.scopes.len() > 0,
    ensures
        forall|i: int|
            0 <= i < found_all(outlines, place).symbols.len() ==> (joined(
                place.scopes,
                seq!['.'],
            ) + seq!['.']).is_prefix_of((#[trigger] found_all(outlines, place).symbols[i]).name),
    decreases outlines,
{
    if outlines.len() > 0 {
        let before = found_all(outlines.drop_last(), place);
        names_are_qualified_all(outlines.drop_last(), place);
        names_are_qualified(outlines.last(), Place { hint: before.hint, ..place });
    }
}

/// Whether no function in `outline` ends on a line before the one it starts on.
pub open spec fn in_order(outline: OutlineView) -> bool
    decreases outline,
{
    &&& outline.data matches PartView::Function { start_line, end_line, .. } ==> start_line
        <= end_line
    &&& forall|i: int| 0 <= i < outline.children.len() ==> in_order(#[trigger] outline.children[i])
}

/// Whether this holds of each of `outlines`.
pub open spec fn all_in_order(outlines: Seq<OutlineView>) -> bool {
    forall|i: int| 0 <= i < outlines.len() ==> in_order(#[trigger] outlines[i])
}

/// Whether no symbol ends on a line before the one it starts on.
pub open spec fn lines_in_order(symbols: Seq<SymbolView>) -> bool {
    forall|i: int|
        0 <= i < symbols.len() ==> (#[trigger] symbols[i]).start_line <= symbols[i].end_line
}

/// What is recorded of functions whose lines are in order has its lines in order.
pub proof fn recorded_in_order(outline: OutlineView, place: Place)
    requires
        in_order(outline),
    ensures
        lines_in_order(found(outline, place).symbols),
    decreases outline,
{
    recorded_all_in_order(outline.children, inner_place(outline, place));
}

/// What [`recorded_in_order`] says of one construct holds of a list of them.
pub proof fn recorded_all_in_order(outlines: Seq<OutlineView>, place: Place)
    requires
        all_in_order(outlines),
    ensures
        lines_in_order(found_all(outlines, place).symbols),
    decreases outlines,
{
    if outlines.len() > 0 {
        let before = found_all(outlines.drop_last(), place);
        let rest = outlines.drop_last();
        assert forall|i: int| 0 <= i < rest.len() implies in_order(#[trigger] rest[i]) by {
            assert(rest[i] == outlines[i]);
        }
        recorded_all_in_order(rest, place);
        assert(in_order(outlines[outlines.len() - 1]));
        recorded_in_order(outlines.last(), Place { hint: before.hint, ..place });
    }
}

} // verus!
