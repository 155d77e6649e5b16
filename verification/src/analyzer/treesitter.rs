//! Shared scaffolding for the tree-sitter based analyzers (Go, Kotlin, Scala):
//! the parsers, the strict parse policy, and the nodes of a syntax tree.
use vstd::prelude::*;
use vstd::utf8::{
    decode_utf8, encode_utf8, encode_utf8_decode_utf8,
    encode_utf8_valid_utf8, is_char_boundary, is_char_boundary_iff_not_is_continuation_byte,
    is_char_boundary_start_end_of_seq, valid_utf8_split,
};

use super::{AnalyzerError, addressable};
use super::outline::{Label, LabelView, Outline, OutlineView, function_outline, function_view};
use super::tree::{
    Located, SourceTree, SourceTreeView, build_tree, forest_preorder, listing, preorder,
    preorder_injective, tree_from, tree_view_parts, tree_views, well_nested,
    well_nested_lists_a_tree,
};
use crate::lists::occurrences;
use crate::text::{ascii, same_text, text_option};

verus! {

/// A syntax tree of the `tree_sitter` crate.
#[verifier::external_type_specification]
#[verifier::external_body]
pub struct ExTree(tree_sitter::Tree);

/// The error of the `tree_sitter` crate for a grammar it cannot load.
#[verifier::external_type_specification]
#[verifier::external_body]
pub struct ExLanguageError(tree_sitter::LanguageError);

/// What the analyzers read of one syntax node.
pub struct SyntaxNode {
    /// The node's type in the grammar.
    pub kind: String,
    /// The field of its parent that carries the node.
    pub field: Option<String>,
    /// Whether the node is named, as opposed to punctuation.
    pub named: bool,
    /// Whether the node is an extra, such as a comment.
    pub extra: bool,
    /// Whether the node is or contains a syntax error.
    pub error: bool,
    /// The bytes of the source it spans, the end excluded.
    pub start_byte: usize,
    pub end_byte: usize,
    /// The 0-based rows on which it starts and ends.
    pub start_row: usize,
    pub end_row: usize,
}

/// What a [`SyntaxNode`] stands for.
pub struct SyntaxView {
    pub kind: Seq<char>,
    pub field: Option<Seq<char>>,
    pub named: bool,
    pub extra: bool,
    pub error: bool,
    pub start_byte: int,
    pub end_byte: int,
    pub start_row: int,
    pub end_row: int,
}

impl View for SyntaxNode {
    type V = SyntaxView;

    open spec fn view(&self) -> SyntaxView {
        SyntaxView {
            kind: self.kind@,
            field: text_option(self.field),
            named: self.named,
            extra: self.extra,
            error: self.error,
            start_byte: self.start_byte as int,
            end_byte: self.end_byte as int,
            start_row: self.start_row as int,
            end_row: self.end_row as int,
        }
    }
}

/// The nodes of a syntax tree in preorder, each with its distance from the root.
pub uninterp spec fn tree_nodes(tree: tree_sitter::Tree) -> Seq<(nat, SyntaxView)>;

/// The nodes of the tree that the Go grammar gives for a source, `None` where
/// the parser gives no tree, an error where it cannot load the grammar.
pub uninterp spec fn go_parse(source: Seq<char>) -> Result<Option<Seq<(nat, SyntaxView)>>, ()>;

/// The same for the Kotlin grammar and a source in ASCII.
pub uninterp spec fn kotlin_parse(source: Seq<char>) -> Result<Option<Seq<(nat, SyntaxView)>>, ()>;

/// The same for the Scala grammar.
pub uninterp spec fn scala_parse(source: Seq<char>) -> Result<Option<Seq<(nat, SyntaxView)>>, ()>;

/// What a parser hands back.
pub type Parsed = Result<Option<tree_sitter::Tree>, tree_sitter::LanguageError>;

/// The nodes of what a parser hands back.
pub open spec fn parsed_nodes(parsed: Parsed) -> Result<Option<Seq<(nat, SyntaxView)>>, ()> {
    match parsed {
        Ok(Some(tree)) => Ok(Some(tree_nodes(tree))),
        Ok(None) => Ok(None),
        Err(_) => Err(()),
    }
}

/// `tree_sitter::Parser::parse` with the grammar `tree_sitter_go::LANGUAGE`: the
/// tree is a function of the source alone. The parser counts bytes in 32 bits, so
/// the source must fit in them; the same holds of the other grammars.
#[verifier::external_body]
pub(crate) fn parse_go(source: &str) -> (parsed: Parsed)
    requires
        addressable(source@),
    ensures
        parsed_nodes(parsed) == go_parse(source@),
{
    let mut parser = tree_sitter::Parser::new();
    parser.set_language(&tree_sitter_go::LANGUAGE.into())?;
    Ok(parser.parse(source, None))
}

/// How many strings may be open at once for the Kotlin grammar: its scanner keeps two
/// bytes for each in a buffer of 1024, and aborts the process where they do not fit.
pub const OPEN_STRINGS: usize = 512;

/// `tree_sitter::Parser::parse` with the grammar `tree_sitter_kotlin_sg::LANGUAGE`. A
/// string is opened by a `"` of the source, so no more of them are open than there
/// are, however the parser recovers from errors. The scanner asks `iswalpha`,
/// `iswalnum` and `iswspace` of the C library, whose answers depend on the locale for
/// characters outside of ASCII: the tree is a function of the source alone where it is
/// all ASCII, and nothing is said of it elsewhere.
#[verifier::external_body]
pub(crate) fn parse_kotlin(source: &str) -> (parsed: Parsed)
    requires
        addressable(source@),
        occurrences(source@, '"') <= OPEN_STRINGS,
    ensures
        ascii(source@) ==> parsed_nodes(parsed) == kotlin_parse(source@),
{
    let mut parser = tree_sitter::Parser::new();
    parser.set_language(&tree_sitter_kotlin_sg::LANGUAGE.into())?;
    Ok(parser.parse(source, None))
}

/// `tree_sitter::Parser::parse` with the grammar `tree_sitter_scala::LANGUAGE`:
/// the tree is a function of the source alone.
#[verifier::external_body]
pub(crate) fn parse_scala(source: &str) -> (parsed: Parsed)
    requires
        addressable(source@),
    ensures
        parsed_nodes(parsed) == scala_parse(source@),
{
    let mut parser = tree_sitter::Parser::new();
    parser.set_language(&tree_sitter_scala::LANGUAGE.into())?;
    Ok(parser.parse(source, None))
}

/// `tree_sitter::Node::descendant_count` of the root: the number of nodes of the
/// tree, the root included.
#[verifier::external_body]
fn node_count(tree: &tree_sitter::Tree) -> (count: usize)
    ensures
        count == tree_nodes(*tree).len(),
{
    tree.root_node().descendant_count()
}

/// `tree_sitter::TreeCursor::goto_descendant`: the node at an index of the
/// preorder, the root being the first, as the cursor and the node describe it.
#[verifier::external_body]
fn node_at(tree: &tree_sitter::Tree, index: usize) -> (node: Located<SyntaxNode>)
    requires
        index < tree_nodes(*tree).len(),
    ensures
        node@ == tree_nodes(*tree)[index as int],
{
    let mut cursor = tree.walk();
    cursor.goto_descendant(index);
    let node = cursor.node();
    let (kind, field) = (node.kind().to_string(), cursor.field_name().map(|f| f.to_string()));
    let (named, extra, error) = (node.is_named(), node.is_extra(), node.has_error());
    let (start_byte, end_byte) = (node.start_byte(), node.end_byte());
    let (start_row, end_row) = (node.start_position().row, node.end_position().row);
    let data = SyntaxNode {
        kind, field, named, extra, error, start_byte, end_byte, start_row, end_row,
    };
    Located { depth: cursor.depth(), data }
}

/// Whether a node spans whole characters of `source`, and its rows are in order
/// and can be numbered as lines.
pub open spec fn sound_node(node: SyntaxView, source: Seq<char>) -> bool {
    &&& 0 <= node.start_byte <= node.end_byte <= encode_utf8(source).len()
    &&& is_char_boundary(encode_utf8(source), node.start_byte)
    &&& is_char_boundary(encode_utf8(source), node.end_byte)
    &&& 0 <= node.start_row <= node.end_row < u32::MAX
}

/// Whether every node of `tree` is sound.
pub open spec fn sound_tree(tree: SourceTreeView<SyntaxView>, source: Seq<char>) -> bool
    decreases tree,
{
    &&& sound_node(tree.data, source)
    &&& forall|i: int|
        0 <= i < tree.children.len() ==> sound_tree(#[trigger] tree.children[i], source)
}

/// The text a node spans.
pub open spec fn node_text(node: SyntaxView, source: Seq<char>) -> Seq<char> {
    decode_utf8(encode_utf8(source).subrange(node.start_byte, node.end_byte))
}

/// The text that `node` spans in `source`.
pub(crate) fn text_of(node: &SyntaxNode, source: &str) -> (text: String)
    requires
        sound_node(node@, source@),
    ensures
        text@ == node_text(node@, source@),
{
    let ghost bytes = encode_utf8(source@);
    let ghost prefix = bytes.subrange(0, node.end_byte as int);
    let ghost start = node.start_byte as int;
    proof {
        encode_utf8_valid_utf8(source@);
        valid_utf8_split(bytes, node.end_byte as int);
        if start < prefix.len() {
            is_char_boundary_iff_not_is_continuation_byte(bytes, start);
            is_char_boundary_iff_not_is_continuation_byte(prefix, start);
        } else {
            is_char_boundary_start_end_of_seq(prefix);
        }
    }
    let (head, _) = source.split_at(node.end_byte);
    let (_, text) = head.split_at(node.start_byte);
    proof {
        encode_utf8_decode_utf8(text@);
        assert(prefix.subrange(start, prefix.len() as int) =~= bytes.subrange(
            start,
            node.end_byte as int,
        ));
    }
    text.to_string()
}

fn is_sound_node(node: &SyntaxNode, source: &str) -> (sound: bool)
    ensures
        sound == sound_node(node@, source@),
{
    node.start_byte <= node.end_byte && node.end_byte <= source.as_bytes().len()
        && source.is_char_boundary(node.start_byte) && source.is_char_boundary(node.end_byte)
        && node.start_row <= node.end_row && node.end_row < u32::MAX as usize
}

/// Whether a listing of nodes is that of one tree over `source`.
pub open spec fn usable(nodes: Seq<(nat, SyntaxView)>, source: Seq<char>) -> bool {
    &&& well_nested(nodes)
    &&& forall|i: int| 0 <= i < nodes.len() ==> sound_node((#[trigger] nodes[i]).1, source)
}

/// Why a parse is rejected, if it is. A parser for editors is error-tolerant and
/// nearly always gives a tree; a tree with a syntax error anywhere in it is
/// rejected rather than trusted in part.
pub open spec fn strict_error(
    parsed: Result<Option<Seq<(nat, SyntaxView)>>, ()>,
    source: Seq<char>,
) -> Option<AnalyzerError> {
    match parsed {
        Err(_) => Some(AnalyzerError::Grammar),
        Ok(None) => Some(AnalyzerError::NoTree),
        Ok(Some(nodes)) => if nodes.len() > 0 && nodes[0].1.error {
            Some(AnalyzerError::Syntax)
        } else if !usable(nodes, source) {
            Some(AnalyzerError::Malformed)
        } else {
            None
        },
    }
}

proof fn sound_listing(tree: SourceTreeView<SyntaxView>, depth: nat, source: Seq<char>)
    requires
        forall|i: int|
            0 <= i < preorder(tree, depth).len() ==> sound_node(
                (#[trigger] preorder(tree, depth)[i]).1,
                source,
            ),
    ensures
        sound_tree(tree, source),
    decreases tree,
{
    let all = preorder(tree, depth);
    let below = forest_preorder(tree.children, depth + 1);
    assert(all[0].1 == tree.data);
    assert forall|i: int| 0 <= i < below.len() implies sound_node(
        (#[trigger] below[i]).1,
        source,
    ) by {
        assert(below[i] == all[i + 1]);
    }
    sound_forest_listing(tree.children, depth + 1, source);
}

proof fn sound_forest_listing(
    trees: Seq<SourceTreeView<SyntaxView>>,
    depth: nat,
    source: Seq<char>,
)
    requires
        forall|i: int|
            0 <= i < forest_preorder(trees, depth).len() ==> sound_node(
                (#[trigger] forest_preorder(trees, depth)[i]).1,
                source,
            ),
    ensures
        forall|i: int| 0 <= i < trees.len() ==> sound_tree(#[trigger] trees[i], source),
    decreases trees,
{
    if trees.len() > 0 {
        let all = forest_preorder(trees, depth);
        let before = forest_preorder(trees.drop_last(), depth);
        let last = preorder(trees.last(), depth);
        assert forall|i: int| 0 <= i < before.len() implies sound_node(
            (#[trigger] before[i]).1,
            source,
        ) by {
            assert(before[i] == all[i]);
        }
        assert forall|i: int| 0 <= i < last.len() implies sound_node(
            (#[trigger] last[i]).1,
            source,
        ) by {
            assert(last[i] == all[before.len() + i]);
        }
        sound_forest_listing(trees.drop_last(), depth, source);
        sound_listing(trees.last(), depth, source);
        assert forall|i: int| 0 <= i < trees.len() implies sound_tree(
            #[trigger] trees[i],
            source,
        ) by {
            if i < trees.len() - 1 {
                assert(trees[i] == trees.drop_last()[i]);
            }
        }
    }
}

/// The tree whose nodes a parser gave.
pub open spec fn parsed_tree(parsed: Result<Option<Seq<(nat, SyntaxView)>>, ()>) -> SourceTreeView<
    SyntaxView,
> {
    match parsed {
        Ok(Some(nodes)) => tree_from(nodes),
        _ => arbitrary(),
    }
}

/// A parse that is not rejected gives a sound tree.
pub proof fn accepted_trees_are_sound(
    parsed: Result<Option<Seq<(nat, SyntaxView)>>, ()>,
    source: Seq<char>,
)
    requires
        strict_error(parsed, source) is None,
    ensures
        sound_tree(parsed_tree(parsed), source),
{
    let nodes = parsed->Ok_0->Some_0;
    well_nested_lists_a_tree(nodes);
    sound_listing(tree_from(nodes), 0, source);
}

/// The tree a parser gave for `source`, syntactically broken input rejected.
pub fn parse_strict(parsed: Parsed, source: &str) -> (tree: Result<
    SourceTree<SyntaxNode>,
    AnalyzerError,
>)
    ensures
        match tree {
            Ok(t) => {
                &&& strict_error(parsed_nodes(parsed), source@) is None
                &&& parsed_nodes(parsed) == Ok::<_, ()>(Some(preorder(t@, 0)))
                &&& t@ == parsed_tree(parsed_nodes(parsed))
                &&& sound_tree(t@, source@)
            },
            Err(e) => strict_error(parsed_nodes(parsed), source@) == Some(e),
        },
{
    let tree = match parsed {
        Ok(Some(tree)) => tree,
        Ok(None) => return Err(AnalyzerError::NoTree),
        Err(_) => return Err(AnalyzerError::Grammar),
    };
    let ghost nodes = tree_nodes(tree);
    let count = node_count(&tree);
    let mut records: Vec<Located<SyntaxNode>> = Vec::new();
    let mut i: usize = 0;
    while i < count
        invariant
            i <= count == nodes.len(),
            nodes == tree_nodes(tree),
            i > 0 ==> !nodes[0].1.error,
            listing(records@) == nodes.take(i as int),
            forall|j: int| 0 <= j < i ==> sound_node((#[trigger] nodes[j]).1, source@),
            parsed_nodes(parsed) == Ok::<_, ()>(Some(nodes)),
        decreases count - i,
    {
        let node = node_at(&tree, i);
        if i == 0 && node.data.error {
            return Err(AnalyzerError::Syntax);
        }
        if !is_sound_node(&node.data, source) {
            return Err(AnalyzerError::Malformed);
        }
        let ghost before = records@;
        records.push(node);
        assert(listing(records@) =~= listing(before).push(node@));
        assert(nodes.take(i + 1) =~= nodes.take(i as int).push(nodes[i as int]));
        i += 1;
    }
    assert(nodes.take(i as int) =~= nodes);
    match build_tree(records) {
        Some(built) => {
            proof {
                sound_listing(built@, 0, source@);
                preorder_injective(built@, tree_from(nodes), 0);
            }
            Ok(built)
        },
        None => Err(AnalyzerError::Malformed),
    }
}

/// A syntax tree.
pub type Cst = SourceTree<SyntaxNode>;

/// What a [`Cst`] stands for.
pub type CstView = SourceTreeView<SyntaxView>;

/// The index of the first of `trees` that is wanted.
pub open spec fn first_where(trees: Seq<CstView>, wanted: spec_fn(CstView) -> bool) -> Option<int>
    decreases trees.len(),
{
    if trees.len() == 0 {
        None
    } else {
        match first_where(trees.drop_last(), wanted) {
            Some(i) => Some(i),
            None => if wanted(trees.last()) {
                Some(trees.len() - 1)
            } else {
                None
            },
        }
    }
}

/// The index of the last of `trees` that is wanted.
pub open spec fn last_where(trees: Seq<CstView>, wanted: spec_fn(CstView) -> bool) -> Option<int>
    decreases trees.len(),
{
    if trees.len() == 0 {
        None
    } else if wanted(trees.last()) {
        Some(trees.len() - 1)
    } else {
        last_where(trees.drop_last(), wanted)
    }
}

/// What [`first_where`] finds is wanted, and nothing before it is.
pub proof fn first_where_found(trees: Seq<CstView>, wanted: spec_fn(CstView) -> bool)
    ensures
        match first_where(trees, wanted) {
            Some(i) => {
                &&& 0 <= i < trees.len()
                &&& wanted(trees[i])
                &&& forall|j: int| 0 <= j < i ==> !wanted(#[trigger] trees[j])
            },
            None => forall|j: int| 0 <= j < trees.len() ==> !wanted(#[trigger] trees[j]),
        },
    decreases trees.len(),
{
    if trees.len() > 0 {
        first_where_found(trees.drop_last(), wanted);
        assert forall|j: int| 0 <= j < trees.len() - 1 implies #[trigger] trees[j]
            == trees.drop_last()[j] by {}
    }
}

/// What [`last_where`] finds is wanted, and nothing after it is.
pub proof fn last_where_found(trees: Seq<CstView>, wanted: spec_fn(CstView) -> bool)
    ensures
        match last_where(trees, wanted) {
            Some(i) => {
                &&& 0 <= i < trees.len()
                &&& wanted(trees[i])
                &&& forall|j: int| i < j < trees.len() ==> !wanted(#[trigger] trees[j])
            },
            None => forall|j: int| 0 <= j < trees.len() ==> !wanted(#[trigger] trees[j]),
        },
    decreases trees.len(),
{
    if trees.len() > 0 {
        last_where_found(trees.drop_last(), wanted);
        assert forall|j: int| 0 <= j < trees.len() - 1 implies #[trigger] trees[j]
            == trees.drop_last()[j] by {}
    }
}

/// Whether a node is carried by `field` of its parent.
pub open spec fn in_field(field: Seq<char>) -> spec_fn(CstView) -> bool {
    |t: CstView| t.data.field == Some(field)
}

/// Whether a node is named and of the given kind.
pub open spec fn of_kind(kind: Seq<char>) -> spec_fn(CstView) -> bool {
    |t: CstView| t.data.named && t.data.kind == kind
}

/// Whether a node is named.
pub open spec fn is_named() -> spec_fn(CstView) -> bool {
    |t: CstView| t.data.named
}

/// The index of the first child in `field`.
pub open spec fn field_at(tree: CstView, field: Seq<char>) -> Option<int> {
    first_where(tree.children, in_field(field))
}

/// The index of the first named child of the given kind.
pub open spec fn kind_at(tree: CstView, kind: Seq<char>) -> Option<int> {
    first_where(tree.children, of_kind(kind))
}

/// The index of the first named child.
pub open spec fn named_at(tree: CstView) -> Option<int> {
    first_where(tree.children, is_named())
}

/// The text of the first child in `field`.
pub open spec fn field_text(tree: CstView, field: Seq<char>, source: Seq<char>) -> Option<
    Seq<char>,
> {
    match field_at(tree, field) {
        Some(i) => Some(node_text(tree.children[i].data, source)),
        None => None,
    }
}

/// The text of the first named child of the given kind.
pub open spec fn kind_text(tree: CstView, kind: Seq<char>, source: Seq<char>) -> Option<
    Seq<char>,
> {
    match kind_at(tree, kind) {
        Some(i) => Some(node_text(tree.children[i].data, source)),
        None => None,
    }
}

/// A text, or `other` where there is none.
pub open spec fn text_or(text: Option<Seq<char>>, other: Seq<char>) -> Seq<char> {
    match text {
        Some(s) => s,
        None => other,
    }
}

/// What an optional index stands for.
pub open spec fn index_option(index: Option<usize>) -> Option<int> {
    match index {
        Some(i) => Some(i as int),
        None => None,
    }
}

/// Whether `node` is of the given kind.
pub(crate) fn is_kind(node: &Cst, kind: &str) -> (is: bool)
    ensures
        is == (node@.data.kind == kind@),
{
    proof {
        tree_view_parts(*node);
    }
    same_text(node.data.kind.as_str(), kind)
}

/// The index of the first child of `node` in `field`.
pub(crate) fn field_index(node: &Cst, field: &str) -> (index: Option<usize>)
    ensures
        index_option(index) == field_at(node@, field@),
        index matches Some(i) ==> i < node.children@.len() == node@.children.len(),
{
    proof {
        tree_view_parts(*node);
    }
    let ghost views = node@.children;
    let mut i: usize = 0;
    while i < node.children.len()
        invariant
            i <= node.children@.len() == views.len(),
            views == tree_views(node.children@),
            views == node@.children,
            first_where(views.take(i as int), in_field(field@)) is None,
        decreases node.children@.len() - i,
    {
        proof {
            tree_view_parts(node.children@[i as int]);
            assert(views[i as int] == node.children@[i as int]@);
            assert(views.take(i + 1).drop_last() =~= views.take(i as int));
        }
        if let Some(name) = &node.children[i].data.field {
            if same_text(name.as_str(), field) {
                proof {
                    first_where_prefix(views, in_field(field@), i + 1);
                }
                return Some(i);
            }
        }
        i += 1;
    }
    assert(views.take(i as int) =~= views);
    None
}

/// The index of the first named child of `node` of the given kind.
pub(crate) fn kind_index(node: &Cst, kind: &str) -> (index: Option<usize>)
    ensures
        index_option(index) == kind_at(node@, kind@),
        index matches Some(i) ==> i < node.children@.len() == node@.children.len(),
{
    proof {
        tree_view_parts(*node);
    }
    let ghost views = node@.children;
    let mut i: usize = 0;
    while i < node.children.len()
        invariant
            i <= node.children@.len() == views.len(),
            views == tree_views(node.children@),
            views == node@.children,
            first_where(views.take(i as int), of_kind(kind@)) is None,
        decreases node.children@.len() - i,
    {
        proof {
            tree_view_parts(node.children@[i as int]);
            assert(views[i as int] == node.children@[i as int]@);
            assert(views.take(i + 1).drop_last() =~= views.take(i as int));
        }
        if node.children[i].data.named && is_kind(&node.children[i], kind) {
            proof {
                first_where_prefix(views, of_kind(kind@), i + 1);
            }
            return Some(i);
        }
        i += 1;
    }
    assert(views.take(i as int) =~= views);
    None
}

/// The index of the first named child of `node`.
pub(crate) fn named_index(node: &Cst) -> (index: Option<usize>)
    ensures
        index_option(index) == named_at(node@),
        index matches Some(i) ==> i < node.children@.len() == node@.children.len(),
{
    proof {
        tree_view_parts(*node);
    }
    let ghost views = node@.children;
    let mut i: usize = 0;
    while i < node.children.len()
        invariant
            i <= node.children@.len() == views.len(),
            views == tree_views(node.children@),
            views == node@.children,
            first_where(views.take(i as int), is_named()) is None,
        decreases node.children@.len() - i,
    {
        proof {
            tree_view_parts(node.children@[i as int]);
            assert(views[i as int] == node.children@[i as int]@);
            assert(views.take(i + 1).drop_last() =~= views.take(i as int));
        }
        if node.children[i].data.named {
            proof {
                first_where_prefix(views, is_named(), i + 1);
            }
            return Some(i);
        }
        i += 1;
    }
    assert(views.take(i as int) =~= views);
    None
}

/// What is found in a prefix is what is found in the whole.
proof fn first_where_prefix(trees: Seq<CstView>, wanted: spec_fn(CstView) -> bool, n: int)
    requires
        0 <= n <= trees.len(),
        first_where(trees.take(n), wanted) is Some,
    ensures
        first_where(trees, wanted) == first_where(trees.take(n), wanted),
    decreases trees.len(),
{
    if n < trees.len() {
        assert(trees.drop_last().take(n) =~= trees.take(n));
        first_where_prefix(trees.drop_last(), wanted, n);
    } else {
        assert(trees.take(n) =~= trees);
    }
}

/// A child of a sound tree is sound and stands for the child of what the tree
/// stands for.
pub(crate) proof fn sound_child(node: Cst, i: int, source: Seq<char>)
    requires
        sound_tree(node@, source),
        0 <= i < node.children@.len(),
    ensures
        node@.data == node.data@,
        node@.children == tree_views(node.children@),
        node@.children[i] == node.children@[i]@,
        sound_tree(node.children@[i]@, source),
        sound_node(node.children@[i].data@, source),
        node.children@[i]@.data == node.children@[i].data@,
{
    tree_view_parts(node);
    tree_view_parts(node.children@[i]);
    assert(node@.children[i] == node.children@[i]@);
}

/// The children of a sound tree are sound and stand for the children of what the
/// tree stands for.
pub(crate) proof fn sound_children(node: Cst, source: Seq<char>)
    requires
        sound_tree(node@, source),
    ensures
        node@.data == node.data@,
        sound_node(node.data@, source),
        node@.children == tree_views(node.children@),
        forall|i: int|
            0 <= i < node.children@.len() ==> sound_tree((#[trigger] node.children@[i])@, source)
                && node@.children[i] == node.children@[i]@,
{
    tree_view_parts(node);
    assert forall|i: int| 0 <= i < node.children@.len() implies sound_tree(
        (#[trigger] node.children@[i])@,
        source,
    ) && node@.children[i] == node.children@[i]@ by {
        sound_child(node, i, source);
    }
}

/// The text of the first child of `node` in `field`.
pub(crate) fn text_in_field(node: &Cst, field: &str, source: &str) -> (text: Option<String>)
    requires
        sound_tree(node@, source@),
    ensures
        text_option(text) == field_text(node@, field@, source@),
{
    match field_index(node, field) {
        Some(i) => {
            proof {
                sound_child(*node, i as int, source@);
            }
            Some(text_of(&node.children[i].data, source))
        },
        None => None,
    }
}

/// The text of the first named child of `node` of the given kind.
pub(crate) fn text_of_kind(node: &Cst, kind: &str, source: &str) -> (text: Option<String>)
    requires
        sound_tree(node@, source@),
    ensures
        text_option(text) == kind_text(node@, kind@, source@),
{
    match kind_index(node, kind) {
        Some(i) => {
            proof {
                sound_child(*node, i as int, source@);
            }
            Some(text_of(&node.children[i].data, source))
        },
        None => None,
    }
}

/// `text`, or `other` where there is none.
pub(crate) fn or_text(text: Option<String>, other: &str) -> (r: String)
    ensures
        r@ == text_or(text_option(text), other@),
{
    match text {
        Some(s) => s,
        None => other.to_string(),
    }
}

/// The views of a list of borrowed trees.
pub open spec fn borrowed_views(nodes: Seq<&Cst>) -> Seq<CstView> {
    nodes.map_values(|n: &Cst| n@)
}

/// The named (non-punctuation) nodes among `nodes`, in order.
pub(crate) fn named_children(nodes: &Vec<Cst>) -> (named: Vec<&Cst>)
    ensures
        borrowed_views(named@) == tree_views(nodes@).filter(is_named()),
        forall|i: int| 0 <= i < named@.len() ==> nodes@.contains(*#[trigger] named@[i]),
{
    let ghost views = tree_views(nodes@);
    let mut named: Vec<&Cst> = Vec::new();
    let mut i: usize = 0;
    assert(borrowed_views(named@) =~= views.take(0).filter(is_named())) by {
        reveal(Seq::filter);
    }
    while i < nodes.len()
        invariant
            i <= nodes@.len(),
            views == tree_views(nodes@),
            borrowed_views(named@) == views.take(i as int).filter(is_named()),
            forall|j: int| 0 <= j < named@.len() ==> nodes@.contains(*#[trigger] named@[j]),
        decreases nodes@.len() - i,
    {
        let ghost before = named@;
        proof {
            tree_view_parts(nodes@[i as int]);
            assert(views.take(i + 1) =~= views.take(i as int).push(nodes@[i as int]@));
            views.take(i as int).lemma_filter_push(nodes@[i as int]@, is_named());
        }
        if nodes[i].data.named {
            named.push(&nodes[i]);
            assert(borrowed_views(named@) =~= borrowed_views(before).push(nodes@[i as int]@));
        }
        i += 1;
    }
    assert(views.take(i as int) =~= views);
    named
}

/// The nodes among `nodes` that `field` carries, in order.
pub(crate) fn children_in_field<'a>(nodes: &'a Vec<Cst>, field: &str) -> (carried: Vec<&'a Cst>)
    ensures
        borrowed_views(carried@) == tree_views(nodes@).filter(in_field(field@)),
        forall|i: int| 0 <= i < carried@.len() ==> nodes@.contains(*#[trigger] carried@[i]),
{
    let ghost views = tree_views(nodes@);
    let mut carried: Vec<&Cst> = Vec::new();
    let mut i: usize = 0;
    assert(borrowed_views(carried@) =~= views.take(0).filter(in_field(field@))) by {
        reveal(Seq::filter);
    }
    while i < nodes.len()
        invariant
            i <= nodes@.len(),
            views == tree_views(nodes@),
            borrowed_views(carried@) == views.take(i as int).filter(in_field(field@)),
            forall|j: int| 0 <= j < carried@.len() ==> nodes@.contains(*#[trigger] carried@[j]),
        decreases nodes@.len() - i,
    {
        let ghost before = carried@;
        proof {
            tree_view_parts(nodes@[i as int]);
            assert(views.take(i + 1) =~= views.take(i as int).push(nodes@[i as int]@));
            views.take(i as int).lemma_filter_push(nodes@[i as int]@, in_field(field@));
        }
        if let Some(name) = &nodes[i].data.field {
            if same_text(name.as_str(), field) {
                carried.push(&nodes[i]);
                assert(borrowed_views(carried@) =~= borrowed_views(before).push(
                    nodes@[i as int]@,
                ));
            }
        }
        i += 1;
    }
    assert(views.take(i as int) =~= views);
    carried
}

/// Whether a node is no extra.
pub open spec fn is_content() -> spec_fn(CstView) -> bool {
    |t: CstView| !t.data.extra
}

/// The 0-based row of a tree's last own token, trailing extras skipped: the end
/// of its deepest last non-extra descendant. Trailing comments and blank lines
/// absorbed by a node without a closing brace are not part of its definition.
pub open spec fn content_end_row(t: CstView) -> int
    decreases t,
{
    proof {
        last_where_found(t.children, is_content());
    }
    match last_where(t.children, is_content()) {
        Some(i) => content_end_row(t.children[i]),
        None => t.data.end_row,
    }
}

/// A function node with the given label: it spans the lines from its first row
/// to the row of its last own token.
pub open spec fn content_function(
    label: LabelView,
    t: CstView,
    body: Seq<OutlineView>,
) -> OutlineView {
    let start = t.data.start_row + 1;
    let end = content_end_row(t) + 1;
    function_view(
        label,
        start,
        if end < start {
            start
        } else {
            end
        },
        body,
    )
}

/// The row of the last own token of `node`.
fn content_end(node: &Cst, source: &str) -> (row: usize)
    requires
        sound_tree(node@, source@),
    ensures
        row == content_end_row(node@),
        row < u32::MAX,
    decreases node,
{
    proof {
        sound_children(*node, source@);
    }
    let ghost views = node@.children;
    let mut i: usize = node.children.len();
    assert(views.take(i as int) =~= views);
    while i > 0
        invariant
            i <= node.children@.len() == views.len(),
            views == node@.children,
            views == tree_views(node.children@),
            last_where(views, is_content()) == last_where(views.take(i as int), is_content()),
            sound_tree(node@, source@),
            forall|i: int|
                0 <= i < node.children@.len() ==> sound_tree(
                    (#[trigger] node.children@[i])@,
                    source@,
                ) && views[i] == node.children@[i]@,
        decreases i,
    {
        proof {
            tree_view_parts(node.children@[i - 1]);
            assert(views.take(i as int).drop_last() =~= views.take(i - 1));
            assert(views.take(i as int).last() == node.children@[i - 1]@);
        }
        if !node.children[i - 1].data.extra {
            return content_end(&node.children[i - 1], source);
        }
        i -= 1;
    }
    node.data.end_row
}

/// A function node with the given label and body.
pub(crate) fn content_function_of(
    label: Label,
    node: &Cst,
    body: Vec<Outline>,
    source: &str,
) -> (outline: Outline)
    requires
        sound_tree(node@, source@),
    ensures
        outline@ == content_function(label@, node@, tree_views(body@)),
{
    proof {
        sound_children(*node, source@);
    }
    let start_line = node.data.start_row as u32 + 1;
    let end_line = content_end(node, source) as u32 + 1;
    function_outline(
        label,
        start_line,
        if end_line < start_line {
            start_line
        } else {
            end_line
        },
        body,
    )
}

/// The index of the first named child at `from` or after it.
pub open spec fn named_from(t: CstView, from: int) -> Option<int>
    decreases t.children.len() - from,
{
    if from < 0 || from >= t.children.len() {
        None
    } else if t.children[from].data.named {
        Some(from)
    } else {
        named_from(t, from + 1)
    }
}

/// What [`named_from`] finds is a named child at `from` or after it.
pub proof fn named_from_found(t: CstView, from: int)
    ensures
        named_from(t, from) matches Some(i) ==> from <= i < t.children.len() && 0 <= i
            && t.children[i].data.named,
    decreases t.children.len() - from,
{
    if 0 <= from < t.children.len() && !t.children[from].data.named {
        named_from_found(t, from + 1);
    }
}

/// The index of the first named child of `node` at `from` or after it.
pub(crate) fn next_named(node: &Cst, from: usize) -> (index: Option<usize>)
    ensures
        index_option(index) == named_from(node@, from as int),
        index matches Some(i) ==> from <= i < node.children@.len() == node@.children.len()
            <= usize::MAX,
{
    proof {
        tree_view_parts(*node);
    }
    let mut i: usize = from;
    while i < node.children.len()
        invariant
            from <= i,
            node@.children == tree_views(node.children@),
            named_from(node@, from as int) == named_from(node@, i as int),
        decreases node.children@.len() - i,
    {
        proof {
            tree_view_parts(node.children@[i as int]);
            assert(node@.children[i as int] == node.children@[i as int]@);
        }
        if node.children[i].data.named {
            return Some(i);
        }
        i += 1;
    }
    None
}

/// What an optional borrowed tree stands for.
pub open spec fn parent_view(parent: Option<&Cst>) -> Option<CstView> {
    match parent {
        Some(p) => Some(p@),
        None => None,
    }
}

/// The index of the last named child of `node` of the given kind.
pub(crate) fn last_of_kind(node: &Cst, kind: &str) -> (index: Option<usize>)
    ensures
        index_option(index) == last_where(node@.children, of_kind(kind@)),
        index matches Some(i) ==> i < node.children@.len() == node@.children.len(),
{
    proof {
        tree_view_parts(*node);
    }
    let ghost views = node@.children;
    let mut i: usize = node.children.len();
    assert(views.take(i as int) =~= views);
    while i > 0
        invariant
            i <= node.children@.len() == views.len(),
            views == tree_views(node.children@),
            views == node@.children,
            last_where(views, of_kind(kind@)) == last_where(views.take(i as int), of_kind(kind@)),
        decreases i,
    {
        proof {
            tree_view_parts(node.children@[i - 1]);
            assert(views.take(i as int).drop_last() =~= views.take(i - 1));
            assert(views.take(i as int).last() == node.children@[i - 1]@);
        }
        if node.children[i - 1].data.named && is_kind(&node.children[i - 1], kind) {
            return Some(i - 1);
        }
        i -= 1;
    }
    None
}

/// The index of the last named child of `node`.
pub(crate) fn last_named(node: &Cst) -> (index: Option<usize>)
    ensures
        index_option(index) == last_where(node@.children, is_named()),
        index matches Some(i) ==> i < node.children@.len() == node@.children.len(),
{
    proof {
        tree_view_parts(*node);
    }
    let ghost views = node@.children;
    let mut i: usize = node.children.len();
    assert(views.take(i as int) =~= views);
    while i > 0
        invariant
            i <= node.children@.len() == views.len(),
            views == tree_views(node.children@),
            views == node@.children,
            last_where(views, is_named()) == last_where(views.take(i as int), is_named()),
        decreases i,
    {
        proof {
            tree_view_parts(node.children@[i - 1]);
            assert(views.take(i as int).drop_last() =~= views.take(i - 1));
            assert(views.take(i as int).last() == node.children@[i - 1]@);
        }
        if node.children[i - 1].data.named {
            return Some(i - 1);
        }
        i -= 1;
    }
    None
}

} // verus!
