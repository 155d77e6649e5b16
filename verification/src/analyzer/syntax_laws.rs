//! What is found among the children of a node, by field, by kind and by place.
use vstd::prelude::*;
use vstd::utf8::{
    decode_utf8_encode_utf8, encode_utf8, encode_utf8_valid_utf8, is_char_boundary,
    is_char_boundary_iff_not_is_continuation_byte, is_char_boundary_start_end_of_seq,
    valid_utf8_split,
};

use super::addressable;
use super::tree::{
    listed_trees_are_well_nested, preorder, tree_from, well_nested, well_nested_lists_a_tree,
};
use super::treesitter::{
    CstView, SyntaxView, content_end_row, field_at, field_text, first_where_found, in_field,
    is_content, is_named, kind_at, kind_text, last_where, last_where_found, named_at, named_from,
    named_from_found, node_text, of_kind, parsed_tree, sound_node, strict_error,
};

verus! {

/// Whether the child at `i` is the first one in a field.
pub open spec fn first_in(t: CstView, field: Seq<char>, i: int) -> bool {
    &&& 0 <= i < t.children.len()
    &&& t.children[i].data.field == Some(field)
    &&& forall|j: int| 0 <= j < i ==> (#[trigger] t.children[j]).data.field != Some(field)
}

/// Whether no child is in a field.
pub open spec fn none_in(t: CstView, field: Seq<char>) -> bool {
    forall|j: int|
        0 <= j < t.children.len() ==> (#[trigger] t.children[j]).data.field != Some(field)
}

/// Whether the child at `i` is the first named one of a kind.
pub open spec fn first_kind(t: CstView, kind: Seq<char>, i: int) -> bool {
    &&& 0 <= i < t.children.len()
    &&& t.children[i].data.named
    &&& t.children[i].data.kind == kind
    &&& forall|j: int|
        0 <= j < i ==> !((#[trigger] t.children[j]).data.named && t.children[j].data.kind == kind)
}

/// Whether no named child is of a kind.
pub open spec fn no_kind(t: CstView, kind: Seq<char>) -> bool {
    forall|j: int|
        0 <= j < t.children.len() ==> !((#[trigger] t.children[j]).data.named
            && t.children[j].data.kind == kind)
}

/// Whether the child at `i` is the last named one of a kind.
pub open spec fn last_kind(t: CstView, kind: Seq<char>, i: int) -> bool {
    &&& 0 <= i < t.children.len()
    &&& t.children[i].data.named
    &&& t.children[i].data.kind == kind
    &&& forall|j: int|
        i < j < t.children.len() ==> !((#[trigger] t.children[j]).data.named
            && t.children[j].data.kind == kind)
}

/// Whether the child at `i` is the first named one at `from` or after it.
pub open spec fn first_named(t: CstView, from: int, i: int) -> bool {
    &&& 0 <= from <= i < t.children.len()
    &&& t.children[i].data.named
    &&& forall|j: int| from <= j < i ==> !(#[trigger] t.children[j]).data.named
}

/// Whether no child at `from` or after it is named.
pub open spec fn no_named(t: CstView, from: int) -> bool {
    forall|j: int| from <= j < t.children.len() ==> !(#[trigger] t.children[j]).data.named
}

/// A field is looked up as the first child in it.
pub proof fn fields_are_looked_up(t: CstView, field: Seq<char>, source: Seq<char>)
    ensures
        match field_at(t, field) {
            Some(i) => first_in(t, field, i) && field_text(t, field, source) == Some(
                node_text(t.children[i].data, source),
            ),
            None => none_in(t, field) && field_text(t, field, source) is None,
        },
        forall|i: int| #[trigger] first_in(t, field, i) ==> field_at(t, field) == Some(i),
        none_in(t, field) ==> field_at(t, field) is None,
{
    first_where_found(t.children, in_field(field));
    match field_at(t, field) {
        Some(i) => {
            assert(in_field(field)(t.children[i]));
            assert forall|j: int| 0 <= j < i implies (
            #[trigger] t.children[j]).data.field != Some(field) by {
                assert(!in_field(field)(t.children[j]));
            }
            assert(first_in(t, field, i));
            assert forall|k: int| #[trigger] first_in(t, field, k) implies k == i by {
                if k < i {
                    assert(t.children[k].data.field != Some(field));
                } else if i < k {
                    assert(t.children[i].data.field != Some(field));
                }
            }
        },
        None => {
            assert forall|j: int| 0 <= j < t.children.len() implies (
            #[trigger] t.children[j]).data.field != Some(field) by {
                assert(!in_field(field)(t.children[j]));
            }
        },
    }
}

/// A kind is looked up as the first named child of it.
pub proof fn kinds_are_looked_up(t: CstView, kind: Seq<char>, source: Seq<char>)
    ensures
        match kind_at(t, kind) {
            Some(i) => first_kind(t, kind, i) && kind_text(t, kind, source) == Some(
                node_text(t.children[i].data, source),
            ),
            None => no_kind(t, kind) && kind_text(t, kind, source) is None,
        },
        forall|i: int| #[trigger] first_kind(t, kind, i) ==> kind_at(t, kind) == Some(i),
        no_kind(t, kind) ==> kind_at(t, kind) is None,
{
    first_where_found(t.children, of_kind(kind));
    match kind_at(t, kind) {
        Some(i) => {
            assert(of_kind(kind)(t.children[i]));
            assert forall|j: int| 0 <= j < i implies !((#[trigger] t.children[j]).data.named
                && t.children[j].data.kind == kind) by {
                assert(!of_kind(kind)(t.children[j]));
            }
            assert(first_kind(t, kind, i));
            assert forall|k: int| #[trigger] first_kind(t, kind, k) implies k == i by {
                if k < i {
                    assert(!(t.children[k].data.named && t.children[k].data.kind == kind));
                } else if i < k {
                    assert(!(t.children[i].data.named && t.children[i].data.kind == kind));
                }
            }
        },
        None => {
            assert forall|j: int| 0 <= j < t.children.len() implies !((
            #[trigger] t.children[j]).data.named && t.children[j].data.kind == kind) by {
                assert(!of_kind(kind)(t.children[j]));
            }
        },
    }
}

/// The last child of a kind is looked up as such.
pub proof fn last_kind_is_looked_up(t: CstView, kind: Seq<char>)
    ensures
        forall|i: int| #[trigger]
            last_kind(t, kind, i) ==> last_where(t.children, of_kind(kind)) == Some(i),
        last_where(t.children, of_kind(kind)) matches Some(i) ==> last_kind(t, kind, i),
{
    last_where_found(t.children, of_kind(kind));
    if let Some(i) = last_where(t.children, of_kind(kind)) {
        assert(of_kind(kind)(t.children[i]));
        assert forall|j: int| i < j < t.children.len() implies !((
        #[trigger] t.children[j]).data.named && t.children[j].data.kind == kind) by {
            assert(!of_kind(kind)(t.children[j]));
        }
        assert(last_kind(t, kind, i));
    }
    assert forall|k: int| #[trigger] last_kind(t, kind, k) implies last_where(
        t.children,
        of_kind(kind),
    ) == Some(k) by {
        assert(of_kind(kind)(t.children[k]));
        if let Some(i) = last_where(t.children, of_kind(kind)) {
            if k < i {
                assert(!(t.children[i].data.named && t.children[i].data.kind == kind));
            } else if i < k {
                assert(!(t.children[k].data.named && t.children[k].data.kind == kind));
            }
        }
    }
}

/// A node ends where its content does: on the row where its last child that is no extra
/// ends in the same way, and on its own last row where there is none.
pub proof fn content_ends_with_last_content(t: CstView, i: int)
    ensures
        0 <= i < t.children.len() && !t.children[i].data.extra && (forall|j: int|
            i < j < t.children.len() ==> (#[trigger] t.children[j]).data.extra)
            ==> content_end_row(t) == content_end_row(t.children[i]),
        (forall|j: int| 0 <= j < t.children.len() ==> (#[trigger] t.children[j]).data.extra)
            ==> content_end_row(t) == t.data.end_row,
{
    last_where_found(t.children, is_content());
    if let Some(k) = last_where(t.children, is_content()) {
        assert(is_content()(t.children[k]));
        assert(!t.children[k].data.extra);
        if 0 <= i < t.children.len() && !t.children[i].data.extra && k < i {
            assert(!is_content()(t.children[i]));
        }
    } else if 0 <= i < t.children.len() {
        assert(!is_content()(t.children[i]));
    }
}

/// The text of a node is what its bytes in the source encode.
pub proof fn nodes_have_their_text(node: SyntaxView, source: Seq<char>)
    requires
        sound_node(node, source),
    ensures
        encode_utf8(node_text(node, source)) == encode_utf8(source).subrange(
            node.start_byte,
            node.end_byte,
        ),
{
    let bytes = encode_utf8(source);
    let prefix = bytes.subrange(0, node.end_byte);
    let start = node.start_byte;
    encode_utf8_valid_utf8(source);
    valid_utf8_split(bytes, node.end_byte);
    if start < prefix.len() {
        is_char_boundary_iff_not_is_continuation_byte(bytes, start);
        is_char_boundary_iff_not_is_continuation_byte(prefix, start);
    } else {
        is_char_boundary_start_end_of_seq(prefix);
    }
    valid_utf8_split(prefix, start);
    let part = prefix.subrange(start, prefix.len() as int);
    assert(part =~= bytes.subrange(start, node.end_byte));
    decode_utf8_encode_utf8(part);
}

/// A source can be addressed where its last byte has an offset of less than 32 bits of ones.
pub proof fn sources_of_32_bits_are_addressable(source: Seq<char>)
    ensures
        addressable(source) <==> encode_utf8(source).len() < 0xffff_ffff,
{
}

/// A parse is accepted where its nodes are those of a tree without a syntax error, each of
/// them on whole characters of the source, its end not before its start, on rows that can
/// be numbered. Nothing else is accepted.
pub proof fn trees_without_errors_are_accepted(
    parsed: Result<Option<Seq<(nat, SyntaxView)>>, ()>,
    source: Seq<char>,
)
    ensures
        strict_error(parsed, source) is None <==> (parsed matches Ok(Some(nodes))
            && exists|tree: CstView| #[trigger]
            preorder(tree, 0) == nodes && !tree.data.error && forall|i: int|
                0 <= i < nodes.len() ==> {
                    &&& 0 <= (#[trigger] nodes[i]).1.start_byte <= nodes[i].1.end_byte
                        <= encode_utf8(source).len()
                    &&& is_char_boundary(encode_utf8(source), nodes[i].1.start_byte)
                    &&& is_char_boundary(encode_utf8(source), nodes[i].1.end_byte)
                    &&& 0 <= nodes[i].1.start_row <= nodes[i].1.end_row < 0xffff_ffff
                }),
        strict_error(parsed, source) is None ==> (parsed matches Ok(Some(nodes)) && preorder(
            parsed_tree(parsed),
            0,
        ) == nodes),
{
    if let Ok(Some(nodes)) = parsed {
        if strict_error(parsed, source) is None {
            well_nested_lists_a_tree(nodes);
            let tree = tree_from(nodes);
            assert(preorder(tree, 0)[0] == (0nat, tree.data));
            assert forall|i: int| 0 <= i < nodes.len() implies {
                &&& 0 <= (#[trigger] nodes[i]).1.start_byte <= nodes[i].1.end_byte <= encode_utf8(
                    source,
                ).len()
                &&& is_char_boundary(encode_utf8(source), nodes[i].1.start_byte)
                &&& is_char_boundary(encode_utf8(source), nodes[i].1.end_byte)
                &&& 0 <= nodes[i].1.start_row <= nodes[i].1.end_row < 0xffff_ffff
            } by {
                assert(sound_node(nodes[i].1, source));
            }
        }
        assert forall|tree: CstView| #[trigger] preorder(tree, 0) == nodes implies well_nested(
            nodes,
        ) && nodes[0].1 == tree.data by {
            listed_trees_are_well_nested(tree);
            assert(preorder(tree, 0)[0] == (0nat, tree.data));
        }
    }
}

/// The first named child is looked up as such.
pub proof fn named_are_looked_up(t: CstView)
    ensures
        match named_at(t) {
            Some(i) => first_named(t, 0, i),
            None => no_named(t, 0),
        },
        forall|i: int| #[trigger] first_named(t, 0, i) ==> named_at(t) == Some(i),
{
    first_where_found(t.children, is_named());
    match named_at(t) {
        Some(i) => {
            assert(is_named()(t.children[i]));
            assert forall|j: int| 0 <= j < i implies !(#[trigger] t.children[j]).data.named by {
                assert(!is_named()(t.children[j]));
            }
            assert forall|k: int| #[trigger] first_named(t, 0, k) implies k == i by {
                if k < i {
                    assert(!t.children[k].data.named);
                } else if i < k {
                    assert(!t.children[i].data.named);
                }
            }
        },
        None => {
            assert forall|j: int| 0 <= j < t.children.len() implies !(
            #[trigger] t.children[j]).data.named by {
                assert(!is_named()(t.children[j]));
            }
        },
    }
}

/// The same from a place on.
pub proof fn named_are_looked_up_from(t: CstView, from: int)
    requires
        0 <= from,
    ensures
        match named_from(t, from) {
            Some(i) => first_named(t, from, i),
            None => no_named(t, from),
        },
        forall|i: int| #[trigger] first_named(t, from, i) ==> named_from(t, from) == Some(i),
    decreases t.children.len() - from,
{
    named_from_found(t, from);
    if from < t.children.len() && !t.children[from].data.named {
        named_are_looked_up_from(t, from + 1);
        assert forall|i: int| #[trigger] first_named(t, from, i) implies first_named(
            t,
            from + 1,
            i,
        ) by {
            assert(i != from);
        }
    }
}

} // verus!
