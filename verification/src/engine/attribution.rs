//! Which functions a change is credited to.
use vstd::hash_map::StringHashMap;
use vstd::prelude::*;

use super::Attribution;
use crate::analyzer::{Symbol, SymbolView, symbol_views};
use crate::sorting::{Ordered, sorted, views};

verus! {

/// Whether a symbol nests no deeper than is reported.
pub open spec fn within(symbol: SymbolView, max_depth: Option<u32>) -> bool {
    max_depth matches Some(max) ==> symbol.depth <= max
}

/// Whether a symbol that may be reported covers a line.
pub open spec fn eligible(symbol: SymbolView, line: int, max_depth: Option<u32>) -> bool {
    within(symbol, max_depth) && symbol.covers(line)
}

/// Whether `a` says less about a line than `b`: it nests less deep, or as deep
/// with a larger span.
pub open spec fn less_specific(a: SymbolView, b: SymbolView) -> bool {
    ||| a.depth < b.depth
    ||| a.depth == b.depth && a.end_line - a.start_line > b.end_line - b.start_line
}

/// The index of the deepest symbol whose span covers `line`. Ties on depth are
/// broken by the smaller span, i.e. the more specific function, and then by the
/// later place.
pub open spec fn innermost(symbols: Seq<SymbolView>, line: int, max_depth: Option<u32>) -> Option<
    int,
>
    decreases symbols.len(),
{
    if symbols.len() == 0 {
        None
    } else {
        let before = innermost(symbols.drop_last(), line, max_depth);
        let last = symbols.last();
        if !eligible(last, line, max_depth) {
            before
        } else {
            match before {
                Some(i) => if less_specific(last, symbols[i]) {
                    Some(i)
                } else {
                    Some(symbols.len() - 1)
                },
                None => Some(symbols.len() - 1),
            }
        }
    }
}

/// The symbol that [`innermost`] finds.
pub open spec fn innermost_symbol(
    symbols: Seq<SymbolView>,
    line: int,
    max_depth: Option<u32>,
) -> Option<SymbolView> {
    match innermost(symbols, line, max_depth) {
        Some(i) => Some(symbols[i]),
        None => None,
    }
}

/// What [`innermost`] finds covers the line and may be reported, nothing of that
/// kind is more specific, and nothing after it is as specific. It finds nothing
/// only where there is nothing of that kind.
pub proof fn innermost_is_most_specific(
    symbols: Seq<SymbolView>,
    line: int,
    max_depth: Option<u32>,
)
    ensures
        match innermost(symbols, line, max_depth) {
            Some(i) => {
                &&& 0 <= i < symbols.len()
                &&& eligible(symbols[i], line, max_depth)
                &&& forall|j: int|
                    0 <= j < symbols.len() && eligible(#[trigger] symbols[j], line, max_depth)
                        ==> !less_specific(symbols[i], symbols[j])
                &&& forall|j: int|
                    i < j < symbols.len() && eligible(#[trigger] symbols[j], line, max_depth)
                        ==> less_specific(symbols[j], symbols[i])
            },
            None => forall|j: int|
                0 <= j < symbols.len() ==> !eligible(#[trigger] symbols[j], line, max_depth),
        },
    decreases symbols.len(),
{
    if symbols.len() > 0 {
        let before = symbols.drop_last();
        innermost_is_most_specific(before, line, max_depth);
        assert forall|j: int| 0 <= j < before.len() implies #[trigger] symbols[j] == before[j] by {}
    }
}

/// A limit on the depth clamps credit to the deepest symbol that is kept: it is
/// as if the deeper ones were not there.
pub proof fn depth_limit_clamps(symbols: Seq<SymbolView>, line: int, max: u32)
    ensures
        innermost_symbol(symbols, line, Some(max)) == innermost_symbol(
            symbols.filter(|s: SymbolView| s.depth <= max),
            line,
            None,
        ),
    decreases symbols.len(),
{
    let kept = |s: SymbolView| s.depth <= max;
    reveal(Seq::filter);
    if symbols.len() > 0 {
        let before = symbols.drop_last();
        let rest = before.filter(kept);
        depth_limit_clamps(before, line, max);
        innermost_is_most_specific(before, line, Some(max));
        innermost_is_most_specific(rest, line, None);
        if kept(symbols.last()) {
            assert(symbols.filter(kept) =~= rest.push(symbols.last()));
            assert(rest.push(symbols.last()).drop_last() =~= rest);
        } else {
            assert(symbols.filter(kept) =~= rest);
        }
    }
}

/// Whether a symbol covers one of `lines`.
pub open spec fn covers_any(symbol: SymbolView, lines: Seq<u32>) -> bool {
    exists|i: int| 0 <= i < lines.len() && symbol.covers(#[trigger] lines[i] as int)
}

/// Every enclosing function of a changed line that may be reported.
pub open spec fn inclusive_credits(
    symbols: Seq<SymbolView>,
    lines: Seq<u32>,
    max_depth: Option<u32>,
) -> Seq<SymbolView>
    decreases symbols.len(),
{
    if symbols.len() == 0 {
        Seq::empty()
    } else {
        let before = inclusive_credits(symbols.drop_last(), lines, max_depth);
        if within(symbols.last(), max_depth) && covers_any(symbols.last(), lines) {
            before.push(symbols.last())
        } else {
            before
        }
    }
}

/// The single deepest enclosing function of each changed line, line by line.
pub open spec fn innermost_credits(
    symbols: Seq<SymbolView>,
    lines: Seq<u32>,
    max_depth: Option<u32>,
) -> Seq<SymbolView>
    decreases lines.len(),
{
    if lines.len() == 0 {
        Seq::empty()
    } else {
        let before = innermost_credits(symbols, lines.drop_last(), max_depth);
        match innermost_symbol(symbols, lines.last() as int, max_depth) {
            Some(symbol) => before.push(symbol),
            None => before,
        }
    }
}

/// Whether a list holds a symbol of the given name.
pub open spec fn has_name(list: Seq<SymbolView>, name: Seq<char>) -> bool {
    exists|i: int| 0 <= i < list.len() && (#[trigger] list[i]).name == name
}

/// A list with only the first symbol of each name kept.
pub open spec fn first_by_name(list: Seq<SymbolView>) -> Seq<SymbolView>
    decreases list.len(),
{
    if list.len() == 0 {
        Seq::empty()
    } else {
        let before = first_by_name(list.drop_last());
        if has_name(before, list.last().name) {
            before
        } else {
            before.push(list.last())
        }
    }
}

/// The symbols of a file that a change to `lines` is credited to, each name at
/// most once. With distinct same-named functions the first to be credited stands
/// for all, the lines of innermost credit being taken in ascending order.
pub open spec fn credits(
    symbols: Seq<SymbolView>,
    lines: Seq<u32>,
    max_depth: Option<u32>,
    attribution: Attribution,
) -> Seq<SymbolView> {
    match attribution {
        Attribution::Inclusive => first_by_name(inclusive_credits(symbols, lines, max_depth)),
        Attribution::Innermost => first_by_name(
            innermost_credits(symbols, lines.sort_by(u32::order()), max_depth),
        ),
    }
}

/// A symbol counts at most once per commit: no two credits of one change to a
/// file have the same name.
pub proof fn credited_once(
    symbols: Seq<SymbolView>,
    lines: Seq<u32>,
    max_depth: Option<u32>,
    attribution: Attribution,
)
    ensures
        ({
            let list = credits(symbols, lines, max_depth, attribution);
            forall|i: int, j: int|
                0 <= i < j < list.len() ==> (#[trigger] list[i]).name != (#[trigger] list[j]).name
        }),
{
    match attribution {
        Attribution::Inclusive => {
            names_differ(inclusive_credits(symbols, lines, max_depth));
        },
        Attribution::Innermost => {
            names_differ(innermost_credits(symbols, lines.sort_by(u32::order()), max_depth));
        },
    }
}

proof fn names_differ(list: Seq<SymbolView>)
    ensures
        forall|i: int, j: int|
            0 <= i < j < first_by_name(list).len() ==> (#[trigger] first_by_name(list)[i]).name != (
            #[trigger] first_by_name(list)[j]).name,
        forall|name: Seq<char>| has_name(first_by_name(list), name) <==> has_name(list, name),
        forall|i: int|
            0 <= i < first_by_name(list).len() ==> list.contains(#[trigger] first_by_name(list)[i]),
    decreases list.len(),
{
    if list.len() > 0 {
        let before = list.drop_last();
        let kept = first_by_name(before);
        names_differ(before);
        assert(list =~= before.push(list.last()));
        assert forall|name: Seq<char>| has_name(first_by_name(list), name) <==> has_name(
            list,
            name,
        ) by {
            assert(has_name(kept, name) <==> has_name(before, name));
            name_after_push(before, list.last(), name);
            name_after_push(kept, list.last(), name);
        }
        assert forall|i: int| 0 <= i < first_by_name(list).len() implies list.contains(
            #[trigger] first_by_name(list)[i],
        ) by {
            if i < kept.len() {
                let k = before.index_of(kept[i]);
                assert(list[k] == kept[i]);
            } else {
                assert(list[list.len() - 1] == list.last());
            }
        }
        assert forall|i: int, j: int| 0 <= i < j < first_by_name(list).len() implies (
        #[trigger] first_by_name(list)[i]).name != (#[trigger] first_by_name(list)[j]).name by {
            if j == kept.len() {
                assert(!has_name(kept, list.last().name));
                assert(kept[i] == first_by_name(list)[i]);
            } else {
                assert(kept[i].name != kept[j].name);
            }
        }
    }
}

proof fn name_after_push(list: Seq<SymbolView>, symbol: SymbolView, name: Seq<char>)
    ensures
        has_name(list.push(symbol), name) <==> has_name(list, name) || symbol.name == name,
{
    let more = list.push(symbol);
    if has_name(list, name) {
        let i = choose|i: int| 0 <= i < list.len() && (#[trigger] list[i]).name == name;
        assert(more[i].name == name);
    }
    assert(more[list.len() as int] == symbol);
    if has_name(more, name) && symbol.name != name {
        let i = choose|i: int| 0 <= i < more.len() && (#[trigger] more[i]).name == name;
        assert(list[i].name == name);
    }
}

/// What the innermost attribution credits, the inclusive one credits too: rolling
/// changes up adds ancestors and drops nobody.
pub proof fn inclusive_credits_more(
    symbols: Seq<SymbolView>,
    lines: Seq<u32>,
    max_depth: Option<u32>,
    name: Seq<char>,
)
    requires
        has_name(credits(symbols, lines, max_depth, Attribution::Innermost), name),
    ensures
        has_name(credits(symbols, lines, max_depth, Attribution::Inclusive), name),
{
    let ascending = lines.sort_by(u32::order());
    let deepest = innermost_credits(symbols, ascending, max_depth);
    let all = inclusive_credits(symbols, lines, max_depth);
    names_differ(deepest);
    names_differ(all);
    assert(has_name(deepest, name));
    let k = choose|k: int| 0 <= k < deepest.len() && (#[trigger] deepest[k]).name == name;
    innermost_credit_covers(symbols, ascending, max_depth, k);
    let (i, j) = choose|i: int, j: int|
        0 <= i < symbols.len() && 0 <= j < ascending.len() && deepest[k] == #[trigger] symbols[i]
            && eligible(symbols[i], #[trigger] ascending[j] as int, max_depth);
    u32::ordered();
    lines.lemma_sort_by_ensures(u32::order());
    assert(ascending.contains(ascending[j]));
    assert(lines.contains(ascending[j]));
    let l = lines.index_of(ascending[j]);
    assert(symbols[i].covers(lines[l] as int));
    inclusive_credit_held(symbols, lines, max_depth, i);
    let m = choose|m: int| 0 <= m < all.len() && #[trigger] all[m] == symbols[i];
    assert(all[m].name == name);
    assert(has_name(all, name));
    assert(has_name(first_by_name(all), name));
}

proof fn innermost_credit_covers(
    symbols: Seq<SymbolView>,
    lines: Seq<u32>,
    max_depth: Option<u32>,
    k: int,
)
    requires
        0 <= k < innermost_credits(symbols, lines, max_depth).len(),
    ensures
        exists|i: int, j: int|
            0 <= i < symbols.len() && 0 <= j < lines.len() && innermost_credits(
                symbols,
                lines,
                max_depth,
            )[k] == #[trigger] symbols[i] && eligible(
                symbols[i],
                #[trigger] lines[j] as int,
                max_depth,
            ),
    decreases lines.len(),
{
    let list = innermost_credits(symbols, lines, max_depth);
    if lines.len() > 0 {
        let rest = lines.drop_last();
        let before = innermost_credits(symbols, rest, max_depth);
        if k < before.len() {
            innermost_credit_covers(symbols, rest, max_depth, k);
            let (i, j) = choose|i: int, j: int|
                0 <= i < symbols.len() && 0 <= j < rest.len() && before[k] == #[trigger] symbols[i]
                    && eligible(symbols[i], #[trigger] rest[j] as int, max_depth);
            assert(lines[j] == rest[j]);
            assert(list[k] == symbols[i]);
            assert(eligible(symbols[i], lines[j] as int, max_depth));
        } else {
            innermost_is_most_specific(symbols, lines.last() as int, max_depth);
            let i = innermost(symbols, lines.last() as int, max_depth)->0;
            assert(list[k] == symbols[i]);
            assert(eligible(symbols[i], lines[lines.len() - 1] as int, max_depth));
        }
    }
}

proof fn inclusive_credit_held(
    symbols: Seq<SymbolView>,
    lines: Seq<u32>,
    max_depth: Option<u32>,
    i: int,
)
    requires
        0 <= i < symbols.len(),
        within(symbols[i], max_depth),
        covers_any(symbols[i], lines),
    ensures
        exists|m: int|
            0 <= m < inclusive_credits(symbols, lines, max_depth).len()
                && #[trigger] inclusive_credits(symbols, lines, max_depth)[m] == symbols[i],
    decreases symbols.len(),
{
    let list = inclusive_credits(symbols, lines, max_depth);
    if i == symbols.len() - 1 {
        assert(list[list.len() - 1] == symbols[i]);
    } else {
        let rest = symbols.drop_last();
        let before = inclusive_credits(rest, lines, max_depth);
        inclusive_credit_held(rest, lines, max_depth, i);
        let m = choose|m: int| 0 <= m < before.len() && #[trigger] before[m] == rest[i];
        assert(list[m] == symbols[i]);
    }
}

/// Whether the symbol at `j` is one that is reported, around a line.
pub open spec fn around(
    symbols: Seq<SymbolView>,
    j: int,
    line: int,
    max_depth: Option<u32>,
) -> bool {
    &&& 0 <= j < symbols.len()
    &&& symbols[j].start_line <= line <= symbols[j].end_line
    &&& max_depth matches Some(max) ==> symbols[j].depth <= max
}

/// Whether the symbol at `k` owns a line: it is around the line, and every other one
/// that is nests less deep, or as deep over more lines, or as deep over as many lines at
/// an earlier place.
pub open spec fn owns(
    symbols: Seq<SymbolView>,
    k: int,
    line: int,
    max_depth: Option<u32>,
) -> bool {
    &&& around(symbols, k, line, max_depth)
    &&& forall|j: int|
        j != k && #[trigger] around(symbols, j, line, max_depth) ==> {
            let lines_j = symbols[j].end_line - symbols[j].start_line;
            let lines_k = symbols[k].end_line - symbols[k].start_line;
            ||| symbols[j].depth < symbols[k].depth
            ||| symbols[j].depth == symbols[k].depth && lines_j > lines_k
            ||| symbols[j].depth == symbols[k].depth && lines_j == lines_k && j < k
        }
}

/// A line has the owner that [`innermost_symbol`] gives, and nothing is around it where
/// none is given.
pub proof fn innermost_symbol_owns(symbols: Seq<SymbolView>, line: int, max_depth: Option<u32>)
    ensures
        match innermost_symbol(symbols, line, max_depth) {
            Some(symbol) => exists|k: int| #[trigger]
                owns(symbols, k, line, max_depth) && symbols[k] == symbol,
            None => forall|j: int| !#[trigger] around(symbols, j, line, max_depth),
        },
        forall|k: int| #[trigger]
            owns(symbols, k, line, max_depth) ==> innermost_symbol(symbols, line, max_depth)
                == Some(symbols[k]),
{
    innermost_is_most_specific(symbols, line, max_depth);
    assert forall|j: int| #[trigger] around(symbols, j, line, max_depth) implies eligible(
        symbols[j],
        line,
        max_depth,
    ) by {}
    match innermost(symbols, line, max_depth) {
        Some(i) => {
            assert(around(symbols, i, line, max_depth));
            assert(owns(symbols, i, line, max_depth));
            assert forall|k: int| #[trigger] owns(symbols, k, line, max_depth) implies i == k by {
                if k != i {
                    assert(around(symbols, k, line, max_depth));
                }
            }
        },
        None => {
            assert forall|k: int| !#[trigger] owns(symbols, k, line, max_depth) by {
                assert(around(symbols, k, line, max_depth) ==> eligible(
                    symbols[k],
                    line,
                    max_depth,
                ));
            }
        },
    }
}

/// Every changed line that a reported function is around has an owner, and innermost
/// credit goes to it.
pub proof fn innermost_credits_owners(
    symbols: Seq<SymbolView>,
    lines: Seq<u32>,
    max_depth: Option<u32>,
    i: int,
    j: int,
)
    requires
        0 <= i < lines.len(),
        around(symbols, j, lines[i] as int, max_depth),
    ensures
        exists|k: int, m: int|
            owns(symbols, k, lines[i] as int, max_depth) && 0 <= m < credits(
                symbols,
                lines,
                max_depth,
                Attribution::Innermost,
            ).len() && (#[trigger] credits(
                symbols,
                lines,
                max_depth,
                Attribution::Innermost,
            )[m]).name == (#[trigger] symbols[k]).name,
{
    innermost_symbol_owns(symbols, lines[i] as int, max_depth);
    let k = choose|k: int| #[trigger]
        owns(symbols, k, lines[i] as int, max_depth) && symbols[k] == innermost_symbol(
            symbols,
            lines[i] as int,
            max_depth,
        )->0;
    let m = owner_is_credited(symbols, lines, max_depth, i, k);
    assert(credits(symbols, lines, max_depth, Attribution::Innermost)[m].name == symbols[k].name);
}

/// Innermost credit goes to owners of changed lines alone: what is credited owns a
/// changed line, the least of those that functions of its name own.
pub proof fn innermost_credits_only_owners(
    symbols: Seq<SymbolView>,
    lines: Seq<u32>,
    max_depth: Option<u32>,
    m: int,
)
    requires
        0 <= m < credits(symbols, lines, max_depth, Attribution::Innermost).len(),
    ensures
        exists|i: int, k: int|
            0 <= i < lines.len() && #[trigger] owns(symbols, k, lines[i] as int, max_depth)
                && symbols[k] == credits(symbols, lines, max_depth, Attribution::Innermost)[m]
                && forall|j: int, l: int|
                0 <= j < lines.len() && #[trigger] owns(symbols, l, lines[j] as int, max_depth)
                    && symbols[l].name == symbols[k].name ==> lines[i] <= lines[j],
{
    let ascending = lines.sort_by(u32::order());
    let all = innermost_credits(symbols, ascending, max_depth);
    u32::ordered();
    lines.lemma_sort_by_ensures(u32::order());
    let at = credited_lines(symbols, ascending, max_depth);
    let p = first_kept(all, m);
    let line = ascending[at[p]];
    assert(ascending.contains(line));
    assert(lines.contains(line));
    let i = lines.index_of(line);
    innermost_symbol_owns(symbols, line as int, max_depth);
    let k = choose|k: int| #[trigger]
        owns(symbols, k, line as int, max_depth) && symbols[k] == all[p];
    assert forall|j: int, l: int|
        0 <= j < lines.len() && #[trigger] owns(symbols, l, lines[j] as int, max_depth)
            && symbols[l].name == symbols[k].name implies lines[i] <= lines[j] by {
        let b = ascending_place(lines, j);
        innermost_symbol_owns(symbols, lines[j] as int, max_depth);
        assert(innermost_symbol(symbols, ascending[b] as int, max_depth) == Some(symbols[l]));
        let q = choose|q: int| 0 <= q < at.len() && #[trigger] at[q] == b;
        assert(all[q].name == symbols[k].name);
        if q > p {
            assert(at[p] < at[q]);
            assert(u32::order()(ascending[at[p]], ascending[at[q]]));
        }
    }
    assert(owns(symbols, k, lines[i] as int, max_depth));
}

/// Where the owner of a changed line stands among the innermost credits, or another
/// function of its name.
pub(crate) proof fn owner_is_credited(
    symbols: Seq<SymbolView>,
    lines: Seq<u32>,
    max_depth: Option<u32>,
    i: int,
    k: int,
) -> (m: int)
    requires
        0 <= i < lines.len(),
        owns(symbols, k, lines[i] as int, max_depth),
    ensures
        0 <= m < credits(symbols, lines, max_depth, Attribution::Innermost).len(),
        credits(symbols, lines, max_depth, Attribution::Innermost)[m].name == symbols[k].name,
{
    let ascending = lines.sort_by(u32::order());
    let all = innermost_credits(symbols, ascending, max_depth);
    let list = credits(symbols, lines, max_depth, Attribution::Innermost);
    let at = credited_lines(symbols, ascending, max_depth);
    let a = ascending_place(lines, i);
    names_differ(all);
    innermost_symbol_owns(symbols, lines[i] as int, max_depth);
    assert(innermost_symbol(symbols, ascending[a] as int, max_depth) == Some(symbols[k]));
    let p = choose|p: int| 0 <= p < at.len() && #[trigger] at[p] == a;
    assert(all[p].name == symbols[k].name);
    assert(has_name(all, symbols[k].name));
    assert(has_name(list, symbols[k].name));
    choose|m: int| 0 <= m < list.len() && (#[trigger] list[m]).name == symbols[k].name
}

/// Where a line stands among the lines in ascending order.
proof fn ascending_place(lines: Seq<u32>, i: int) -> (a: int)
    requires
        0 <= i < lines.len(),
    ensures
        0 <= a < lines.sort_by(u32::order()).len(),
        lines.sort_by(u32::order())[a] == lines[i],
{
    let ascending = lines.sort_by(u32::order());
    u32::ordered();
    lines.lemma_sort_by_ensures(u32::order());
    lines.to_multiset_ensures();
    ascending.to_multiset_ensures();
    assert(lines.contains(lines[i]));
    assert(lines.to_multiset().count(lines[i]) > 0);
    assert(ascending.to_multiset().count(lines[i]) > 0);
    assert(ascending.contains(lines[i]));
    ascending.index_of(lines[i])
}

/// The lines that give the innermost credits, one by one.
proof fn credited_lines(
    symbols: Seq<SymbolView>,
    lines: Seq<u32>,
    max_depth: Option<u32>,
) -> (at: Seq<int>)
    ensures
        at.len() == innermost_credits(symbols, lines, max_depth).len(),
        forall|p: int|
            0 <= p < at.len() ==> 0 <= #[trigger] at[p] < lines.len() && innermost_symbol(
                symbols,
                lines[at[p]] as int,
                max_depth,
            ) == Some(innermost_credits(symbols, lines, max_depth)[p]),
        forall|p: int, q: int| 0 <= p < q < at.len() ==> #[trigger] at[p] < #[trigger] at[q],
        forall|j: int|
            0 <= j < lines.len() && innermost_symbol(
                symbols,
                #[trigger] lines[j] as int,
                max_depth,
            ) is Some ==> exists|p: int| 0 <= p < at.len() && #[trigger] at[p] == j,
    decreases lines.len(),
{
    if lines.len() == 0 {
        Seq::empty()
    } else {
        let rest = lines.drop_last();
        let before = credited_lines(symbols, rest, max_depth);
        let last = lines.len() - 1;
        let found = innermost_symbol(symbols, lines.last() as int, max_depth);
        let at = if found is Some {
            before.push(last)
        } else {
            before
        };
        assert forall|j: int|
            0 <= j < lines.len() && innermost_symbol(
                symbols,
                #[trigger] lines[j] as int,
                max_depth,
            ) is Some implies exists|p: int| 0 <= p < at.len() && #[trigger] at[p] == j by {
            if j < last {
                assert(rest[j] == lines[j]);
                let p = choose|p: int| 0 <= p < before.len() && #[trigger] before[p] == j;
                assert(at[p] == j);
            } else {
                assert(at[before.len() as int] == j);
            }
        }
        assert forall|p: int| 0 <= p < at.len() implies 0 <= #[trigger] at[p] < lines.len()
            && innermost_symbol(symbols, lines[at[p]] as int, max_depth) == Some(
            innermost_credits(symbols, lines, max_depth)[p],
        ) by {
            if p < before.len() {
                assert(before[p] == at[p]);
                assert(rest[at[p]] == lines[at[p]]);
            }
        }
        at
    }
}

/// Where a symbol of [`first_by_name`] comes from: the first place of its name.
proof fn first_kept(list: Seq<SymbolView>, m: int) -> (p: int)
    requires
        0 <= m < first_by_name(list).len(),
    ensures
        0 <= p < list.len(),
        list[p] == first_by_name(list)[m],
        forall|q: int| 0 <= q < p ==> (#[trigger] list[q]).name != list[p].name,
    decreases list.len(),
{
    let rest = list.drop_last();
    let kept = first_by_name(rest);
    if m < kept.len() {
        let p = first_kept(rest, m);
        assert forall|q: int| 0 <= q < p implies (#[trigger] list[q]).name != list[p].name by {
            assert(rest[q] == list[q]);
        }
        p
    } else {
        let p = list.len() - 1;
        names_differ(rest);
        assert forall|q: int| 0 <= q < p implies (#[trigger] list[q]).name != list[p].name by {
            if list[q].name == list[p].name {
                assert(rest[q].name == list[p].name);
                assert(has_name(rest, list[p].name));
            }
        }
        p
    }
}

/// Inclusive credit goes to every reported function around a changed line.
pub proof fn inclusive_credits_all_around(
    symbols: Seq<SymbolView>,
    lines: Seq<u32>,
    max_depth: Option<u32>,
    i: int,
    j: int,
)
    requires
        0 <= i < lines.len(),
        around(symbols, j, lines[i] as int, max_depth),
    ensures
        exists|m: int|
            0 <= m < credits(symbols, lines, max_depth, Attribution::Inclusive).len() && (
            #[trigger] credits(symbols, lines, max_depth, Attribution::Inclusive)[m]).name
                == symbols[j].name,
{
    let all = inclusive_credits(symbols, lines, max_depth);
    let list = credits(symbols, lines, max_depth, Attribution::Inclusive);
    let at = credited_places(symbols, lines, max_depth);
    names_differ(all);
    assert(symbols[j].covers(lines[i] as int));
    assert(covers_any(symbols[j], lines));
    let p = choose|p: int| 0 <= p < at.len() && #[trigger] at[p] == j;
    assert(all[p].name == symbols[j].name);
    assert(has_name(all, symbols[j].name));
    assert(has_name(list, symbols[j].name));
}

/// Inclusive credit goes to no other function: what is credited is around a changed
/// line, the first of its name that is.
pub proof fn inclusive_credits_only_around(
    symbols: Seq<SymbolView>,
    lines: Seq<u32>,
    max_depth: Option<u32>,
    m: int,
)
    requires
        0 <= m < credits(symbols, lines, max_depth, Attribution::Inclusive).len(),
    ensures
        exists|i: int, j: int|
            0 <= i < lines.len() && #[trigger] around(symbols, j, lines[i] as int, max_depth)
                && symbols[j] == credits(symbols, lines, max_depth, Attribution::Inclusive)[m]
                && forall|h: int, l: int|
                0 <= h < lines.len() && l < j && #[trigger] around(
                    symbols,
                    l,
                    lines[h] as int,
                    max_depth,
                ) ==> symbols[l].name != symbols[j].name,
{
    let all = inclusive_credits(symbols, lines, max_depth);
    let at = credited_places(symbols, lines, max_depth);
    let p = first_kept(all, m);
    let j = at[p];
    let i = choose|i: int| 0 <= i < lines.len() && symbols[j].covers(#[trigger] lines[i] as int);
    assert(around(symbols, j, lines[i] as int, max_depth));
    assert forall|h: int, l: int|
        0 <= h < lines.len() && l < j && #[trigger] around(
            symbols,
            l,
            lines[h] as int,
            max_depth,
        ) implies symbols[l].name != symbols[j].name by {
        assert(symbols[l].covers(lines[h] as int));
        assert(covers_any(symbols[l], lines));
        let q = choose|q: int| 0 <= q < at.len() && #[trigger] at[q] == l;
        if q > p {
            assert(at[p] < at[q]);
        }
        assert(all[q].name != all[p].name);
    }
}

/// The places of the symbols that get inclusive credit, one by one.
proof fn credited_places(
    symbols: Seq<SymbolView>,
    lines: Seq<u32>,
    max_depth: Option<u32>,
) -> (at: Seq<int>)
    ensures
        at.len() == inclusive_credits(symbols, lines, max_depth).len(),
        forall|p: int|
            0 <= p < at.len() ==> 0 <= #[trigger] at[p] < symbols.len() && symbols[at[p]]
                == inclusive_credits(symbols, lines, max_depth)[p] && within(
                symbols[at[p]],
                max_depth,
            ) && covers_any(symbols[at[p]], lines),
        forall|p: int, q: int| 0 <= p < q < at.len() ==> #[trigger] at[p] < #[trigger] at[q],
        forall|j: int|
            0 <= j < symbols.len() && within(symbols[j], max_depth) && covers_any(
                #[trigger] symbols[j],
                lines,
            ) ==> exists|p: int| 0 <= p < at.len() && #[trigger] at[p] == j,
    decreases symbols.len(),
{
    if symbols.len() == 0 {
        Seq::empty()
    } else {
        let rest = symbols.drop_last();
        let before = credited_places(rest, lines, max_depth);
        let last = symbols.len() - 1;
        let at = if within(symbols.last(), max_depth) && covers_any(symbols.last(), lines) {
            before.push(last)
        } else {
            before
        };
        assert forall|j: int|
            0 <= j < symbols.len() && within(symbols[j], max_depth) && covers_any(
                #[trigger] symbols[j],
                lines,
            ) implies exists|p: int| 0 <= p < at.len() && #[trigger] at[p] == j by {
            if j < last {
                assert(rest[j] == symbols[j]);
                let p = choose|p: int| 0 <= p < before.len() && #[trigger] before[p] == j;
                assert(at[p] == j);
            } else {
                assert(at[before.len() as int] == j);
            }
        }
        assert forall|p: int| 0 <= p < at.len() implies 0 <= #[trigger] at[p] < symbols.len()
            && symbols[at[p]] == inclusive_credits(symbols, lines, max_depth)[p] && within(
            symbols[at[p]],
            max_depth,
        ) && covers_any(symbols[at[p]], lines) by {
            if p < before.len() {
                assert(before[p] == at[p]);
                assert(rest[at[p]] == symbols[at[p]]);
            }
        }
        at
    }
}

fn is_within(symbol: &Symbol, max_depth: Option<u32>) -> (is: bool)
    ensures
        is == within(symbol@, max_depth),
{
    match max_depth {
        Some(max) => symbol.depth <= max,
        None => true,
    }
}

fn is_less_specific(a: &Symbol, b: &Symbol) -> (is: bool)
    requires
        a.start_line <= a.end_line,
        b.start_line <= b.end_line,
    ensures
        is == less_specific(a@, b@),
{
    a.depth < b.depth || (a.depth == b.depth && a.end_line - a.start_line > b.end_line
        - b.start_line)
}

/// The deepest symbol whose span covers `line` (within `max_depth`). Ties on depth
/// are broken by the smaller span, i.e. the more specific function.
pub fn innermost_covering<'a>(symbols: &'a [Symbol], line: u32, max_depth: Option<u32>) -> (found:
    Option<&'a Symbol>)
    ensures
        (match found {
            Some(symbol) => Some(symbol@),
            None => None,
        }) == innermost_symbol(symbol_views(symbols@), line as int, max_depth),
{
    let ghost all = symbol_views(symbols@);
    let mut best: Option<usize> = None;
    let mut i: usize = 0;
    assert(all.take(0) =~= Seq::empty());
    while i < symbols.len()
        invariant
            i <= symbols@.len() == all.len(),
            all == symbol_views(symbols@),
            match best {
                Some(b) => innermost(all.take(i as int), line as int, max_depth) == Some(b as int)
                    && b < i && all[b as int].covers(line as int),
                None => innermost(all.take(i as int), line as int, max_depth) is None,
            },
        decreases symbols@.len() - i,
    {
        assert(all.take(i + 1).drop_last() =~= all.take(i as int));
        assert(all.take(i + 1).last() == symbols@[i as int]@);
        if is_within(&symbols[i], max_depth) && symbols[i].covers(line) {
            match best {
                Some(b) => {
                    assert(all.take(i + 1)[b as int] == symbols@[b as int]@);
                    if !is_less_specific(&symbols[i], &symbols[b]) {
                        best = Some(i);
                    }
                },
                None => {
                    best = Some(i);
                },
            }
        }
        i += 1;
    }
    assert(all.take(i as int) =~= all);
    match best {
        Some(b) => Some(&symbols[b]),
        None => None,
    }
}

fn copy_symbol(symbol: &Symbol) -> (copy: Symbol)
    ensures
        copy@ == symbol@,
{
    Symbol {
        name: symbol.name.clone(),
        start_line: symbol.start_line,
        end_line: symbol.end_line,
        depth: symbol.depth,
    }
}

/// Symbols that were credited, and their names.
struct Touched {
    symbols: Vec<Symbol>,
    names: StringHashMap<bool>,
}

impl Touched {
    spec fn well_formed(&self) -> bool {
        forall|name: Seq<char>| #[trigger]
            self.names@.contains_key(name) <==> has_name(symbol_views(self.symbols@), name)
    }

    fn new() -> (touched: Touched)
        ensures
            touched.well_formed(),
            symbol_views(touched.symbols@) == Seq::<SymbolView>::empty(),
    {
        let touched = Touched { symbols: Vec::new(), names: StringHashMap::new() };
        assert(symbol_views(touched.symbols@) =~= Seq::empty());
        touched
    }

    /// Credits `symbol`, unless its name was credited before.
    fn credit(&mut self, symbol: &Symbol)
        requires
            old(self).well_formed(),
        ensures
            final(self).well_formed(),
            symbol_views(final(self).symbols@) == (if has_name(
                symbol_views(old(self).symbols@),
                symbol@.name,
            ) {
                symbol_views(old(self).symbols@)
            } else {
                symbol_views(old(self).symbols@).push(symbol@)
            }),
    {
        let ghost before = symbol_views(self.symbols@);
        if !self.names.contains_key(symbol.name.as_str()) {
            self.names.insert(symbol.name.clone(), true);
            self.symbols.push(copy_symbol(symbol));
            assert(symbol_views(self.symbols@) =~= before.push(symbol@));
            assert forall|name: Seq<char>| #[trigger]
                self.names@.contains_key(name) <==> has_name(
                    symbol_views(self.symbols@),
                    name,
                ) by {
                name_after_push(before, symbol@, name);
            }
        }
    }
}

fn any_covered(symbol: &Symbol, lines: &Vec<u32>) -> (any: bool)
    ensures
        any == covers_any(symbol@, lines@),
{
    let mut i: usize = 0;
    while i < lines.len()
        invariant
            i <= lines@.len(),
            forall|j: int| 0 <= j < i ==> !symbol@.covers(#[trigger] lines@[j] as int),
        decreases lines@.len() - i,
    {
        if symbol.covers(lines[i]) {
            return true;
        }
        i += 1;
    }
    false
}

fn credit_inclusive(symbols: &Vec<Symbol>, lines: &Vec<u32>, max_depth: Option<u32>) -> (list: Vec<
    Symbol,
>)
    ensures
        symbol_views(list@) == first_by_name(
            inclusive_credits(symbol_views(symbols@), lines@, max_depth),
        ),
{
    let ghost all = symbol_views(symbols@);
    let mut touched = Touched::new();
    let mut i: usize = 0;
    assert(all.take(0) =~= Seq::empty());
    while i < symbols.len()
        invariant
            i <= symbols@.len() == all.len(),
            all == symbol_views(symbols@),
            touched.well_formed(),
            symbol_views(touched.symbols@) == first_by_name(
                inclusive_credits(all.take(i as int), lines@, max_depth),
            ),
        decreases symbols@.len() - i,
    {
        let ghost before = inclusive_credits(all.take(i as int), lines@, max_depth);
        assert(all.take(i + 1).drop_last() =~= all.take(i as int));
        assert(all.take(i + 1).last() == symbols@[i as int]@);
        assert(before.push(symbols@[i as int]@).drop_last() =~= before);
        if is_within(&symbols[i], max_depth) && any_covered(&symbols[i], lines) {
            touched.credit(&symbols[i]);
        }
        i += 1;
    }
    assert(all.take(i as int) =~= all);
    touched.symbols
}

fn credit_innermost(symbols: &Vec<Symbol>, lines: &Vec<u32>, max_depth: Option<u32>) -> (list: Vec<
    Symbol,
>)
    ensures
        symbol_views(list@) == first_by_name(
            innermost_credits(symbol_views(symbols@), lines@, max_depth),
        ),
{
    let ghost all = symbol_views(symbols@);
    let mut touched = Touched::new();
    let mut i: usize = 0;
    assert(lines@.take(0) =~= Seq::empty());
    while i < lines.len()
        invariant
            i <= lines@.len(),
            all == symbol_views(symbols@),
            touched.well_formed(),
            symbol_views(touched.symbols@) == first_by_name(
                innermost_credits(all, lines@.take(i as int), max_depth),
            ),
        decreases lines@.len() - i,
    {
        let ghost before = innermost_credits(all, lines@.take(i as int), max_depth);
        assert(lines@.take(i + 1).drop_last() =~= lines@.take(i as int));
        match innermost_covering(symbols.as_slice(), lines[i], max_depth) {
            Some(symbol) => {
                assert(before.push(symbol@).drop_last() =~= before);
                touched.credit(symbol);
            },
            None => {},
        }
        i += 1;
    }
    assert(lines@.take(i as int) =~= lines@);
    touched.symbols
}

/// The symbols that a change to `lines` is credited to.
pub fn credited(
    symbols: &Vec<Symbol>,
    lines: &Vec<u32>,
    max_depth: Option<u32>,
    attribution: Attribution,
) -> (list: Vec<Symbol>)
    ensures
        symbol_views(list@) == credits(symbol_views(symbols@), lines@, max_depth, attribution),
{
    match attribution {
        Attribution::Inclusive => credit_inclusive(symbols, lines, max_depth),
        Attribution::Innermost => {
            let mut copy: Vec<u32> = Vec::new();
            let mut i: usize = 0;
            while i < lines.len()
                invariant
                    i <= lines@.len(),
                    copy@ == lines@.take(i as int),
                decreases lines@.len() - i,
            {
                copy.push(lines[i]);
                i += 1;
            }
            assert(copy@ =~= lines@);
            assert(views(copy@) =~= lines@);
            let ascending = sorted(copy);
            assert(views(ascending@) =~= ascending@);
            credit_innermost(symbols, &ascending, max_depth)
        },
    }
}

} // verus!
