//! What the options come down to, in terms of what was asked for.
use vstd::prelude::*;

use crate::cli::{CliErrorView, date_bound, error_message, filter_of, globs_of, peeled, unless_zero};
use crate::dates::{DATE_FORMAT, day_number};
use crate::globs::{GlobView, globs_fit, reads_as_glob};

verus! {

/// A date is the day that it names, and one that names none is an error that quotes it.
/// `since` starts with the first second of its day and `until` ends with the last, 86,399
/// seconds later. Without a date there is no bound.
pub proof fn dates_bound_days(date: Seq<char>)
    ensures
        ({
            let since = date_bound(Some(date), 0);
            let until = date_bound(Some(date), crate::dates::DAY - 1);
            match day_number(date, DATE_FORMAT@) {
                Some(day) => since == Ok::<_, CliErrorView>(Some(day * 86_400)) && until
                    == Ok::<_, CliErrorView>(Some(day * 86_400 + 86_399)),
                None => since == Err::<Option<int>, _>(CliErrorView::Date(date)) && until
                    == Err::<Option<int>, _>(CliErrorView::Date(date)),
            }
        }),
        date_bound(None, 0) == Ok::<Option<int>, CliErrorView>(None),
        date_bound(None, crate::dates::DAY - 1) == Ok::<Option<int>, CliErrorView>(None),
        DATE_FORMAT@ == seq!['%', 'Y', '-', '%', 'm', '-', '%', 'd'],
{
    reveal_strlit("%Y-%m-%d");
    assert("%Y-%m-%d"@ =~= seq!['%', 'Y', '-', '%', 'm', '-', '%', 'd']);
}

/// A limit of 0 is no limit, and any other is itself.
pub proof fn zero_is_no_limit(n: usize)
    ensures
        unless_zero(0) == None::<usize>,
        n > 0 ==> unless_zero(n) == Some(n),
{
}

/// What is left of a pattern is its end, behind as many `./` as it starts with.
pub proof fn leading_dot_slashes_are_peeled(pattern: Seq<char>) -> (n: int)
    ensures
        0 <= n,
        2 * n <= pattern.len(),
        peeled(pattern) == pattern.skip(2 * n),
        forall|i: int|
            0 <= i < 2 * n ==> #[trigger] pattern[i] == if i % 2 == 0 {
                '.'
            } else {
                '/'
            },
        !(pattern.len() >= 2 * n + 2 && pattern[2 * n] == '.' && pattern[2 * n + 1] == '/'),
    decreases pattern.len(),
{
    if pattern.len() >= 2 && pattern[0] == '.' && pattern[1] == '/' {
        let rest = pattern.skip(2);
        let m = leading_dot_slashes_are_peeled(rest);
        assert(rest.skip(2 * m) =~= pattern.skip(2 * (m + 1)));
        assert forall|i: int| 0 <= i < 2 * (m + 1) implies #[trigger] pattern[i] == if i % 2 == 0 {
            '.'
        } else {
            '/'
        } by {
            if i > 1 {
                assert(rest[i - 2] == pattern[i]);
            }
        }
        if pattern.len() >= 2 * (m + 1) + 2 {
            assert(rest[2 * m] == pattern[2 * (m + 1)]);
            assert(rest[2 * m + 1] == pattern[2 * (m + 1) + 1]);
        }
        m + 1
    } else {
        assert(pattern.skip(0) =~= pattern);
        0
    }
}

/// A filter has one glob for each pattern, in their order: what is left of it without the
/// leading `./`, with `*` and `?` stopping at `/`. Without patterns there is no filter.
pub proof fn filters_hold_every_pattern(patterns: Seq<Seq<char>>)
    ensures
        patterns.len() == 0 ==> filter_of(patterns) == Ok::<
            Option<Seq<GlobView>>,
            CliErrorView,
        >(None),
        filter_of(patterns) matches Ok(filter) ==> {
            &&& filter is None <==> patterns.len() == 0
            &&& filter matches Some(globs) ==> {
                &&& globs.len() == patterns.len()
                &&& globs_fit(globs)
                &&& forall|i: int|
                    0 <= i < globs.len() ==> (#[trigger] globs[i]).pattern == peeled(patterns[i])
                        && globs[i].literal_separator && reads_as_glob(globs[i].pattern, true)
            }
        },
{
    every_pattern_is_read(patterns);
}

proof fn every_pattern_is_read(patterns: Seq<Seq<char>>)
    ensures
        globs_of(patterns) matches Ok(globs) ==> {
            &&& globs.len() == patterns.len()
            &&& forall|i: int|
                0 <= i < globs.len() ==> (#[trigger] globs[i]).pattern == peeled(patterns[i])
                    && globs[i].literal_separator && reads_as_glob(globs[i].pattern, true)
        },
    decreases patterns.len(),
{
    if patterns.len() > 0 {
        every_pattern_is_read(patterns.drop_last());
    }
}

/// A pattern that cannot be read is the error where all before it can, and where all can be
/// read the one error is that they do not fit together.
pub proof fn first_unreadable_pattern_is_the_error(patterns: Seq<Seq<char>>, i: int)
    requires
        patterns.len() > 0,
    ensures
        0 <= i < patterns.len() && !reads_as_glob(peeled(patterns[i]), true) && (forall|j: int|
            0 <= j < i ==> reads_as_glob(peeled(#[trigger] patterns[j]), true)) ==> filter_of(
            patterns,
        ) == Err::<Option<Seq<GlobView>>, _>(CliErrorView::Glob(peeled(patterns[i]))),
        (forall|j: int|
            0 <= j < patterns.len() ==> reads_as_glob(peeled(#[trigger] patterns[j]), true))
            ==> match filter_of(patterns) {
            Ok(filter) => filter is Some,
            Err(e) => e == CliErrorView::Globs,
        },
{
    if 0 <= i < patterns.len() && !reads_as_glob(peeled(patterns[i]), true) && (forall|j: int|
        0 <= j < i ==> reads_as_glob(peeled(#[trigger] patterns[j]), true)) {
        unreadable_stays(patterns, i);
    }
    if forall|j: int|
        0 <= j < patterns.len() ==> reads_as_glob(peeled(#[trigger] patterns[j]), true) {
        all_readable(patterns);
    }
}

proof fn unreadable_stays(patterns: Seq<Seq<char>>, i: int)
    requires
        0 <= i < patterns.len(),
        !reads_as_glob(peeled(patterns[i]), true),
        forall|j: int| 0 <= j < i ==> reads_as_glob(peeled(#[trigger] patterns[j]), true),
    ensures
        globs_of(patterns) == Err::<Seq<GlobView>, _>(CliErrorView::Glob(peeled(patterns[i]))),
    decreases patterns.len(),
{
    let rest = patterns.drop_last();
    if i < rest.len() {
        assert(rest[i] == patterns[i]);
        assert forall|j: int| 0 <= j < i implies reads_as_glob(
            peeled(#[trigger] rest[j]),
            true,
        ) by {
            assert(rest[j] == patterns[j]);
        }
        unreadable_stays(rest, i);
    } else {
        assert forall|j: int| 0 <= j < rest.len() implies reads_as_glob(
            peeled(#[trigger] rest[j]),
            true,
        ) by {
            assert(rest[j] == patterns[j]);
        }
        all_readable(rest);
    }
}

proof fn all_readable(patterns: Seq<Seq<char>>)
    requires
        forall|j: int|
            0 <= j < patterns.len() ==> reads_as_glob(peeled(#[trigger] patterns[j]), true),
    ensures
        globs_of(patterns) is Ok,
    decreases patterns.len(),
{
    if patterns.len() > 0 {
        let rest = patterns.drop_last();
        assert forall|j: int| 0 <= j < rest.len() implies reads_as_glob(
            peeled(#[trigger] rest[j]),
            true,
        ) by {
            assert(rest[j] == patterns[j]);
        }
        all_readable(rest);
        assert(reads_as_glob(peeled(patterns[patterns.len() - 1]), true));
    }
}

/// The message for an error quotes the date or the pattern that it is about.
pub proof fn errors_quote_their_cause(text: Seq<char>)
    ensures
        exists|before: Seq<char>, after: Seq<char>|
            error_message(CliErrorView::Date(text)) == #[trigger] quoted(before, text, after),
        exists|before: Seq<char>, after: Seq<char>|
            error_message(CliErrorView::Glob(text)) == #[trigger] quoted(before, text, after),
{
    reveal_strlit("invalid date '");
    reveal_strlit("', expected YYYY-MM-DD");
    reveal_strlit("invalid glob pattern: '");
    reveal_strlit("'");
    let (a, b) = ("invalid date '"@, "', expected YYYY-MM-DD"@);
    assert(error_message(CliErrorView::Date(text)) =~= quoted(
        a.drop_last(),
        text,
        b.drop_first(),
    ));
    let (c, d) = ("invalid glob pattern: '"@, "'"@);
    assert(error_message(CliErrorView::Glob(text)) =~= quoted(
        c.drop_last(),
        text,
        d.drop_first(),
    ));
}

/// A text between single quotes, with something before and after.
pub open spec fn quoted(before: Seq<char>, text: Seq<char>, after: Seq<char>) -> Seq<char> {
    before + seq!['\''] + text + seq!['\''] + after
}

} // verus!
