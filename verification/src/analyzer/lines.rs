//! Byte offsets and line numbers.
use vstd::prelude::*;
use vstd::utf8::encode_utf8;

verus! {

/// The byte that ends a line.
pub const NEWLINE: u8 = 10;

/// The byte offset at which each line of `bytes` starts.
pub open spec fn line_starts(bytes: Seq<u8>) -> Seq<int>
    decreases bytes.len(),
{
    if bytes.len() == 0 {
        seq![0]
    } else {
        let before = line_starts(bytes.drop_last());
        if bytes.last() == NEWLINE {
            before.push(bytes.len() as int)
        } else {
            before
        }
    }
}

/// The number of line ends in `bytes`.
pub open spec fn line_ends(bytes: Seq<u8>) -> nat
    decreases bytes.len(),
{
    if bytes.len() == 0 {
        0
    } else {
        line_ends(bytes.drop_last()) + if bytes.last() == NEWLINE {
            1nat
        } else {
            0
        }
    }
}

/// The number of `starts` that are not behind `offset`.
pub open spec fn starts_up_to(starts: Seq<int>, offset: int) -> nat
    decreases starts.len(),
{
    if starts.len() == 0 {
        0
    } else {
        starts_up_to(starts.drop_last(), offset) + if starts.last() <= offset {
            1nat
        } else {
            0
        }
    }
}

/// Whether lines can start at these offsets: the first at 0, each behind the one
/// before it.
pub open spec fn ascending(starts: Seq<int>) -> bool {
    &&& starts.len() > 0
    &&& starts[0] == 0
    &&& forall|i: int, j: int| 0 <= i < j < starts.len() ==> starts[i] < starts[j]
}

/// The starts of lines ascend and stay within the bytes.
pub proof fn line_starts_ascend(bytes: Seq<u8>)
    ensures
        ascending(line_starts(bytes)),
        forall|i: int| 0 <= i < line_starts(bytes).len() ==> line_starts(bytes)[i] <= bytes.len(),
    decreases bytes.len(),
{
    if bytes.len() > 0 {
        line_starts_ascend(bytes.drop_last());
    }
}

/// An offset lies on the line whose number is one more than the number of line
/// ends in front of it: a line end belongs to the line that it ends.
pub proof fn line_counts_line_ends(bytes: Seq<u8>, offset: int)
    requires
        0 <= offset <= bytes.len(),
    ensures
        starts_up_to(line_starts(bytes), offset) == 1 + line_ends(bytes.take(offset)),
    decreases bytes.len(),
{
    let starts = line_starts(bytes);
    if bytes.len() == 0 {
        reveal_with_fuel(starts_up_to, 2);
        assert(bytes.take(offset) =~= bytes);
    } else {
        let rest = bytes.drop_last();
        if bytes.last() == NEWLINE {
            assert(starts.drop_last() =~= line_starts(rest));
        }
        if offset < bytes.len() {
            line_counts_line_ends(rest, offset);
            assert(rest.take(offset) =~= bytes.take(offset));
        } else {
            line_counts_line_ends(rest, offset - 1);
            assert(rest.take(offset - 1) =~= rest);
            assert(bytes.take(offset) =~= bytes);
            line_starts_ascend(rest);
            count_prefix(line_starts(rest), line_starts(rest).len() as int, offset - 1);
            count_prefix(line_starts(rest), line_starts(rest).len() as int, offset);
        }
    }
}

/// A line starts at the front and behind each line feed, and nowhere else.
pub proof fn lines_start_behind_line_feeds(bytes: Seq<u8>, offset: int)
    ensures
        line_starts(bytes).contains(offset) == (offset == 0 || 0 < offset <= bytes.len()
            && bytes[offset - 1] == 10),
    decreases bytes.len(),
{
    let starts = line_starts(bytes);
    if bytes.len() == 0 {
        assert(starts[0] == 0);
    } else {
        let rest = bytes.drop_last();
        let before = line_starts(rest);
        lines_start_behind_line_feeds(rest, offset);
        if bytes.last() == NEWLINE {
            assert(starts.last() == bytes.len());
            if before.contains(offset) {
                let i = before.index_of(offset);
                assert(starts[i] == offset);
            }
            if starts.contains(offset) {
                let i = starts.index_of(offset);
                if i < before.len() {
                    assert(before[i] == offset);
                }
            }
        }
    }
}

/// An offset at or behind the start of a line, and in front of the next one's where
/// there is a next one, has the number of that line.
pub proof fn offsets_have_the_line_around(bytes: Seq<u8>, offset: int, k: int)
    requires
        0 <= k < line_starts(bytes).len(),
        line_starts(bytes)[k] <= offset,
        k + 1 < line_starts(bytes).len() ==> offset < line_starts(bytes)[k + 1],
    ensures
        starts_up_to(line_starts(bytes), offset) == k + 1,
{
    let starts = line_starts(bytes);
    line_starts_ascend(bytes);
    count_prefix(starts, k + 1, offset);
}

/// Maps byte offsets within a source string to 1-based line numbers.
pub struct LineIndex {
    /// Byte offset at which each line starts. `line_starts[0]` is always 0.
    line_starts: Vec<u32>,
}

impl View for LineIndex {
    type V = Seq<int>;

    closed spec fn view(&self) -> Seq<int> {
        self.line_starts@.map_values(|start: u32| start as int)
    }
}

impl LineIndex {
    #[verifier::type_invariant]
    spec fn well_formed(self) -> bool {
        ascending(self@) && self@.len() <= u32::MAX
    }

    /// The index of `source`, whose offsets and line numbers must fit in 32 bits.
    pub fn new(source: &str) -> (index: LineIndex)
        requires
            encode_utf8(source@).len() <= u32::MAX,
            line_ends(encode_utf8(source@)) < u32::MAX,
        ensures
            index@ == line_starts(encode_utf8(source@)),
    {
        let bytes = source.as_bytes();
        let mut starts: Vec<u32> = Vec::new();
        starts.push(0);
        let mut i: usize = 0;
        assert(bytes@.take(0) =~= Seq::empty());
        assert(starts@.map_values(|start: u32| start as int) =~= seq![0int]);
        while i < bytes.len()
            invariant
                i <= bytes@.len() <= u32::MAX,
                starts@.map_values(|start: u32| start as int) == line_starts(
                    bytes@.take(i as int),
                ),
            decreases bytes@.len() - i,
        {
            let ghost before = starts@;
            if bytes[i] == NEWLINE {
                starts.push((i + 1) as u32);
                assert(starts@.map_values(|start: u32| start as int) =~= before.map_values(
                    |start: u32| start as int,
                ).push(i + 1));
            }
            assert(bytes@.take(i + 1).drop_last() =~= bytes@.take(i as int));
            i += 1;
        }
        assert(bytes@.take(i as int) =~= bytes@);
        proof {
            line_starts_ascend(bytes@);
            starts_follow_ends(bytes@);
        }
        LineIndex { line_starts: starts }
    }

    /// 1-based line number containing byte `offset`.
    pub fn line_of(&self, offset: u32) -> (line: u32)
        ensures
            line == starts_up_to(self@, offset as int),
    {
        proof {
            use_type_invariant(self);
        }
        let ghost starts = self@;
        let mut low: usize = 0;
        let mut high: usize = self.line_starts.len();
        while low < high
            invariant
                low <= high <= self.line_starts@.len() == starts.len(),
                starts == self@,
                ascending(starts),
                forall|i: int| 0 <= i < low ==> starts[i] <= offset,
                forall|i: int| high <= i < starts.len() ==> starts[i] > offset,
            decreases high - low,
        {
            let middle = low + (high - low) / 2;
            assert(starts[middle as int] == self.line_starts@[middle as int]);
            if self.line_starts[middle] <= offset {
                low = middle + 1;
            } else {
                high = middle;
            }
        }
        proof {
            count_prefix(starts, low as int, offset as int);
        }
        low as u32
    }
}

/// Where the first `n` starts, and no others, are up to `offset`, `n` are counted.
proof fn count_prefix(starts: Seq<int>, n: int, offset: int)
    requires
        0 <= n <= starts.len(),
        forall|i: int| 0 <= i < n ==> starts[i] <= offset,
        forall|i: int| n <= i < starts.len() ==> starts[i] > offset,
    ensures
        starts_up_to(starts, offset) == n,
    decreases starts.len(),
{
    if starts.len() > 0 {
        let rest = starts.drop_last();
        if n == starts.len() {
            count_prefix(rest, n - 1, offset);
        } else {
            count_prefix(rest, n, offset);
        }
    }
}

/// A line starts at the beginning and behind each line end.
proof fn starts_follow_ends(bytes: Seq<u8>)
    ensures
        line_starts(bytes).len() == 1 + line_ends(bytes),
        line_ends(bytes) <= bytes.len(),
    decreases bytes.len(),
{
    if bytes.len() > 0 {
        starts_follow_ends(bytes.drop_last());
    }
}

/// Whether the lines of `source` can be numbered.
pub fn lines_fit(source: &str) -> (fit: bool)
    ensures
        fit == (line_ends(encode_utf8(source@)) < u32::MAX),
{
    let bytes = source.as_bytes();
    proof {
        starts_follow_ends(bytes@);
    }
    if bytes.len() < u32::MAX as usize {
        return true;
    }
    let mut ends: u64 = 0;
    let mut i: usize = 0;
    assert(bytes@.take(0) =~= Seq::empty());
    while i < bytes.len()
        invariant
            i <= bytes@.len(),
            ends <= i,
            ends == line_ends(bytes@.take(i as int)),
        decreases bytes@.len() - i,
    {
        assert(bytes@.take(i + 1).drop_last() =~= bytes@.take(i as int));
        if bytes[i] == NEWLINE {
            ends += 1;
        }
        i += 1;
    }
    assert(bytes@.take(i as int) =~= bytes@);
    ends < u32::MAX as u64
}

} // verus!
