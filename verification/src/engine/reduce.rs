//! Merging what the commits contribute into the leaderboards.
use vstd::hash_map::StringHashMap;
use vstd::prelude::*;

use super::{
    AnalysisResult, CommitOutcome, FileStat, FileStatView, HitView, OutcomeView, ResultView,
    SymbolHit, SymbolStat, SymbolStatView,
};
use crate::lists::{
    TextSet, contains_after_push, distinct, distinct_keeps_each_once, extends, occurrences,
};
use crate::sorting::{Ordered, sorted, text_leq, text_leq_transitive, views};
use crate::text::{
    comes_before, same_text, text_less, text_less_irreflexive, text_less_total,
    text_less_transitive, texts,
};

verus! {

/// The commits that contribute: the others were skipped.
pub open spec fn present(outcomes: Seq<Option<OutcomeView>>) -> Seq<OutcomeView>
    decreases outcomes.len(),
{
    if outcomes.len() == 0 {
        Seq::empty()
    } else {
        let before = present(outcomes.drop_last());
        match outcomes.last() {
            Some(outcome) => before.push(outcome),
            None => before,
        }
    }
}

/// The changed paths of all commits, one after the other.
pub open spec fn all_files(list: Seq<OutcomeView>) -> Seq<Seq<char>>
    decreases list.len(),
{
    if list.len() == 0 {
        Seq::empty()
    } else {
        all_files(list.drop_last()) + list.last().files
    }
}

/// The paths that failed to parse in all commits, one after the other.
pub open spec fn all_failures(list: Seq<OutcomeView>) -> Seq<Seq<char>>
    decreases list.len(),
{
    if list.len() == 0 {
        Seq::empty()
    } else {
        all_failures(list.drop_last()) + list.last().parse_failures
    }
}

/// A function credited with a change, and the commit it was seen in.
pub struct Sighting {
    pub time: int,
    pub seq: int,
    pub hit: HitView,
}

impl Sighting {
    /// What a function is told by: its path and its name.
    pub open spec fn key(self) -> (Seq<char>, Seq<char>) {
        (self.hit.path, self.hit.name)
    }

    /// Whether this was seen in a more recent commit than `other`: at a later
    /// time, or at the same time earlier in the walk, which starts at the newest.
    pub open spec fn more_recent(self, other: Sighting) -> bool {
        self.time > other.time || self.time == other.time && self.seq < other.seq
    }
}

/// The credited functions of one commit.
pub open spec fn sightings_in(outcome: OutcomeView) -> Seq<Sighting> {
    outcome.symbols.map_values(
        |hit: HitView| Sighting { time: outcome.time, seq: outcome.seq, hit },
    )
}

/// The credited functions of all commits, one after the other.
pub open spec fn all_sightings(list: Seq<OutcomeView>) -> Seq<Sighting>
    decreases list.len(),
{
    if list.len() == 0 {
        Seq::empty()
    } else {
        all_sightings(list.drop_last()) + sightings_in(list.last())
    }
}

/// The keys of sightings.
pub open spec fn keys(all: Seq<Sighting>) -> Seq<(Seq<char>, Seq<char>)> {
    all.map_values(|s: Sighting| s.key())
}

/// The sightings of one function.
pub open spec fn of_key(all: Seq<Sighting>, key: (Seq<char>, Seq<char>)) -> Seq<Sighting>
    decreases all.len(),
{
    if all.len() == 0 {
        Seq::empty()
    } else {
        let before = of_key(all.drop_last(), key);
        if all.last().key() == key {
            before.push(all.last())
        } else {
            before
        }
    }
}

/// The most recent of sightings, the first of those that are equally recent.
pub open spec fn newest(all: Seq<Sighting>) -> Sighting
    recommends
        all.len() > 0,
    decreases all.len(),
{
    if all.len() <= 1 {
        all[0]
    } else {
        let best = newest(all.drop_last());
        if all.last().more_recent(best) {
            all.last()
        } else {
            best
        }
    }
}

/// How often each path occurs.
pub open spec fn file_stats(paths: Seq<Seq<char>>) -> Seq<FileStatView> {
    distinct(paths).map_values(
        |path: Seq<char>| FileStatView { path, changes: occurrences(paths, path) as int },
    )
}

/// The row of one function: how often it was seen, and its lines and depth as of
/// the most recent commit that touched it.
pub open spec fn symbol_stat(all: Seq<Sighting>, key: (Seq<char>, Seq<char>)) -> SymbolStatView {
    let own = of_key(all, key);
    let latest = newest(own).hit;
    SymbolStatView {
        path: key.0,
        symbol: key.1,
        changes: own.len() as int,
        start_line: latest.start_line,
        end_line: latest.end_line,
        depth: latest.depth,
    }
}

/// The rows of all functions.
pub open spec fn symbol_stats(all: Seq<Sighting>) -> Seq<SymbolStatView> {
    distinct(keys(all)).map_values(|key: (Seq<char>, Seq<char>)| symbol_stat(all, key))
}

/// Most-changed first; ties are broken by path.
pub open spec fn file_leq(a: FileStatView, b: FileStatView) -> bool {
    a.changes > b.changes || a.changes == b.changes && text_leq(a.path, b.path)
}

/// Most-changed first; ties are broken by path, then by name. No two functions
/// have both in common, so the rest never decides.
pub open spec fn symbol_leq(a: SymbolStatView, b: SymbolStatView) -> bool {
    if a.changes != b.changes {
        a.changes > b.changes
    } else if a.path != b.path {
        text_leq(a.path, b.path)
    } else if a.symbol != b.symbol {
        text_leq(a.symbol, b.symbol)
    } else if a.start_line != b.start_line {
        a.start_line < b.start_line
    } else if a.end_line != b.end_line {
        a.end_line < b.end_line
    } else {
        a.depth <= b.depth
    }
}

/// The first rows of a leaderboard, or all of them.
pub open spec fn truncated<T>(rows: Seq<T>, top: Option<usize>) -> Seq<T> {
    match top {
        Some(n) => if n < rows.len() {
            rows.take(n as int)
        } else {
            rows
        },
        None => rows,
    }
}

/// The earliest and the latest time of the commits, if there are any.
pub open spec fn period(list: Seq<OutcomeView>) -> Option<(int, int)>
    decreases list.len(),
{
    if list.len() == 0 {
        None
    } else {
        let time = list.last().time;
        match period(list.drop_last()) {
            Some((from, to)) => Some(
                (
                    if time < from {
                        time
                    } else {
                        from
                    },
                    if time > to {
                        time
                    } else {
                        to
                    },
                ),
            ),
            None => Some((time, time)),
        }
    }
}

/// The result of an analysis of these commits.
pub open spec fn reduced(
    list: Seq<OutcomeView>,
    top: Option<usize>,
    glob_filtered: bool,
) -> ResultView {
    ResultView {
        commit_count: list.len(),
        period: period(list),
        glob_filtered,
        total_files: distinct(all_files(list)).len(),
        parse_failures: distinct(all_failures(list)).sort_by(String::order()),
        files: truncated(file_stats(all_files(list)).sort_by(FileStat::order()), top),
        symbols: truncated(symbol_stats(all_sightings(list)).sort_by(SymbolStat::order()), top),
    }
}

/// Whether no count of a result exceeds what a row can hold.
pub open spec fn countable(list: Seq<OutcomeView>) -> bool {
    &&& forall|path: Seq<char>| #[trigger] occurrences(all_files(list), path) <= u32::MAX
    &&& forall|key: (Seq<char>, Seq<char>)| #[trigger]
        of_key(all_sightings(list), key).len() <= u32::MAX
}

impl Ordered for FileStat {
    open spec fn order() -> spec_fn(FileStatView, FileStatView) -> bool {
        |a: FileStatView, b: FileStatView| file_leq(a, b)
    }

    proof fn ordered() {
        let leq = FileStat::order();
        assert forall|a: FileStatView| #[trigger] leq(a, a) by {
            text_less_irreflexive(a.path);
        }
        assert forall|a: FileStatView, b: FileStatView| #[trigger] leq(a, b) && #[trigger] leq(
            b,
            a,
        ) implies a == b by {
            text_less_total(a.path, b.path);
        }
        assert forall|a: FileStatView, b: FileStatView, c: FileStatView| #[trigger] leq(
            a,
            b,
        ) && #[trigger] leq(b, c) implies leq(a, c) by {
            if a.changes == b.changes && b.changes == c.changes {
                text_leq_transitive(a.path, b.path, c.path);
            }
        }
        assert forall|a: FileStatView, b: FileStatView| #[trigger] leq(a, b) || #[trigger] leq(
            b,
            a,
        ) by {
            one_way(a.path, b.path);
        }
    }

    fn not_after(&self, other: &FileStat) -> (r: bool) {
        if self.changes != other.changes {
            self.changes > other.changes
        } else {
            !comes_before(other.path.as_str(), self.path.as_str())
        }
    }
}

proof fn one_way(a: Seq<char>, b: Seq<char>)
    ensures
        text_leq(a, b) || text_leq(b, a),
        a == b ==> text_leq(a, b),
{
    if text_less(a, b) && text_less(b, a) {
        text_less_transitive(a, b, a);
    }
    text_less_irreflexive(a);
}

proof fn both_ways(a: Seq<char>, b: Seq<char>)
    requires
        text_leq(a, b),
        text_leq(b, a),
    ensures
        a == b,
{
    text_less_total(a, b);
}

impl Ordered for SymbolStat {
    open spec fn order() -> spec_fn(SymbolStatView, SymbolStatView) -> bool {
        |a: SymbolStatView, b: SymbolStatView| symbol_leq(a, b)
    }

    proof fn ordered() {
        let leq = SymbolStat::order();
        assert forall|a: SymbolStatView, b: SymbolStatView| #[trigger] leq(a, b) && #[trigger] leq(
            b,
            a,
        ) implies a == b by {
            if a.path != b.path && text_leq(a.path, b.path) && text_leq(b.path, a.path) {
                both_ways(a.path, b.path);
            }
            if a.symbol != b.symbol && text_leq(a.symbol, b.symbol) && text_leq(
                b.symbol,
                a.symbol,
            ) {
                both_ways(a.symbol, b.symbol);
            }
        }
        assert forall|a: SymbolStatView, b: SymbolStatView, c: SymbolStatView| #[trigger] leq(
            a,
            b,
        ) && #[trigger] leq(b, c) implies leq(a, c) by {
            symbol_leq_transitive(a, b, c);
        }
        assert forall|a: SymbolStatView, b: SymbolStatView| #[trigger] leq(a, b)
            || #[trigger] leq(b, a) by {
            one_way(a.path, b.path);
            one_way(a.symbol, b.symbol);
        }
    }

    fn not_after(&self, other: &SymbolStat) -> (r: bool) {
        if self.changes != other.changes {
            self.changes > other.changes
        } else if !same_text(self.path.as_str(), other.path.as_str()) {
            !comes_before(other.path.as_str(), self.path.as_str())
        } else if !same_text(self.symbol.as_str(), other.symbol.as_str()) {
            !comes_before(other.symbol.as_str(), self.symbol.as_str())
        } else if self.start_line != other.start_line {
            self.start_line < other.start_line
        } else if self.end_line != other.end_line {
            self.end_line < other.end_line
        } else {
            self.depth <= other.depth
        }
    }
}

proof fn symbol_leq_transitive(a: SymbolStatView, b: SymbolStatView, c: SymbolStatView)
    requires
        symbol_leq(a, b),
        symbol_leq(b, c),
    ensures
        symbol_leq(a, c),
{
    if a.changes == b.changes && b.changes == c.changes {
        if a.path != b.path && b.path != c.path {
            text_leq_transitive(a.path, b.path, c.path);
            if a.path == c.path {
                both_ways(a.path, b.path);
            }
        } else if a.path == b.path && b.path == c.path {
            if a.symbol != b.symbol && b.symbol != c.symbol {
                text_leq_transitive(a.symbol, b.symbol, c.symbol);
                if a.symbol == c.symbol {
                    both_ways(a.symbol, b.symbol);
                }
            }
        }
    }
}

/// How often paths were seen, by path.
struct FileTally {
    stats: Vec<FileStat>,
    index: StringHashMap<usize>,
}

impl FileTally {
    /// Whether this is the tally of `paths`.
    spec fn counts(&self, paths: Seq<Seq<char>>) -> bool {
        &&& views(self.stats@) == file_stats(paths)
        &&& forall|path: Seq<char>| #[trigger]
            self.index@.contains_key(path) <==> distinct(paths).contains(path)
        &&& forall|path: Seq<char>| #[trigger]
            self.index@.contains_key(path) ==> self.index@[path] < distinct(paths).len()
                && distinct(paths)[self.index@[path] as int] == path
    }

    fn new() -> (tally: FileTally)
        ensures
            tally.counts(Seq::empty()),
    {
        let tally = FileTally { stats: Vec::new(), index: StringHashMap::new() };
        assert(views(tally.stats@) =~= file_stats(Seq::empty()));
        tally
    }

    /// Counts `path` once more.
    fn count(&mut self, path: &String, Ghost(paths): Ghost<Seq<Seq<char>>>)
        requires
            old(self).counts(paths),
            occurrences(paths, path@) < u32::MAX,
        ensures
            final(self).counts(paths.push(path@)),
    {
        let ghost more = paths.push(path@);
        let ghost before = self.stats@;
        let ghost rows = distinct(paths);
        proof {
            assert(more.drop_last() =~= paths);
            distinct_keeps_each_once(paths);
            assert(views(before).len() == before.len());
            assert forall|k: int| 0 <= k < before.len() implies file_stats(paths)[k] == (
            #[trigger] before[k])@ by {
                assert(views(before)[k] == before[k]@);
            }
        }
        let place: Option<usize> = match self.index.get(path.as_str()) {
            Some(i) => Some(*i),
            None => None,
        };
        match place {
            Some(i) => {
                let changes = self.stats[i].changes;
                self.stats[i].changes = changes + 1;
                assert forall|k: int| 0 <= k < rows.len() implies (#[trigger] self.stats@[k])@
                    == file_stats(more)[k] by {
                    assert(file_stats(paths)[k] == before[k]@);
                    assert(file_stats(paths)[k].path == rows[k]);
                    assert(k != i ==> rows[k] != path@);
                }
                assert(views(self.stats@) =~= file_stats(more));
            },
            None => {
                let n = self.stats.len();
                assert(n == file_stats(paths).len());
                self.index.insert(path.clone(), n);
                self.stats.push(FileStat { path: path.clone(), changes: 1 });
                proof {
                    assert(!rows.contains(path@));
                    not_distinct_not_there(paths, path@);
                }
                assert forall|k: int| 0 <= k <= rows.len() implies (#[trigger] self.stats@[k])@
                    == file_stats(more)[k] by {
                    if k < rows.len() {
                        assert(file_stats(paths)[k] == before[k]@);
                        assert(rows[k] != path@);
                    }
                }
                assert(views(self.stats@) =~= file_stats(more));
                assert forall|p: Seq<char>| #[trigger]
                    self.index@.contains_key(p) <==> distinct(more).contains(p) by {
                    contains_after_push(rows, path@, p);
                }
            },
        }
    }
}

proof fn not_distinct_not_there<T>(items: Seq<T>, item: T)
    requires
        !distinct(items).contains(item),
    ensures
        occurrences(items, item) == 0,
{
    distinct_keeps_each_once(items);
    absent(items, item);
}

proof fn absent<T>(items: Seq<T>, item: T)
    requires
        !items.contains(item),
    ensures
        occurrences(items, item) == 0,
    decreases items.len(),
{
    if items.len() > 0 {
        assert(items[items.len() - 1] == items.last());
        assert forall|i: int| 0 <= i < items.drop_last().len() implies items.drop_last()[i]
            != item by {
            assert(items[i] == items.drop_last()[i]);
        }
        absent(items.drop_last(), item);
    }
}

/// Where the rows of functions are, by path and name.
struct PairIndex {
    by_path: StringHashMap<usize>,
    by_name: Vec<StringHashMap<usize>>,
}

impl PairIndex {
    spec fn well_formed(&self) -> bool {
        &&& forall|path: Seq<char>| #[trigger]
            self.by_path@.contains_key(path) ==> self.by_path@[path] < self.by_name@.len()
        &&& forall|p: Seq<char>, q: Seq<char>|
            #![trigger self.by_path@.contains_key(p), self.by_path@.contains_key(q)]
            self.by_path@.contains_key(p) && self.by_path@.contains_key(q) && self.by_path@[p]
                == self.by_path@[q] ==> p == q
    }

    spec fn at(&self, path: Seq<char>, name: Seq<char>) -> Option<usize> {
        if self.by_path@.contains_key(path) {
            let names = self.by_name@[self.by_path@[path] as int]@;
            if names.contains_key(name) {
                Some(names[name])
            } else {
                None
            }
        } else {
            None
        }
    }

    fn new() -> (index: PairIndex)
        ensures
            index.well_formed(),
            forall|path: Seq<char>, name: Seq<char>| #[trigger] index.at(path, name) is None,
    {
        PairIndex { by_path: StringHashMap::new(), by_name: Vec::new() }
    }

    fn get(&self, path: &str, name: &str) -> (place: Option<usize>)
        requires
            self.well_formed(),
        ensures
            place == self.at(path@, name@),
    {
        match self.by_path.get(path) {
            Some(g) => match self.by_name[*g].get(name) {
                Some(i) => Some(*i),
                None => None,
            },
            None => None,
        }
    }

    fn insert(&mut self, path: &String, name: &String, place: usize)
        requires
            old(self).well_formed(),
        ensures
            final(self).well_formed(),
            forall|p: Seq<char>, n: Seq<char>| #[trigger]
                final(self).at(p, n) == (if p == path@ && n == name@ {
                    Some(place)
                } else {
                    old(self).at(p, n)
                }),
    {
        let group: usize = match self.by_path.get(path.as_str()) {
            Some(g) => *g,
            None => {
                let g = self.by_name.len();
                self.by_name.push(StringHashMap::new());
                self.by_path.insert(path.clone(), g);
                g
            },
        };
        self.by_name[group].insert(name.clone(), place);
    }
}

/// The sightings of one function so far.
struct SymbolAgg {
    path: String,
    name: String,
    changes: u32,
    /// Time and walk index of the latest observation, so line numbers track the
    /// newest commit deterministically regardless of merge order.
    latest_time: i64,
    latest_seq: usize,
    start_line: u32,
    end_line: u32,
    depth: u32,
}

impl SymbolAgg {
    spec fn key(&self) -> (Seq<char>, Seq<char>) {
        (self.path@, self.name@)
    }

    /// Whether this holds the sightings `own` of its function.
    spec fn holds(&self, own: Seq<Sighting>) -> bool {
        &&& own.len() > 0
        &&& self.changes == own.len()
        &&& newest(own).time == self.latest_time
        &&& newest(own).seq == self.latest_seq
        &&& newest(own).hit.start_line == self.start_line
        &&& newest(own).hit.end_line == self.end_line
        &&& newest(own).hit.depth == self.depth
    }
}

/// Functions that were seen, by path and name.
struct SymbolTally {
    rows: Vec<SymbolAgg>,
    index: PairIndex,
}

impl SymbolTally {
    /// Whether this is the tally of `all`.
    spec fn counts(&self, all: Seq<Sighting>) -> bool {
        &&& self.index.well_formed()
        &&& self.rows@.len() == distinct(keys(all)).len()
        &&& forall|k: int|
            0 <= k < self.rows@.len() ==> (#[trigger] self.rows@[k]).key() == distinct(
                keys(all),
            )[k] && self.rows@[k].holds(of_key(all, self.rows@[k].key()))
        &&& forall|path: Seq<char>, name: Seq<char>|
            match #[trigger] self.index.at(path, name) {
                Some(i) => i < self.rows@.len() && self.rows@[i as int].key() == (path, name),
                None => !distinct(keys(all)).contains((path, name)),
            }
    }

    fn new() -> (tally: SymbolTally)
        ensures
            tally.counts(Seq::empty()),
    {
        let tally = SymbolTally { rows: Vec::new(), index: PairIndex::new() };
        assert(keys(Seq::empty()) =~= Seq::empty());
        tally
    }

    /// Counts `hit` once more, seen at `time` in the commit at `seq`.
    fn count(&mut self, hit: &SymbolHit, time: i64, seq: usize, Ghost(all): Ghost<Seq<Sighting>>)
        requires
            old(self).counts(all),
            of_key(all, (hit@.path, hit@.name)).len() < u32::MAX,
        ensures
            final(self).counts(
                all.push(Sighting { time: time as int, seq: seq as int, hit: hit@ }),
            ),
    {
        let ghost sighting = Sighting { time: time as int, seq: seq as int, hit: hit@ };
        let ghost more = all.push(sighting);
        let ghost key = sighting.key();
        let ghost old_keys = distinct(keys(all));
        let ghost before = *self;
        proof {
            assert(more.drop_last() =~= all);
            assert(keys(more) =~= keys(all).push(key));
            assert(keys(more).drop_last() =~= keys(all));
            distinct_keeps_each_once(keys(all));
            assert forall|other: (Seq<char>, Seq<char>)| other != key implies #[trigger] of_key(
                more,
                other,
            ) == of_key(all, other) by {}
        }
        match self.index.get(hit.path.as_str(), hit.name.as_str()) {
            Some(i) => {
                let ghost own = of_key(all, key);
                assert(self.rows@[i as int].holds(own));
                assert(own.push(sighting).drop_last() =~= own);
                assert(old_keys[i as int] == key);
                let changes = self.rows[i].changes;
                self.rows[i].changes = changes + 1;
                if time > self.rows[i].latest_time || (time == self.rows[i].latest_time && seq
                    < self.rows[i].latest_seq) {
                    self.rows[i].latest_time = time;
                    self.rows[i].latest_seq = seq;
                    self.rows[i].start_line = hit.start_line;
                    self.rows[i].end_line = hit.end_line;
                    self.rows[i].depth = hit.depth;
                }
                proof {
                    assert(old_keys.contains(key));
                    assert(self.rows@[i as int].holds(own.push(sighting)));
                    assert forall|k: int| 0 <= k < self.rows@.len() implies (
                    #[trigger] self.rows@[k]).key() == distinct(keys(more))[k]
                        && self.rows@[k].holds(of_key(more, self.rows@[k].key())) by {
                        assert(before.rows@[k].key() == old_keys[k]);
                        if k != i {
                            assert(old_keys[k] != old_keys[i as int]);
                            assert(self.rows@[k] == before.rows@[k]);
                        }
                    }
                    assert forall|path: Seq<char>, name: Seq<char>|
                        match #[trigger] self.index.at(path, name) {
                            Some(j) => j < self.rows@.len() && self.rows@[j as int].key() == (
                                path,
                                name,
                            ),
                            None => !distinct(keys(more)).contains((path, name)),
                        } by {
                        assert(self.index.at(path, name) == before.index.at(path, name));
                        if let Some(j) = self.index.at(path, name) {
                            assert(before.rows@[j as int].key() == (path, name));
                            assert(self.rows@[j as int].key() == before.rows@[j as int].key());
                        }
                    }
                }
            },
            None => {
                let n = self.rows.len();
                self.index.insert(&hit.path, &hit.name, n);
                self.rows.push(
                    SymbolAgg {
                        path: hit.path.clone(),
                        name: hit.name.clone(),
                        changes: 1,
                        latest_time: time,
                        latest_seq: seq,
                        start_line: hit.start_line,
                        end_line: hit.end_line,
                        depth: hit.depth,
                    },
                );
                proof {
                    assert(!old_keys.contains(key));
                    no_sighting(all, key);
                    assert(of_key(more, key) =~= seq![sighting]);
                    assert forall|k: int| 0 <= k < self.rows@.len() implies (
                    #[trigger] self.rows@[k]).key() == distinct(keys(more))[k]
                        && self.rows@[k].holds(of_key(more, self.rows@[k].key())) by {
                        if k < n {
                            assert(before.rows@[k].key() == old_keys[k]);
                            assert(self.rows@[k] == before.rows@[k]);
                            assert(old_keys[k] != key);
                        }
                    }
                    assert forall|path: Seq<char>, name: Seq<char>|
                        match #[trigger] self.index.at(path, name) {
                            Some(j) => j < self.rows@.len() && self.rows@[j as int].key() == (
                                path,
                                name,
                            ),
                            None => !distinct(keys(more)).contains((path, name)),
                        } by {
                        contains_after_push(old_keys, key, (path, name));
                        if (path, name) != key {
                            assert(self.index.at(path, name) == before.index.at(path, name));
                            if let Some(j) = self.index.at(path, name) {
                                assert(before.rows@[j as int].key() == (path, name));
                                assert(self.rows@[j as int] == before.rows@[j as int]);
                            }
                        }
                    }
                }
            },
        }
    }

    /// The rows of the leaderboard.
    fn stats(&self, Ghost(all): Ghost<Seq<Sighting>>) -> (list: Vec<SymbolStat>)
        requires
            self.counts(all),
        ensures
            views(list@) == symbol_stats(all),
    {
        let mut list: Vec<SymbolStat> = Vec::new();
        let mut i: usize = 0;
        while i < self.rows.len()
            invariant
                self.counts(all),
                i <= self.rows@.len(),
                views(list@) == symbol_stats(all).take(i as int),
            decreases self.rows@.len() - i,
        {
            let ghost before = list@;
            let row = &self.rows[i];
            assert(row.key() == distinct(keys(all))[i as int]);
            list.push(
                SymbolStat {
                    path: row.path.clone(),
                    symbol: row.name.clone(),
                    changes: row.changes,
                    start_line: row.start_line,
                    end_line: row.end_line,
                    depth: row.depth,
                },
            );
            assert(views(list@) =~= views(before).push(symbol_stats(all)[i as int]));
            assert(symbol_stats(all).take(i + 1) =~= symbol_stats(all).take(i as int).push(
                symbol_stats(all)[i as int],
            ));
            i += 1;
        }
        assert(symbol_stats(all).take(i as int) =~= symbol_stats(all));
        list
    }
}

proof fn no_sighting(all: Seq<Sighting>, key: (Seq<char>, Seq<char>))
    requires
        !distinct(keys(all)).contains(key),
    ensures
        of_key(all, key) == Seq::<Sighting>::empty(),
{
    distinct_keeps_each_once(keys(all));
    unseen(all, key);
}

proof fn unseen(all: Seq<Sighting>, key: (Seq<char>, Seq<char>))
    requires
        !keys(all).contains(key),
    ensures
        of_key(all, key) == Seq::<Sighting>::empty(),
    decreases all.len(),
{
    if all.len() > 0 {
        let rest = all.drop_last();
        assert(keys(all)[all.len() - 1] == all.last().key());
        assert forall|i: int| 0 <= i < keys(rest).len() implies keys(rest)[i] != key by {
            assert(keys(all)[i] == keys(rest)[i]);
        }
        unseen(rest, key);
    }
}

/// Optional outcomes.
pub open spec fn outcome_views(outcomes: Seq<Option<CommitOutcome>>) -> Seq<Option<OutcomeView>> {
    outcomes.map_values(
        |o: Option<CommitOutcome>|
            match o {
                Some(outcome) => Some(outcome@),
                None => None,
            },
    )
}

proof fn occurrences_grow<T>(a: Seq<T>, b: Seq<T>, item: T)
    requires
        extends(a, b),
    ensures
        occurrences(a, item) <= occurrences(b, item),
    decreases b.len(),
{
    if a.len() == b.len() {
        assert(a =~= b);
    } else {
        assert(extends(a, b.drop_last()));
        occurrences_grow(a, b.drop_last(), item);
    }
}

proof fn of_key_grows(a: Seq<Sighting>, b: Seq<Sighting>, key: (Seq<char>, Seq<char>))
    requires
        extends(a, b),
    ensures
        of_key(a, key).len() <= of_key(b, key).len(),
    decreases b.len(),
{
    if a.len() == b.len() {
        assert(a =~= b);
    } else {
        assert(extends(a, b.drop_last()));
        of_key_grows(a, b.drop_last(), key);
    }
}

proof fn present_grows(outcomes: Seq<Option<OutcomeView>>, i: int)
    requires
        0 <= i <= outcomes.len(),
    ensures
        extends(present(outcomes.take(i)), present(outcomes)),
    decreases outcomes.len() - i,
{
    if i < outcomes.len() {
        present_grows(outcomes, i + 1);
        assert(outcomes.take(i + 1).drop_last() =~= outcomes.take(i));
    } else {
        assert(outcomes.take(i) =~= outcomes);
    }
}

/// What a shorter list of commits contributes comes first in what a longer one
/// does.
proof fn contributions_grow(a: Seq<OutcomeView>, b: Seq<OutcomeView>)
    requires
        extends(a, b),
    ensures
        extends(all_files(a), all_files(b)),
        extends(all_sightings(a), all_sightings(b)),
    decreases b.len(),
{
    if a.len() == b.len() {
        assert(a =~= b);
    } else {
        assert(extends(a, b.drop_last()));
        contributions_grow(a, b.drop_last());
        assert forall|i: int| 0 <= i < all_files(a).len() implies #[trigger] all_files(b)[i]
            == all_files(a)[i] by {
            assert(all_files(b.drop_last())[i] == all_files(a)[i]);
        }
        assert forall|i: int| 0 <= i < all_sightings(a).len() implies #[trigger] all_sightings(
            b,
        )[i] == all_sightings(a)[i] by {
            assert(all_sightings(b.drop_last())[i] == all_sightings(a)[i]);
        }
    }
}

/// Counts the changed paths of one more commit.
fn count_files(
    tally: &mut FileTally,
    outcome: &CommitOutcome,
    Ghost(before): Ghost<Seq<OutcomeView>>,
    Ghost(list): Ghost<Seq<OutcomeView>>,
)
    requires
        old(tally).counts(all_files(before)),
        extends(before.push(outcome@), list),
        countable(list),
    ensures
        final(tally).counts(all_files(before.push(outcome@))),
{
    let ghost with = before.push(outcome@);
    let ghost files = texts(outcome.files@);
    proof {
        assert(with.drop_last() =~= before);
        contributions_grow(with, list);
    }
    let mut i: usize = 0;
    assert(all_files(before) + files.take(0) =~= all_files(before));
    while i < outcome.files.len()
        invariant
            i <= outcome.files@.len() == files.len(),
            files == texts(outcome.files@),
            tally.counts(all_files(before) + files.take(i as int)),
            all_files(with) == all_files(before) + files,
            extends(all_files(with), all_files(list)),
            countable(list),
        decreases outcome.files@.len() - i,
    {
        let ghost so_far = all_files(before) + files.take(i as int);
        let ghost path = outcome.files@[i as int]@;
        proof {
            let next = so_far.push(path);
            assert(next =~= all_files(before) + files.take(i + 1));
            assert(next.drop_last() =~= so_far);
            assert(extends(next, all_files(list))) by {
                assert forall|k: int| 0 <= k < next.len() implies #[trigger] all_files(list)[k]
                    == next[k] by {
                    assert(all_files(with)[k] == next[k]);
                }
            }
            occurrences_grow(next, all_files(list), path);
            assert(occurrences(all_files(list), path) <= u32::MAX);
        }
        tally.count(&outcome.files[i], Ghost(so_far));
        i += 1;
    }
    assert(files.take(i as int) =~= files);
}

/// Counts the credited functions of one more commit.
fn count_symbols(
    tally: &mut SymbolTally,
    outcome: &CommitOutcome,
    Ghost(before): Ghost<Seq<OutcomeView>>,
    Ghost(list): Ghost<Seq<OutcomeView>>,
)
    requires
        old(tally).counts(all_sightings(before)),
        extends(before.push(outcome@), list),
        countable(list),
    ensures
        final(tally).counts(all_sightings(before.push(outcome@))),
{
    let ghost with = before.push(outcome@);
    let ghost seen = sightings_in(outcome@);
    proof {
        assert(with.drop_last() =~= before);
        contributions_grow(with, list);
    }
    let mut i: usize = 0;
    assert(all_sightings(before) + seen.take(0) =~= all_sightings(before));
    while i < outcome.symbols.len()
        invariant
            i <= outcome.symbols@.len() == seen.len(),
            seen == sightings_in(outcome@),
            tally.counts(all_sightings(before) + seen.take(i as int)),
            all_sightings(with) == all_sightings(before) + seen,
            extends(all_sightings(with), all_sightings(list)),
            countable(list),
        decreases outcome.symbols@.len() - i,
    {
        let ghost so_far = all_sightings(before) + seen.take(i as int);
        let ghost sighting = seen[i as int];
        proof {
            let next = so_far.push(sighting);
            assert(sighting.hit == outcome.symbols@[i as int]@);
            assert(next =~= all_sightings(before) + seen.take(i + 1));
            assert(next.drop_last() =~= so_far);
            assert(extends(next, all_sightings(list))) by {
                assert forall|k: int| 0 <= k < next.len() implies #[trigger] all_sightings(
                    list,
                )[k] == next[k] by {
                    assert(all_sightings(with)[k] == next[k]);
                }
            }
            of_key_grows(next, all_sightings(list), sighting.key());
            assert(of_key(all_sightings(list), sighting.key()).len() <= u32::MAX);
        }
        tally.count(&outcome.symbols[i], outcome.time, outcome.seq, Ghost(so_far));
        i += 1;
    }
    assert(seen.take(i as int) =~= seen);
}

/// Collects the paths that failed to parse in one more commit.
fn collect_failures(set: &mut TextSet, paths: &Vec<String>, Ghost(before): Ghost<Seq<Seq<char>>>)
    requires
        old(set).well_formed(),
        texts(old(set).list@) == distinct(before),
    ensures
        final(set).well_formed(),
        texts(final(set).list@) == distinct(before + texts(paths@)),
{
    let ghost more = texts(paths@);
    let mut i: usize = 0;
    assert(before + more.take(0) =~= before);
    while i < paths.len()
        invariant
            i <= paths@.len() == more.len(),
            more == texts(paths@),
            set.well_formed(),
            texts(set.list@) == distinct(before + more.take(i as int)),
        decreases paths@.len() - i,
    {
        assert((before + more.take(i + 1)).drop_last() =~= before + more.take(i as int));
        assert((before + more.take(i + 1)).last() == paths@[i as int]@);
        set.insert(&paths[i]);
        i += 1;
    }
    assert(more.take(i as int) =~= more);
}

/// The first rows of a leaderboard, or all of them.
pub fn truncate<T: Ordered>(items: Vec<T>, top: Option<usize>) -> (rows: Vec<T>)
    ensures
        views(rows@) == truncated(views(items@), top),
{
    let ghost all = views(items@);
    let mut rows = items;
    if let Some(n) = top {
        if n < rows.len() {
            rows.truncate(n);
            assert(views(rows@) =~= all.take(n as int));
        }
    }
    rows
}

/// The file leaderboard: most-changed first, ties broken by path.
pub fn rank_files(counts: Vec<FileStat>, top: Option<usize>) -> (files: Vec<FileStat>)
    ensures
        views(files@) == truncated(views(counts@).sort_by(FileStat::order()), top),
{
    truncate(sorted(counts), top)
}

/// The function leaderboard: most-changed first, ties broken by path and name.
pub fn rank_symbols(counts: Vec<SymbolStat>, top: Option<usize>) -> (symbols: Vec<SymbolStat>)
    ensures
        views(symbols@) == truncated(views(counts@).sort_by(SymbolStat::order()), top),
{
    truncate(sorted(counts), top)
}

/// Merges the independent per-commit results into the final leaderboards: change
/// counts, the number of files, the de-duplicated and sorted parse failures, and
/// "latest commit wins" line tracking. `None` outcomes are commits that were
/// skipped and contribute nothing.
pub fn reduce_outcomes(
    outcomes: Vec<Option<CommitOutcome>>,
    top: Option<usize>,
    glob_filtered: bool,
) -> (result: AnalysisResult)
    requires
        countable(present(outcome_views(outcomes@))),
    ensures
        result@ == reduced(present(outcome_views(outcomes@)), top, glob_filtered),
{
    let ghost opts = outcome_views(outcomes@);
    let ghost list = present(opts);
    let mut commit_count: usize = 0;
    let mut period_seen: Option<(i64, i64)> = None;
    let mut files = FileTally::new();
    let mut symbols = SymbolTally::new();
    let mut failures = TextSet::new();
    let mut i: usize = 0;
    assert(opts.take(0) =~= Seq::empty());
    while i < outcomes.len()
        invariant
            i <= outcomes@.len() == opts.len(),
            opts == outcome_views(outcomes@),
            list == present(opts),
            countable(list),
            commit_count <= i,
            commit_count == present(opts.take(i as int)).len(),
            (match period_seen {
                Some((from, to)) => Some((from as int, to as int)),
                None => None,
            }) == period(present(opts.take(i as int))),
            files.counts(all_files(present(opts.take(i as int)))),
            symbols.counts(all_sightings(present(opts.take(i as int)))),
            failures.well_formed(),
            texts(failures.list@) == distinct(all_failures(present(opts.take(i as int)))),
        decreases outcomes@.len() - i,
    {
        let ghost before = present(opts.take(i as int));
        proof {
            assert(opts.take(i + 1).drop_last() =~= opts.take(i as int));
            assert(opts.take(i + 1).last() == opts[i as int]);
            present_grows(opts, i + 1);
        }
        if let Some(outcome) = &outcomes[i] {
            proof {
                assert(opts[i as int] == Some(outcome@));
                assert(before.push(outcome@).drop_last() =~= before);
            }
            commit_count += 1;
            let time = outcome.time;
            period_seen = match period_seen {
                Some((from, to)) => Some(
                    (
                        if time < from {
                            time
                        } else {
                            from
                        },
                        if time > to {
                            time
                        } else {
                            to
                        },
                    ),
                ),
                None => Some((time, time)),
            };
            count_files(&mut files, outcome, Ghost(before), Ghost(list));
            collect_failures(
                &mut failures,
                &outcome.parse_failures,
                Ghost(all_failures(before)),
            );
            count_symbols(&mut symbols, outcome, Ghost(before), Ghost(list));
        }
        i += 1;
    }
    assert(opts.take(i as int) =~= opts);
    let total_files = files.stats.len();
    assert(views(files.stats@).len() == total_files);
    let failed = failures.list;
    assert(views(failed@) =~= texts(failed@));
    let parse_failures = sorted(failed);
    assert(views(parse_failures@) =~= texts(parse_failures@));
    let rows = symbols.stats(Ghost(all_sightings(list)));
    let result = AnalysisResult {
        commit_count,
        period: period_seen,
        glob_filtered,
        total_files,
        parse_failures,
        files: rank_files(files.stats, top),
        symbols: rank_symbols(rows, top),
    };
    assert(result@.files =~= views(result.files@));
    assert(result@.symbols =~= views(result.symbols@));
    result
}

} // verus!
