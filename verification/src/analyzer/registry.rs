//! The registry of language analyzers: which of them handles a file.
use vstd::hash_map::StringHashMap;
use vstd::prelude::*;

use super::extension::{
    extension_of, normalize_ext, normalized, normalized_all, path_extension,
};
use super::golang::GoAnalyzer;
use super::kotlin::KotlinAnalyzer;
use super::rust::RustAnalyzer;
use super::scala::ScalaAnalyzer;
use super::typescript::TypeScriptAnalyzer;
use super::{AnalyzerError, Extraction, LanguageAnalyzer, Symbol, str_views};
use crate::config::{AnalyzerConfig, AnalyzerConfigView, Config, overrides};
use crate::lists::{dedup_in_place, distinct};
use crate::text::{lower, lowered, same_text, texts};

verus! {

/// The analyzers of hotcarpet.
pub enum BuiltinAnalyzer {
    TypeScript(TypeScriptAnalyzer),
    Rust(RustAnalyzer),
    Go(GoAnalyzer),
    Kotlin(KotlinAnalyzer),
    Scala(ScalaAnalyzer),
}

impl LanguageAnalyzer for BuiltinAnalyzer {
    open spec fn language(&self) -> Seq<char> {
        match self {
            BuiltinAnalyzer::TypeScript(a) => a.language(),
            BuiltinAnalyzer::Rust(a) => a.language(),
            BuiltinAnalyzer::Go(a) => a.language(),
            BuiltinAnalyzer::Kotlin(a) => a.language(),
            BuiltinAnalyzer::Scala(a) => a.language(),
        }
    }

    open spec fn own_extensions(&self) -> Seq<Seq<char>> {
        match self {
            BuiltinAnalyzer::TypeScript(a) => a.own_extensions(),
            BuiltinAnalyzer::Rust(a) => a.own_extensions(),
            BuiltinAnalyzer::Go(a) => a.own_extensions(),
            BuiltinAnalyzer::Kotlin(a) => a.own_extensions(),
            BuiltinAnalyzer::Scala(a) => a.own_extensions(),
        }
    }

    open spec fn gives(&self, path: Seq<char>, source: Seq<char>, symbols: Extraction) -> bool {
        match self {
            BuiltinAnalyzer::TypeScript(a) => a.gives(path, source, symbols),
            BuiltinAnalyzer::Rust(a) => a.gives(path, source, symbols),
            BuiltinAnalyzer::Go(a) => a.gives(path, source, symbols),
            BuiltinAnalyzer::Kotlin(a) => a.gives(path, source, symbols),
            BuiltinAnalyzer::Scala(a) => a.gives(path, source, symbols),
        }
    }

    fn name(&self) -> (name: &'static str) {
        match self {
            BuiltinAnalyzer::TypeScript(a) => a.name(),
            BuiltinAnalyzer::Rust(a) => a.name(),
            BuiltinAnalyzer::Go(a) => a.name(),
            BuiltinAnalyzer::Kotlin(a) => a.name(),
            BuiltinAnalyzer::Scala(a) => a.name(),
        }
    }

    fn extensions(&self) -> (list: &'static [&'static str]) {
        match self {
            BuiltinAnalyzer::TypeScript(a) => a.extensions(),
            BuiltinAnalyzer::Rust(a) => a.extensions(),
            BuiltinAnalyzer::Go(a) => a.extensions(),
            BuiltinAnalyzer::Kotlin(a) => a.extensions(),
            BuiltinAnalyzer::Scala(a) => a.extensions(),
        }
    }

    fn extract_symbols(&self, path: &str, source: &str) -> (symbols: Result<
        Vec<Symbol>,
        AnalyzerError,
    >) {
        match self {
            BuiltinAnalyzer::TypeScript(a) => a.extract_symbols(path, source),
            BuiltinAnalyzer::Rust(a) => a.extract_symbols(path, source),
            BuiltinAnalyzer::Go(a) => a.extract_symbols(path, source),
            BuiltinAnalyzer::Kotlin(a) => a.extract_symbols(path, source),
            BuiltinAnalyzer::Scala(a) => a.extract_symbols(path, source),
        }
    }
}

/// One registered analyzer together with the extensions it currently handles
/// (its built-in list, possibly overridden by config).
struct Entry<A> {
    analyzer: A,
    extensions: Vec<String>,
}

/// Maps file extensions to the language analyzer that handles them.
pub struct AnalyzerRegistry<A> {
    entries: Vec<Entry<A>>,
    /// Extension (lower-case, no dot) -> index into `entries`. The first
    /// registration claiming an extension wins.
    by_ext: StringHashMap<usize>,
}

/// What a registry stands for: its analyzers in the order of their registration,
/// each with the extensions it handles.
pub struct RegistryView<A> {
    pub analyzers: Seq<A>,
    pub extensions: Seq<Seq<Seq<char>>>,
}

/// The first of `lists` that holds `ext`.
pub open spec fn first_claim(lists: Seq<Seq<Seq<char>>>, ext: Seq<char>) -> Option<int>
    decreases lists.len(),
{
    if lists.len() == 0 {
        None
    } else {
        match first_claim(lists.drop_last(), ext) {
            Some(i) => Some(i),
            None => if lists.last().contains(ext) {
                Some(lists.len() - 1)
            } else {
                None
            },
        }
    }
}

/// What [`first_claim`] finds holds the extension, and no list before it does.
pub proof fn first_claim_found(lists: Seq<Seq<Seq<char>>>, ext: Seq<char>)
    ensures
        match first_claim(lists, ext) {
            Some(i) => {
                &&& 0 <= i < lists.len()
                &&& lists[i].contains(ext)
                &&& forall|j: int| 0 <= j < i ==> !(#[trigger] lists[j]).contains(ext)
            },
            None => forall|j: int| 0 <= j < lists.len() ==> !(#[trigger] lists[j]).contains(ext),
        },
    decreases lists.len(),
{
    if lists.len() > 0 {
        first_claim_found(lists.drop_last(), ext);
        assert forall|j: int| 0 <= j < lists.len() - 1 implies #[trigger] lists[j]
            == lists.drop_last()[j] by {}
    }
}

/// The extensions an analyzer with the built-in list `own` handles under an
/// override. `extensions` replaces the list wholesale, `extra_extensions` are
/// appended on top, and one that is not enabled handles none.
pub open spec fn configured(own: Seq<Seq<char>>, config: AnalyzerConfigView) -> Seq<Seq<char>> {
    if config.enabled {
        let base = match config.extensions {
            Some(list) => list,
            None => own,
        };
        distinct(normalized_all(base) + normalized_all(config.extra_extensions))
    } else {
        Seq::empty()
    }
}

/// The first of `analyzers` with the given name, in whatever case.
pub open spec fn named<A: LanguageAnalyzer>(analyzers: Seq<A>, name: Seq<char>) -> Option<int>
    decreases analyzers.len(),
{
    if analyzers.len() == 0 {
        None
    } else {
        match named(analyzers.drop_last(), name) {
            Some(i) => Some(i),
            None => if lowered(analyzers.last().language()) == lowered(name) {
                Some(analyzers.len() - 1)
            } else {
                None
            },
        }
    }
}

/// What [`named`] finds has the name, and no analyzer before it has.
pub proof fn named_found<A: LanguageAnalyzer>(analyzers: Seq<A>, name: Seq<char>)
    ensures
        match named(analyzers, name) {
            Some(i) => {
                &&& 0 <= i < analyzers.len()
                &&& lowered(analyzers[i].language()) == lowered(name)
                &&& forall|j: int|
                    0 <= j < i ==> lowered((#[trigger] analyzers[j]).language()) != lowered(name)
            },
            None => forall|j: int|
                0 <= j < analyzers.len() ==> lowered((#[trigger] analyzers[j]).language())
                    != lowered(name),
        },
    decreases analyzers.len(),
{
    if analyzers.len() > 0 {
        named_found(analyzers.drop_last(), name);
        assert forall|j: int| 0 <= j < analyzers.len() - 1 implies #[trigger] analyzers[j]
            == analyzers.drop_last()[j] by {}
    }
}

impl<A: LanguageAnalyzer> RegistryView<A> {
    /// A registry with one more analyzer, which handles its built-in extensions.
    pub open spec fn with(self, analyzer: A) -> RegistryView<A> {
        RegistryView {
            analyzers: self.analyzers.push(analyzer),
            extensions: self.extensions.push(normalized_all(analyzer.own_extensions())),
        }
    }

    /// The registry under one more override. One that names no analyzer changes
    /// nothing.
    pub open spec fn overridden(self, name: Seq<char>, config: AnalyzerConfigView) -> RegistryView<
        A,
    > {
        match named(self.analyzers, name) {
            Some(i) => RegistryView {
                analyzers: self.analyzers,
                extensions: self.extensions.update(
                    i,
                    configured(self.analyzers[i].own_extensions(), config),
                ),
            },
            None => self,
        }
    }

    /// The registry under a list of overrides, one after the other.
    pub open spec fn under(self, list: Seq<(Seq<char>, AnalyzerConfigView)>) -> RegistryView<A>
        decreases list.len(),
    {
        if list.len() == 0 {
            self
        } else {
            self.under(list.drop_last()).overridden(list.last().0, list.last().1)
        }
    }

    /// The names in a list of overrides that no analyzer has.
    pub open spec fn unknown(self, list: Seq<(Seq<char>, AnalyzerConfigView)>) -> Seq<Seq<char>>
        decreases list.len(),
    {
        if list.len() == 0 {
            Seq::empty()
        } else {
            let before = self.unknown(list.drop_last());
            if named(self.analyzers, list.last().0) is Some {
                before
            } else {
                before.push(list.last().0)
            }
        }
    }

    /// The analyzer responsible for a path: the first to claim its extension.
    pub open spec fn responsible(self, path: Seq<char>) -> Option<A> {
        match path_extension(path) {
            Some(ext) => match first_claim(self.extensions, ext) {
                Some(i) => Some(self.analyzers[i]),
                None => None,
            },
            None => None,
        }
    }
}

/// Overrides change which extensions are handled, never which analyzers there
/// are, and an analyzer that no override names keeps its extensions.
pub proof fn overrides_touch_named_only<A: LanguageAnalyzer>(
    registry: RegistryView<A>,
    list: Seq<(Seq<char>, AnalyzerConfigView)>,
    i: int,
)
    requires
        registry.analyzers.len() == registry.extensions.len(),
        0 <= i < registry.analyzers.len(),
        forall|k: int|
            0 <= k < list.len() ==> named(registry.analyzers, (#[trigger] list[k]).0) != Some(i),
    ensures
        registry.under(list).analyzers == registry.analyzers,
        registry.under(list).extensions.len() == registry.extensions.len(),
        registry.under(list).extensions[i] == registry.extensions[i],
    decreases list.len(),
{
    if list.len() > 0 {
        let before = list.drop_last();
        assert forall|k: int| 0 <= k < before.len() implies named(
            registry.analyzers,
            (#[trigger] before[k]).0,
        ) != Some(i) by {
            assert(before[k] == list[k]);
        }
        overrides_touch_named_only(registry, before, i);
        named_found(registry.analyzers, list.last().0);
        assert(list.last() == list[list.len() - 1]);
    }
}

/// The last override of an analyzer decides alone what it handles: its built-in
/// list is what it starts from, not what earlier overrides made of it.
pub proof fn last_override_wins<A: LanguageAnalyzer>(
    registry: RegistryView<A>,
    list: Seq<(Seq<char>, AnalyzerConfigView)>,
    name: Seq<char>,
    config: AnalyzerConfigView,
)
    requires
        registry.analyzers.len() == registry.extensions.len(),
        named(registry.analyzers, name) is Some,
    ensures
        ({
            let i = named(registry.analyzers, name)->0;
            let own = registry.analyzers[i].own_extensions();
            registry.under(list.push((name, config))).extensions[i] == configured(own, config)
        }),
{
    assert(list.push((name, config)).drop_last() =~= list);
    under_keeps_analyzers(registry, list);
    named_found(registry.analyzers, name);
}

proof fn under_keeps_analyzers<A: LanguageAnalyzer>(
    registry: RegistryView<A>,
    list: Seq<(Seq<char>, AnalyzerConfigView)>,
)
    requires
        registry.analyzers.len() == registry.extensions.len(),
    ensures
        registry.under(list).analyzers == registry.analyzers,
        registry.under(list).extensions.len() == registry.extensions.len(),
    decreases list.len(),
{
    if list.len() > 0 {
        under_keeps_analyzers(registry, list.drop_last());
        named_found(registry.analyzers, list.last().0);
    }
}

/// Analyzers that are registered later take lower priority: a path that some
/// analyzer is responsible for stays with it.
pub proof fn first_registration_wins<A: LanguageAnalyzer>(
    registry: RegistryView<A>,
    analyzer: A,
    path: Seq<char>,
)
    requires
        registry.analyzers.len() == registry.extensions.len(),
        registry.responsible(path) is Some,
    ensures
        registry.with(analyzer).responsible(path) == registry.responsible(path),
{
    let ext = path_extension(path)->0;
    first_claim_found(registry.extensions, ext);
    assert(registry.with(analyzer).extensions.drop_last() =~= registry.extensions);
}

/// A language that is turned off is responsible for nothing: no path goes to an
/// analyzer that handles no extension.
pub proof fn disabled_handles_nothing<A: LanguageAnalyzer>(
    registry: RegistryView<A>,
    path: Seq<char>,
    i: int,
)
    requires
        registry.analyzers.len() == registry.extensions.len(),
        0 <= i < registry.analyzers.len(),
        registry.extensions[i] == Seq::<Seq<char>>::empty(),
    ensures
        path_extension(path) matches Some(ext) ==> first_claim(registry.extensions, ext) != Some(i),
{
    if let Some(ext) = path_extension(path) {
        first_claim_found(registry.extensions, ext);
    }
}

impl<A: LanguageAnalyzer> AnalyzerRegistry<A> {
    /// Every analyzer of a registry has its list of extensions.
    pub proof fn every_analyzer_has_extensions(&self)
        ensures
            self@.analyzers.len() == self@.extensions.len(),
    {
    }
}

fn same_name(a: &str, b: &str) -> (same: bool)
    ensures
        same == (lowered(a@) == lowered(b@)),
{
    same_text(lower(a).as_str(), lower(b).as_str())
}

fn push_normalized(list: &mut Vec<String>, ext: &str)
    ensures
        texts(final(list)@) == texts(old(list)@) + (match normalized(ext@) {
            Some(name) => seq![name],
            None => Seq::empty(),
        }),
{
    let ghost before = texts(list@);
    match normalize_ext(ext) {
        Some(name) => {
            list.push(name);
            assert(texts(list@) =~= before + seq![name@]);
        },
        None => {
            assert(texts(list@) =~= before + Seq::<Seq<char>>::empty());
        },
    }
}

/// The built-in extensions of an analyzer, as they are matched.
fn own_normalized<A: LanguageAnalyzer>(analyzer: &A) -> (list: Vec<String>)
    ensures
        texts(list@) == normalized_all(analyzer.own_extensions()),
{
    let own = analyzer.extensions();
    let ghost views = str_views(own@);
    let mut list: Vec<String> = Vec::new();
    let mut i: usize = 0;
    assert(texts(list@) =~= normalized_all(views.take(0)));
    while i < own.len()
        invariant
            i <= own@.len() == views.len(),
            views == str_views(own@),
            texts(list@) == normalized_all(views.take(i as int)),
        decreases own@.len() - i,
    {
        assert(views.take(i + 1).drop_last() =~= views.take(i as int));
        push_normalized(&mut list, own[i]);
        i += 1;
    }
    assert(views.take(i as int) =~= views);
    list
}

fn push_all_normalized(list: &mut Vec<String>, more: &Vec<String>)
    ensures
        texts(final(list)@) == texts(old(list)@) + normalized_all(texts(more@)),
{
    let ghost before = texts(list@);
    let ghost views = texts(more@);
    let mut i: usize = 0;
    assert(before =~= before + normalized_all(views.take(0)));
    while i < more.len()
        invariant
            i <= more@.len() == views.len(),
            views == texts(more@),
            texts(list@) == before + normalized_all(views.take(i as int)),
        decreases more@.len() - i,
    {
        assert(views.take(i + 1).drop_last() =~= views.take(i as int));
        push_normalized(list, more[i].as_str());
        assert(texts(list@) =~= before + normalized_all(views.take(i + 1)));
        i += 1;
    }
    assert(views.take(i as int) =~= views);
}

/// The extensions an analyzer handles under an override.
fn configured_extensions<A: LanguageAnalyzer>(analyzer: &A, config: &AnalyzerConfig) -> (list: Vec<
    String,
>)
    ensures
        texts(list@) == configured(analyzer.own_extensions(), config@),
{
    if !config.enabled {
        let list: Vec<String> = Vec::new();
        assert(texts(list@) =~= Seq::empty());
        return list;
    }
    let mut list = match &config.extensions {
        Some(replacement) => {
            let mut list: Vec<String> = Vec::new();
            assert(texts(list@) =~= Seq::empty());
            push_all_normalized(&mut list, replacement);
            assert(texts(list@) =~= normalized_all(texts(replacement@)));
            list
        },
        None => own_normalized(analyzer),
    };
    push_all_normalized(&mut list, &config.extra_extensions);
    dedup_in_place(&mut list);
    list
}

impl<A> AnalyzerRegistry<A> {
    pub closed spec fn view(&self) -> RegistryView<A> {
        RegistryView {
            analyzers: self.entries@.map_values(|e: Entry<A>| e.analyzer),
            extensions: extension_lists(self.entries@),
        }
    }

    /// Whether the index says of every extension which entry claims it first.
    pub closed spec fn well_formed(&self) -> bool {
        indexes(self.by_ext@, extension_lists(self.entries@))
    }
}

spec fn extension_lists<A>(entries: Seq<Entry<A>>) -> Seq<Seq<Seq<char>>> {
    entries.map_values(|e: Entry<A>| texts(e.extensions@))
}

spec fn indexes(index: Map<Seq<char>, usize>, lists: Seq<Seq<Seq<char>>>) -> bool {
    forall|ext: Seq<char>| #[trigger] indexed(index, lists, ext)
}

spec fn indexed(index: Map<Seq<char>, usize>, lists: Seq<Seq<Seq<char>>>, ext: Seq<char>) -> bool {
    match first_claim(lists, ext) {
        Some(i) => index.contains_key(ext) && index[ext] == i,
        None => !index.contains_key(ext),
    }
}

/// Whether an index gives `ext` what it gave before, or `i` where only `list`
/// claims it.
spec fn claimed(
    before: Map<Seq<char>, usize>,
    index: Map<Seq<char>, usize>,
    list: Seq<Seq<char>>,
    i: usize,
    ext: Seq<char>,
) -> bool {
    if before.contains_key(ext) {
        index.contains_key(ext) && index[ext] == before[ext]
    } else if list.contains(ext) {
        index.contains_key(ext) && index[ext] == i
    } else {
        !index.contains_key(ext)
    }
}

impl<A: LanguageAnalyzer> AnalyzerRegistry<A> {
    /// A registry without analyzers.
    pub fn new() -> (registry: AnalyzerRegistry<A>)
        ensures
            registry.well_formed(),
            registry@ == (RegistryView::<A> {
                analyzers: Seq::empty(),
                extensions: Seq::empty(),
            }),
    {
        let registry = AnalyzerRegistry { entries: Vec::new(), by_ext: StringHashMap::new() };
        assert(registry@.analyzers =~= Seq::empty());
        assert(registry@.extensions =~= Seq::empty());
        registry
    }

    /// Adds a language analyzer, seeding its extensions from the analyzer's
    /// built-in list. Later registrations take lower priority: the first
    /// analyzer claiming an extension wins.
    pub fn register(&mut self, analyzer: A)
        requires
            old(self).well_formed(),
        ensures
            final(self).well_formed(),
            final(self)@ == old(self)@.with(analyzer),
    {
        let extensions = own_normalized(&analyzer);
        self.entries.push(Entry { analyzer, extensions });
        proof {
            assert(self@.analyzers =~= old(self)@.with(analyzer).analyzers);
            assert(self@.extensions =~= old(self)@.with(analyzer).extensions);
        }
        self.rebuild_index();
    }

    /// The index of the analyzer with the given name, in whatever case.
    fn position(&self, name: &str) -> (index: Option<usize>)
        ensures
            match index {
                Some(i) => named(self@.analyzers, name@) == Some(i as int) && i
                    < self.entries@.len(),
                None => named(self@.analyzers, name@) is None,
            },
    {
        let ghost analyzers = self@.analyzers;
        let mut i: usize = 0;
        proof {
            named_found(analyzers, name@);
        }
        while i < self.entries.len()
            invariant
                i <= self.entries@.len() == analyzers.len(),
                analyzers == self@.analyzers,
                named(analyzers, name@) matches Some(found) ==> i <= found < analyzers.len()
                    && lowered(analyzers[found].language()) == lowered(name@) && forall|j: int|
                    0 <= j < found ==> lowered((#[trigger] analyzers[j]).language()) != lowered(
                        name@,
                    ),
                named(analyzers, name@) is None ==> forall|j: int|
                    0 <= j < analyzers.len() ==> lowered((#[trigger] analyzers[j]).language())
                        != lowered(name@),
            decreases self.entries@.len() - i,
        {
            assert(analyzers[i as int] == self.entries@[i as int].analyzer);
            if same_name(self.entries[i].analyzer.name(), name) {
                return Some(i);
            }
            i += 1;
        }
        None
    }

    /// Applies user configuration, overriding the extension mapping of named
    /// analyzers. Entries naming an unknown analyzer are skipped, and their names
    /// are given back.
    pub fn apply_config(&mut self, config: &Config) -> (unknown: Vec<String>)
        requires
            old(self).well_formed(),
        ensures
            final(self).well_formed(),
            final(self)@ == old(self)@.under(config@),
            texts(unknown@) == old(self)@.unknown(config@),
    {
        let mut unknown: Vec<String> = Vec::new();
        let ghost list = config@;
        let ghost first = self@;
        let mut i: usize = 0;
        assert(list.take(0) =~= Seq::empty());
        assert(texts(unknown@) =~= Seq::empty());
        proof {
            under_keeps_analyzers(first, list.take(0));
        }
        while i < config.analyzers.len()
            invariant
                i <= config.analyzers@.len() == list.len(),
                list == config@,
                self@ == first.under(list.take(i as int)),
                self@.analyzers == first.analyzers,
                texts(unknown@) == first.unknown(list.take(i as int)),
            decreases config.analyzers@.len() - i,
        {
            let name = config.analyzers[i].0.as_str();
            let ghost before = self@;
            let ghost unknown_before = texts(unknown@);
            proof {
                assert(list.take(i + 1).drop_last() =~= list.take(i as int));
                assert(list[i as int] == (
                    config.analyzers@[i as int].0@,
                    config.analyzers@[i as int].1@,
                ));
                assert(list.take(i + 1).last() == list[i as int]);
            }
            match self.position(name) {
                Some(k) => {
                    let list = configured_extensions(
                        &self.entries[k].analyzer,
                        &config.analyzers[i].1,
                    );
                    self.entries[k].extensions = list;
                    proof {
                        assert(self@.analyzers =~= before.analyzers);
                        assert(self@.extensions =~= before.overridden(
                            name@,
                            config.analyzers@[i as int].1@,
                        ).extensions);
                    }
                },
                None => {
                    unknown.push(config.analyzers[i].0.clone());
                    assert(texts(unknown@) =~= unknown_before.push(name@));
                },
            }
            i += 1;
        }
        assert(list.take(i as int) =~= list);
        self.rebuild_index();
        unknown
    }

    /// The analyzer responsible for `path`, if any.
    pub fn for_path(&self, path: &str) -> (analyzer: Option<&A>)
        requires
            self.well_formed(),
        ensures
            match analyzer {
                Some(a) => self@.responsible(path@) == Some(*a),
                None => self@.responsible(path@) is None,
            },
    {
        match extension_of(path) {
            Some(ext) => {
                proof {
                    first_claim_found(self@.extensions, ext@);
                }
                assert(indexed(self.by_ext@, self@.extensions, ext@));
                match self.by_ext.get(ext.as_str()) {
                    Some(i) => Some(&self.entries[*i].analyzer),
                    None => None,
                }
            },
            None => None,
        }
    }

    /// Rebuilds the extension index from the entries (first registration wins).
    fn rebuild_index(&mut self)
        ensures
            final(self).well_formed(),
            final(self)@ == old(self)@,
    {
        self.by_ext.clear();
        let ghost entries = self.entries@;
        let ghost lists = extension_lists(entries);
        let mut i: usize = 0;
        assert(lists.take(0) =~= Seq::empty());
        while i < self.entries.len()
            invariant
                i <= self.entries@.len() == lists.len(),
                self.entries@ == entries,
                lists == extension_lists(entries),
                indexes(self.by_ext@, lists.take(i as int)),
            decreases self.entries@.len() - i,
        {
            let ghost before = self.by_ext@;
            let ghost list = lists[i as int];
            let mut j: usize = 0;
            assert(list.take(0) =~= Seq::empty());
            assert(list == texts(self.entries@[i as int].extensions@));
            while j < self.entries[i as usize].extensions.len()
                invariant
                    i < self.entries@.len(),
                    self.entries@ == entries,
                    list == texts(self.entries@[i as int].extensions@),
                    j <= list.len() == self.entries@[i as int].extensions@.len(),
                    forall|ext: Seq<char>| #[trigger]
                        claimed(before, self.by_ext@, list.take(j as int), i, ext),
                decreases list.len() - j,
            {
                let ext = self.entries[i].extensions[j].clone();
                let ghost was = self.by_ext@;
                let ghost so_far = list.take(j as int);
                assert(list[j as int] == ext@);
                let ghost name = ext@;
                if !self.by_ext.contains_key(ext.as_str()) {
                    self.by_ext.insert(ext, i);
                }
                assert forall|e: Seq<char>| #[trigger]
                    claimed(before, self.by_ext@, list.take(j + 1), i, e) by {
                    let with_name = list.take(j + 1);
                    assert(claimed(before, was, so_far, i, e));
                    assert(claimed(before, was, so_far, i, name));
                    assert(with_name =~= so_far.push(name));
                    assert(with_name[j as int] == name);
                    if so_far.contains(e) {
                        assert(with_name[so_far.index_of(e)] == e);
                    } else if with_name.contains(e) && e != name {
                        assert(so_far[with_name.index_of(e)] == e);
                    }
                }
                j += 1;
            }
            assert(list.take(j as int) =~= list);
            let ghost next = lists.take(i + 1);
            assert(next.drop_last() =~= lists.take(i as int));
            assert(next.last() == list);
            assert forall|ext: Seq<char>| #[trigger] indexed(self.by_ext@, next, ext) by {
                assert(indexed(before, next.drop_last(), ext));
                assert(claimed(before, self.by_ext@, list.take(j as int), i, ext));
            }
            i += 1;
        }
        assert(lists.take(i as int) =~= lists);
    }
}

impl AnalyzerRegistry<BuiltinAnalyzer> {
    /// A registry pre-loaded with the analyzers that ship in the box: TypeScript and
    /// JavaScript, Rust, and Go. Those of Kotlin and Scala are there to be registered.
    pub fn with_builtins() -> (registry: AnalyzerRegistry<BuiltinAnalyzer>)
        ensures
            registry.well_formed(),
            registry@ == builtins(),
    {
        let mut registry = AnalyzerRegistry::new();
        registry.register(BuiltinAnalyzer::TypeScript(TypeScriptAnalyzer));
        registry.register(BuiltinAnalyzer::Rust(RustAnalyzer));
        registry.register(BuiltinAnalyzer::Go(GoAnalyzer));
        registry
    }
}

/// The registry of the analyzers that ship in the box.
pub open spec fn builtins() -> RegistryView<BuiltinAnalyzer> {
    let none = RegistryView::<BuiltinAnalyzer> {
        analyzers: Seq::empty(),
        extensions: Seq::empty(),
    };
    none.with(BuiltinAnalyzer::TypeScript(TypeScriptAnalyzer)).with(
        BuiltinAnalyzer::Rust(RustAnalyzer),
    ).with(BuiltinAnalyzer::Go(GoAnalyzer))
}

} // verus!
