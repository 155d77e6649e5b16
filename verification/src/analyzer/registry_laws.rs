//! Which analyzer handles a file, in terms of what was registered and configured.
use vstd::prelude::*;

use super::extension::{normalized, normalized_all, path_extension};
use super::extension_laws::{is_lower_case_of, lower_case_is_taken};
use super::golang::{GoAnalyzer, go_symbols};
use super::kotlin::{KotlinAnalyzer, kotlin_gives};
use super::registry::{
    BuiltinAnalyzer, RegistryView, builtins, configured, first_claim, first_claim_found, named,
    named_found,
};
use super::rust::{RustAnalyzer, rust_symbols};
use super::scala::{ScalaAnalyzer, scala_symbols};
use super::typescript::{TypeScriptAnalyzer, typescript_symbols};
use super::{Extraction, LanguageAnalyzer};
use crate::config::AnalyzerConfigView;
use crate::lists::{contains_after_push, distinct_keeps_each_once};
use crate::text::lowered;

verus! {

/// A path goes to the first analyzer that handles its extension: to one where it has an
/// extension that some analyzer handles, and to none otherwise.
pub proof fn first_to_handle_is_responsible<A: LanguageAnalyzer>(
    registry: RegistryView<A>,
    path: Seq<char>,
    i: int,
)
    ensures
        path_extension(path) is None ==> registry.responsible(path) is None,
        path_extension(path) matches Some(ext) ==> {
            &&& 0 <= i < registry.extensions.len() && registry.extensions[i].contains(ext) && (
            forall|j: int| 0 <= j < i ==> !(#[trigger] registry.extensions[j]).contains(ext))
                ==> registry.responsible(path) == Some(registry.analyzers[i])
            &&& (forall|j: int|
                0 <= j < registry.extensions.len() ==> !(
                #[trigger] registry.extensions[j]).contains(ext)) ==> registry.responsible(
                path,
            ) is None
        },
{
    if let Some(ext) = path_extension(path) {
        first_claim_found(registry.extensions, ext);
        if let Some(k) = first_claim(registry.extensions, ext) {
            if 0 <= i < registry.extensions.len() && registry.extensions[i].contains(ext) && (
            forall|j: int| 0 <= j < i ==> !(#[trigger] registry.extensions[j]).contains(ext)) {
                if k < i {
                    assert(!registry.extensions[k].contains(ext));
                } else if i < k {
                    assert(!registry.extensions[i].contains(ext));
                }
            }
            assert(registry.extensions[k].contains(ext));
        }
    }
}

/// Whether one of a list of extensions is matched by `ext`.
pub open spec fn lists(list: Seq<Seq<char>>, ext: Seq<char>) -> bool {
    exists|i: int| 0 <= i < list.len() && normalized(#[trigger] list[i]) == Some(ext)
}

proof fn listed_is_normalized(list: Seq<Seq<char>>, ext: Seq<char>)
    ensures
        normalized_all(list).contains(ext) <==> lists(list, ext),
    decreases list.len(),
{
    if list.len() > 0 {
        let rest = list.drop_last();
        listed_is_normalized(rest, ext);
        if let Some(name) = normalized(list.last()) {
            contains_after_push(normalized_all(rest), name, ext);
        }
        if lists(rest, ext) {
            let i = choose|i: int|
                0 <= i < rest.len() && normalized(#[trigger] rest[i]) == Some(ext);
            assert(normalized(list[i]) == Some(ext));
        }
        if lists(list, ext) {
            let i = choose|i: int|
                0 <= i < list.len() && normalized(#[trigger] list[i]) == Some(ext);
            if i < rest.len() {
                assert(normalized(rest[i]) == Some(ext));
            }
        }
        if normalized(list.last()) == Some(ext) {
            assert(normalized(list[list.len() - 1]) == Some(ext));
        }
    }
}

/// A language that is turned off handles nothing. Another handles the extensions that its
/// config lists in place of its own, or else its own, and with them the extra ones.
pub proof fn config_decides_what_is_handled(
    own: Seq<Seq<char>>,
    config: AnalyzerConfigView,
    ext: Seq<char>,
)
    ensures
        !config.enabled ==> !configured(own, config).contains(ext),
        config.enabled && config.extensions is Some ==> (configured(own, config).contains(ext)
            <==> lists(config.extensions->0, ext) || lists(config.extra_extensions, ext)),
        config.enabled && config.extensions is None ==> (configured(own, config).contains(ext)
            <==> lists(own, ext) || lists(config.extra_extensions, ext)),
        configured(own, config).no_duplicates(),
{
    let base = match config.extensions {
        Some(list) => list,
        None => own,
    };
    let both = normalized_all(base) + normalized_all(config.extra_extensions);
    distinct_keeps_each_once(both);
    listed_is_normalized(base, ext);
    listed_is_normalized(config.extra_extensions, ext);
    let (a, b) = (normalized_all(base), normalized_all(config.extra_extensions));
    if a.contains(ext) {
        assert(both[a.index_of(ext)] == ext);
    }
    if b.contains(ext) {
        assert(both[a.len() + b.index_of(ext)] == ext);
    }
    if both.contains(ext) {
        let k = both.index_of(ext);
        if k < a.len() {
            assert(a[k] == ext);
        } else {
            assert(b[k - a.len()] == ext);
        }
    }
}

/// Whether two names are the same in whatever case.
pub open spec fn same_but_case(a: Seq<char>, b: Seq<char>) -> bool {
    exists|low: Seq<char>| #[trigger] is_lower_case_of(low, a) && is_lower_case_of(low, b)
}

proof fn case_is_lowered(a: Seq<char>, b: Seq<char>)
    ensures
        same_but_case(a, b) <==> lowered(a) == lowered(b),
{
    lower_case_is_taken(a);
    lower_case_is_taken(b);
    if lowered(a) == lowered(b) {
        assert(is_lower_case_of(lowered(a), a));
    }
}

/// Whether the analyzer at `i` is the first one that goes by a name, in whatever case.
pub open spec fn goes_by<A: LanguageAnalyzer>(
    analyzers: Seq<A>,
    name: Seq<char>,
    i: int,
) -> bool {
    &&& 0 <= i < analyzers.len()
    &&& same_but_case(analyzers[i].language(), name)
    &&& forall|j: int|
        0 <= j < i ==> !same_but_case((#[trigger] analyzers[j]).language(), name)
}

proof fn named_goes_by<A: LanguageAnalyzer>(analyzers: Seq<A>, name: Seq<char>)
    ensures
        match named(analyzers, name) {
            Some(i) => goes_by(analyzers, name, i),
            None => forall|i: int| !#[trigger] goes_by(analyzers, name, i),
        },
        forall|i: int| #[trigger] goes_by(analyzers, name, i) ==> named(analyzers, name) == Some(i),
{
    named_found(analyzers, name);
    assert forall|i: int| 0 <= i < analyzers.len() implies (same_but_case(
        (#[trigger] analyzers[i]).language(),
        name,
    ) <==> lowered(analyzers[i].language()) == lowered(name)) by {
        case_is_lowered(analyzers[i].language(), name);
    }
    if let Some(i) = named(analyzers, name) {
        assert forall|k: int| #[trigger] goes_by(analyzers, name, k) implies k == i by {
            if k < i {
                assert(lowered(analyzers[k].language()) != lowered(name));
            } else if i < k {
                assert(!same_but_case(analyzers[i].language(), name));
            }
        }
    }
}

/// An override changes what the first analyzer of its name handles, and nothing else. One
/// that names no analyzer changes nothing.
pub proof fn overrides_reach_their_analyzer<A: LanguageAnalyzer>(
    registry: RegistryView<A>,
    list: Seq<(Seq<char>, AnalyzerConfigView)>,
    name: Seq<char>,
    config: AnalyzerConfigView,
    i: int,
)
    requires
        registry.analyzers.len() == registry.extensions.len(),
    ensures
        ({
            let before = registry.under(list);
            let after = registry.under(list.push((name, config)));
            &&& registry.under(Seq::empty()) == registry
            &&& after.analyzers == registry.analyzers
            &&& after.extensions.len() == registry.extensions.len()
            &&& goes_by(registry.analyzers, name, i) ==> after.extensions[i] == configured(
                registry.analyzers[i].own_extensions(),
                config,
            )
            &&& 0 <= i < registry.analyzers.len() && !goes_by(registry.analyzers, name, i)
                ==> after.extensions[i] == before.extensions[i]
        }),
{
    assert(list.push((name, config)).drop_last() =~= list);
    kept_under(registry, list);
    named_goes_by(registry.analyzers, name);
    let before = registry.under(list);
    if let Some(k) = named(before.analyzers, name) {
        assert(goes_by(registry.analyzers, name, k));
    }
}

proof fn kept_under<A: LanguageAnalyzer>(
    registry: RegistryView<A>,
    list: Seq<(Seq<char>, AnalyzerConfigView)>,
)
    requires
        registry.analyzers.len() == registry.extensions.len(),
    ensures
        registry.under(list).analyzers == registry.analyzers,
        registry.under(list).extensions.len() == registry.extensions.len(),
    decreases list.len(),
{
    if list.len() > 0 {
        kept_under(registry, list.drop_last());
        named_found(registry.analyzers, list.last().0);
    }
}

/// The names that are reported as unknown are those that no analyzer goes by, in their
/// order.
pub proof fn unknown_names_are_reported<A: LanguageAnalyzer>(
    registry: RegistryView<A>,
    list: Seq<(Seq<char>, AnalyzerConfigView)>,
    name: Seq<char>,
    config: AnalyzerConfigView,
)
    ensures
        registry.unknown(Seq::empty()).len() == 0,
        (exists|i: int| #[trigger] goes_by(registry.analyzers, name, i)) ==> registry.unknown(
            list.push((name, config)),
        ) == registry.unknown(list),
        (forall|i: int| !#[trigger] goes_by(registry.analyzers, name, i)) ==> registry.unknown(
            list.push((name, config)),
        ) == registry.unknown(list).push(name),
{
    assert(list.push((name, config)).drop_last() =~= list);
    named_goes_by(registry.analyzers, name);
}

/// An analyzer that is registered comes last and handles its own extensions, and the others
/// stay as they are.
pub proof fn registered_analyzers_come_last<A: LanguageAnalyzer>(
    registry: RegistryView<A>,
    analyzer: A,
    ext: Seq<char>,
    i: int,
)
    requires
        registry.analyzers.len() == registry.extensions.len(),
    ensures
        ({
            let more = registry.with(analyzer);
            let n = registry.analyzers.len() as int;
            &&& more.analyzers.len() == n + 1
            &&& more.extensions.len() == n + 1
            &&& more.analyzers[n] == analyzer
            &&& more.extensions[n].contains(ext) <==> lists(analyzer.own_extensions(), ext)
            &&& 0 <= i < n ==> more.analyzers[i] == registry.analyzers[i] && more.extensions[i]
                == registry.extensions[i]
        }),
{
    listed_is_normalized(analyzer.own_extensions(), ext);
}

/// In the box there are the analyzers of TypeScript, Rust and Go, in this order, each with
/// its own extensions.
pub proof fn three_ship_in_the_box(ext: Seq<char>)
    ensures
        ({
            let registry = builtins();
            &&& registry.analyzers.len() == 3
            &&& registry.extensions.len() == 3
            &&& registry.analyzers[0] == BuiltinAnalyzer::TypeScript(TypeScriptAnalyzer)
            &&& registry.analyzers[1] == BuiltinAnalyzer::Rust(RustAnalyzer)
            &&& registry.analyzers[2] == BuiltinAnalyzer::Go(GoAnalyzer)
            &&& forall|i: int|
                0 <= i < 3 ==> ((#[trigger] registry.extensions[i]).contains(ext) <==> lists(
                    registry.analyzers[i].own_extensions(),
                    ext,
                ))
        }),
{
    listed_is_normalized(BuiltinAnalyzer::TypeScript(TypeScriptAnalyzer).own_extensions(), ext);
    listed_is_normalized(BuiltinAnalyzer::Rust(RustAnalyzer).own_extensions(), ext);
    listed_is_normalized(BuiltinAnalyzer::Go(GoAnalyzer).own_extensions(), ext);
}

/// What an analyzer of the box is and gives is what the analyzer in it is and gives.
pub proof fn boxed_analyzers_stand_for_themselves(
    path: Seq<char>,
    source: Seq<char>,
    symbols: Extraction,
)
    ensures
        BuiltinAnalyzer::TypeScript(TypeScriptAnalyzer).gives(path, source, symbols)
            <==> TypeScriptAnalyzer.gives(path, source, symbols),
        BuiltinAnalyzer::Rust(RustAnalyzer).gives(path, source, symbols) <==> RustAnalyzer.gives(
            path,
            source,
            symbols,
        ),
        BuiltinAnalyzer::Go(GoAnalyzer).gives(path, source, symbols) <==> GoAnalyzer.gives(
            path,
            source,
            symbols,
        ),
        BuiltinAnalyzer::Kotlin(KotlinAnalyzer).gives(path, source, symbols)
            <==> KotlinAnalyzer.gives(path, source, symbols),
        BuiltinAnalyzer::Scala(ScalaAnalyzer).gives(path, source, symbols)
            <==> ScalaAnalyzer.gives(path, source, symbols),
        BuiltinAnalyzer::TypeScript(TypeScriptAnalyzer).language()
            == TypeScriptAnalyzer.language(),
        BuiltinAnalyzer::Rust(RustAnalyzer).language() == RustAnalyzer.language(),
        BuiltinAnalyzer::Go(GoAnalyzer).language() == GoAnalyzer.language(),
        BuiltinAnalyzer::Kotlin(KotlinAnalyzer).language() == KotlinAnalyzer.language(),
        BuiltinAnalyzer::Scala(ScalaAnalyzer).language() == ScalaAnalyzer.language(),
        BuiltinAnalyzer::TypeScript(TypeScriptAnalyzer).own_extensions()
            == TypeScriptAnalyzer.own_extensions(),
        BuiltinAnalyzer::Rust(RustAnalyzer).own_extensions() == RustAnalyzer.own_extensions(),
        BuiltinAnalyzer::Go(GoAnalyzer).own_extensions() == GoAnalyzer.own_extensions(),
        BuiltinAnalyzer::Kotlin(KotlinAnalyzer).own_extensions()
            == KotlinAnalyzer.own_extensions(),
        BuiltinAnalyzer::Scala(ScalaAnalyzer).own_extensions() == ScalaAnalyzer.own_extensions(),
{
}

/// What an analyzer gives are the symbols of the source in its language. That of TypeScript
/// looks at the path too, and the others do not.
pub proof fn analyzers_give_the_symbols_of_their_language(
    path: Seq<char>,
    source: Seq<char>,
    symbols: Extraction,
)
    ensures
        TypeScriptAnalyzer.gives(path, source, symbols) <==> symbols == typescript_symbols(
            path,
            source,
        ),
        RustAnalyzer.gives(path, source, symbols) <==> symbols == rust_symbols(source),
        GoAnalyzer.gives(path, source, symbols) <==> symbols == go_symbols(source),
        KotlinAnalyzer.gives(path, source, symbols) <==> kotlin_gives(source, symbols),
        ScalaAnalyzer.gives(path, source, symbols) <==> symbols == scala_symbols(source),
{
}

/// What each language is called, and the extensions that it handles.
pub proof fn languages_have_their_extensions()
    ensures
        TypeScriptAnalyzer.language() == "TypeScript"@,
        TypeScriptAnalyzer.own_extensions() == seq![
            "ts"@,
            "tsx"@,
            "mts"@,
            "cts"@,
            "js"@,
            "jsx"@,
            "mjs"@,
            "cjs"@,
        ],
        RustAnalyzer.language() == "Rust"@,
        RustAnalyzer.own_extensions() == seq!["rs"@],
        GoAnalyzer.language() == "Go"@,
        GoAnalyzer.own_extensions() == seq!["go"@],
        KotlinAnalyzer.language() == "Kotlin"@,
        KotlinAnalyzer.own_extensions() == seq!["kt"@, "kts"@],
        ScalaAnalyzer.language() == "Scala"@,
        ScalaAnalyzer.own_extensions() == seq!["scala"@, "sc"@],
{
}

} // verus!
