//! User configuration, read from a `.hotcarpet.toml` file.
//!
//! It controls dig-down per language: an analyzer can be turned off (`enabled`),
//! its default extension list replaced wholesale (`extensions`) and extended
//! (`extra_extensions`). See
//! [`crate::analyzer::registry::AnalyzerRegistry::apply_config`].
use vstd::prelude::*;

use crate::text::texts;

verus! {

/// File name searched for when no explicit `--config` is given.
pub const CONFIG_FILENAME: &'static str = ".hotcarpet.toml";

/// Overrides for one language analyzer.
#[derive(Debug)]
pub struct AnalyzerConfig {
    /// Whether files of the language are dug into at all.
    pub enabled: bool,
    /// Replaces the analyzer's built-in extension list entirely. When omitted,
    /// the built-in list is kept.
    pub extensions: Option<Vec<String>>,
    /// Extensions to add on top of the (built-in or replaced) list.
    pub extra_extensions: Vec<String>,
}

/// What an [`AnalyzerConfig`] stands for.
pub struct AnalyzerConfigView {
    pub enabled: bool,
    pub extensions: Option<Seq<Seq<char>>>,
    pub extra_extensions: Seq<Seq<char>>,
}

impl View for AnalyzerConfig {
    type V = AnalyzerConfigView;

    open spec fn view(&self) -> AnalyzerConfigView {
        AnalyzerConfigView {
            enabled: self.enabled,
            extensions: match self.extensions {
                Some(list) => Some(texts(list@)),
                None => None,
            },
            extra_extensions: texts(self.extra_extensions@),
        }
    }
}

impl Default for AnalyzerConfig {
    /// An analyzer that is left as it is.
    fn default() -> (config: AnalyzerConfig)
        ensures
            config@ == (AnalyzerConfigView {
                enabled: true,
                extensions: None,
                extra_extensions: Seq::empty(),
            }),
    {
        let extra_extensions: Vec<String> = Vec::new();
        assert(texts(extra_extensions@) =~= Seq::empty());
        AnalyzerConfig { enabled: true, extensions: None, extra_extensions }
    }
}

/// The whole config file.
#[derive(Debug)]
pub struct Config {
    /// Per-analyzer overrides, each under an analyzer name (case-insensitive),
    /// e.g. `[analyzers.typescript]`. They are applied in this order.
    pub analyzers: Vec<(String, AnalyzerConfig)>,
}

/// The overrides in a list: analyzer names and what they are given.
pub open spec fn overrides(list: Seq<(String, AnalyzerConfig)>) -> Seq<
    (Seq<char>, AnalyzerConfigView),
> {
    list.map_values(|o: (String, AnalyzerConfig)| (o.0@, o.1@))
}

impl View for Config {
    type V = Seq<(Seq<char>, AnalyzerConfigView)>;

    open spec fn view(&self) -> Seq<(Seq<char>, AnalyzerConfigView)> {
        overrides(self.analyzers@)
    }
}

impl Default for Config {
    /// A config that changes nothing.
    fn default() -> (config: Config)
        ensures
            config@ == Seq::<(Seq<char>, AnalyzerConfigView)>::empty(),
    {
        let analyzers: Vec<(String, AnalyzerConfig)> = Vec::new();
        assert(overrides(analyzers@) =~= Seq::empty());
        Config { analyzers }
    }
}

impl Config {
    /// The file a run takes its config from. With an explicit `path` it is that
    /// file, which must then exist and parse. Otherwise it is `found`, the first
    /// [`CONFIG_FILENAME`] met by searching upward; where there is none either,
    /// the run has the default config.
    pub fn resolve<'a>(path: Option<&'a str>, found: Option<&'a str>) -> (file: Option<&'a str>)
        ensures
            file == (if path is Some {
                path
            } else {
                found
            }),
    {
        match path {
            Some(p) => Some(p),
            None => found,
        }
    }
}

/// The nearest of the directories searched upward that holds a config file: the first
/// for which `holds` says so.
pub fn nearest(holds: &Vec<bool>) -> (place: Option<usize>)
    ensures
        match place {
            Some(i) => {
                &&& i < holds@.len()
                &&& holds@[i as int]
                &&& forall|j: int| 0 <= j < i ==> !holds@[j]
            },
            None => forall|j: int| 0 <= j < holds@.len() ==> !holds@[j],
        },
{
    let mut i: usize = 0;
    while i < holds.len()
        invariant
            i <= holds@.len(),
            forall|j: int| 0 <= j < i ==> !holds@[j],
        decreases holds@.len() - i,
    {
        if holds[i] {
            return Some(i);
        }
        i += 1;
    }
    None
}

} // verus!
