//! Language plugin mechanism.
use vstd::prelude::*;
use vstd::utf8::encode_utf8;

pub mod extension;
pub mod extension_laws;
pub mod golang;
pub mod golang_laws;
pub mod kotlin;
pub mod kotlin_laws;
pub mod lines;
pub mod outline;
pub mod outline_laws;
pub mod registry;
pub mod registry_laws;
pub mod rust;
pub mod rust_laws;
pub mod scala;
pub mod scala_laws;
pub mod syntax_laws;
pub mod tree;
pub mod treesitter;
pub mod typescript;
pub mod typescript_laws;
mod walk;

verus! {

/// Why an analyzer found no symbols in a source.
#[derive(Debug, Clone, Copy, PartialEq, Eq, Structural)]
pub enum AnalyzerError {
    /// The parser cannot load the language's grammar.
    Grammar,
    /// The parser gave no syntax tree.
    NoTree,
    /// The source has syntax errors.
    Syntax,
    /// The parser described a tree that does not fit the source.
    Malformed,
    /// The source is longer than the parser can address.
    TooLong,
    /// Functions nest deeper than a depth can count.
    Nesting,
    /// The source has more string delimiters than the parser can keep track of.
    Strings,
}

/// A named source symbol (function or method) and the 1-based, inclusive line
/// range it occupies in the file.
#[derive(Debug, Clone)]
pub struct Symbol {
    /// Qualified name, e.g. `func`, `Class.method`, `Outer.Inner.method`.
    pub name: String,
    pub start_line: u32,
    pub end_line: u32,
    /// Function-nesting depth, 1-based. Top-level functions and the methods of
    /// a top-level class are depth 1; a function defined inside one is depth 2,
    /// and so on. Entering a class does not increase depth, only functions do.
    pub depth: u32,
}

/// What a [`Symbol`] stands for.
pub struct SymbolView {
    pub name: Seq<char>,
    pub start_line: int,
    pub end_line: int,
    pub depth: int,
}

impl View for Symbol {
    type V = SymbolView;

    open spec fn view(&self) -> SymbolView {
        SymbolView {
            name: self.name@,
            start_line: self.start_line as int,
            end_line: self.end_line as int,
            depth: self.depth as int,
        }
    }
}

/// The views of a list of symbols.
pub open spec fn symbol_views(symbols: Seq<Symbol>) -> Seq<SymbolView> {
    symbols.map_values(|s: Symbol| s@)
}

/// What an extraction of symbols gives.
pub type Extraction = Result<Seq<SymbolView>, AnalyzerError>;

/// What an extraction of symbols gave.
pub open spec fn symbols_result(symbols: Result<Vec<Symbol>, AnalyzerError>) -> Extraction {
    match symbols {
        Ok(list) => Ok(symbol_views(list@)),
        Err(e) => Err(e),
    }
}

/// The views of a sequence of string slices.
pub open spec fn str_views(list: Seq<&'static str>) -> Seq<Seq<char>> {
    list.map_values(|s: &'static str| s@)
}

/// Whether every byte of a source, and its end, has an offset of 32 bits that is not
/// the largest one: what the parsers that count bytes in 32 bits can address.
pub open spec fn addressable(source: Seq<char>) -> bool {
    encode_utf8(source).len() < u32::MAX
}

/// Whether `source` is addressable.
pub(crate) fn is_addressable(source: &str) -> (fits: bool)
    ensures
        fits == addressable(source@),
{
    source.as_bytes().len() < u32::MAX as usize
}

/// A language plugin that extracts function / method spans from source code.
pub trait LanguageAnalyzer {
    /// What [`LanguageAnalyzer::name`] gives.
    spec fn language(&self) -> Seq<char>;

    /// What [`LanguageAnalyzer::extensions`] gives.
    spec fn own_extensions(&self) -> Seq<Seq<char>>;

    /// Whether [`LanguageAnalyzer::extract_symbols`] may give `symbols`. Most analyzers
    /// have one answer for a source; a parser that looks at more than the source may
    /// leave several.
    spec fn gives(&self, path: Seq<char>, source: Seq<char>, symbols: Extraction) -> bool;

    /// Human-readable language name. Also the key used to address this analyzer
    /// from a config file (matched case-insensitively, e.g. `typescript`).
    fn name(&self) -> (name: &'static str)
        ensures
            name@ == self.language(),
    ;

    /// File extensions (lower-case, without the leading dot) this analyzer
    /// handles.
    fn extensions(&self) -> (list: &'static [&'static str])
        ensures
            str_views(list@) == self.own_extensions(),
    ;

    /// Extracts every function / method defined in `source`. `path` is provided
    /// so analyzers can tune parsing per file kind (e.g. `.ts` vs `.tsx`).
    fn extract_symbols(&self, path: &str, source: &str) -> (symbols: Result<
        Vec<Symbol>,
        AnalyzerError,
    >)
        ensures
            self.gives(path@, source@, symbols_result(symbols)),
    ;
}

/// Whether an analyzer has one answer for a source.
pub open spec fn settled<A: LanguageAnalyzer>(
    analyzer: A,
    path: Seq<char>,
    source: Seq<char>,
) -> bool {
    forall|a: Extraction, b: Extraction| #[trigger]
        analyzer.gives(path, source, a) && #[trigger] analyzer.gives(path, source, b) ==> a == b
}

impl SymbolView {
    /// Whether the line range covers `line`.
    pub open spec fn covers(self, line: int) -> bool {
        self.start_line <= line <= self.end_line
    }
}

impl Symbol {
    /// Whether this symbol's line range covers `line`.
    pub fn covers(&self, line: u32) -> (covered: bool)
        ensures
            covered == self@.covers(line as int),
    {
        self.start_line <= line && line <= self.end_line
    }
}

} // verus!
