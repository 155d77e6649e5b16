use hotcarpet::analyzer::LanguageAnalyzer;
use hotcarpet::analyzer::extension::{extension_of, normalize_ext};
use hotcarpet::analyzer::kotlin::KotlinAnalyzer;
use hotcarpet::analyzer::lines::LineIndex;
use hotcarpet::analyzer::registry::{AnalyzerRegistry, BuiltinAnalyzer};
use hotcarpet::analyzer::scala::ScalaAnalyzer;
use hotcarpet::config::{AnalyzerConfig, CONFIG_FILENAME, Config, nearest};
use hotcarpet::lists::dedup_in_place;

#[test]
fn line_index_maps_offsets() {
    // "ab\ncd\n" -> line starts at bytes 0, 3, 6
    let idx = LineIndex::new("ab\ncd\n");
    assert_eq!(idx.line_of(0), 1);
    assert_eq!(idx.line_of(1), 1);
    assert_eq!(idx.line_of(2), 1); // the '\n' belongs to line 1
    assert_eq!(idx.line_of(3), 2);
    assert_eq!(idx.line_of(5), 2);
}

#[test]
fn line_index_counts_bytes_and_lines_past_the_end() {
    let idx = LineIndex::new("é\nx");
    assert_eq!(idx.line_of(2), 1);
    assert_eq!(idx.line_of(3), 2);
    assert_eq!(idx.line_of(400), 2);
    assert_eq!(LineIndex::new("").line_of(0), 1);
}

#[test]
fn extension_lookup() {
    assert_eq!(extension_of("src/a.TS").as_deref(), Some("ts"));
    assert_eq!(extension_of("Makefile"), None);
}

#[test]
fn extensions_follow_the_last_component() {
    assert_eq!(extension_of(".bashrc"), None);
    assert_eq!(extension_of("a.tar.GZ").as_deref(), Some("gz"));
    assert_eq!(extension_of("dir.d/file"), None);
    assert_eq!(extension_of("a.ts/").as_deref(), Some("ts"));
    assert_eq!(extension_of("a.ts/.").as_deref(), Some("ts"));
    assert_eq!(extension_of("a.ts/.."), None);
    assert_eq!(extension_of("a."), Some(String::new()));
    assert_eq!(extension_of(""), None);
    assert_eq!(extension_of("./."), None);
}

#[test]
fn extensions_are_normalized() {
    assert_eq!(normalize_ext(" .VUE\t").as_deref(), Some("vue"));
    assert_eq!(normalize_ext("\u{3000}..d.Ts").as_deref(), Some("d.ts"));
    assert_eq!(normalize_ext(" . "), None);
    assert_eq!(normalize_ext(""), None);
}

#[test]
fn duplicates_keep_their_first_place() {
    let mut list: Vec<String> = ["b", "a", "b", "c", "a"].iter().map(|s| s.to_string()).collect();
    dedup_in_place(&mut list);
    assert_eq!(list, vec!["b", "a", "c"]);
}

fn config_with(name: &str, cfg: AnalyzerConfig) -> Config {
    Config { analyzers: vec![(name.to_string(), cfg)] }
}

fn analyzer_name(
    registry: &AnalyzerRegistry<BuiltinAnalyzer>,
    path: &str,
) -> Option<&'static str> {
    registry.for_path(path).map(|a| a.name())
}

#[test]
fn builtin_extensions_route_to_typescript() {
    let registry = AnalyzerRegistry::with_builtins();
    assert_eq!(analyzer_name(&registry, "a.ts"), Some("TypeScript"));
    assert_eq!(analyzer_name(&registry, "a.vue"), None);
}

#[test]
fn builtin_extensions_route_to_rust() {
    let registry = AnalyzerRegistry::with_builtins();
    assert_eq!(analyzer_name(&registry, "a.rs"), Some("Rust"));
}

#[test]
fn every_shipped_language_is_routed() {
    let registry = AnalyzerRegistry::with_builtins();
    assert_eq!(analyzer_name(&registry, "a.go"), Some("Go"));
    assert_eq!(analyzer_name(&registry, "a.kt"), None);
    assert_eq!(analyzer_name(&registry, "A.scala"), None);
    for ext in ["ts", "tsx", "mts", "cts", "js", "jsx", "mjs", "cjs"] {
        assert_eq!(analyzer_name(&registry, &format!("x.{ext}")), Some("TypeScript"));
    }
}

#[test]
fn kotlin_and_scala_are_routed_once_registered() {
    let mut registry = AnalyzerRegistry::with_builtins();
    registry.register(BuiltinAnalyzer::Kotlin(KotlinAnalyzer));
    registry.register(BuiltinAnalyzer::Scala(ScalaAnalyzer));
    assert_eq!(analyzer_name(&registry, "a.kt"), Some("Kotlin"));
    assert_eq!(analyzer_name(&registry, "build.gradle.kts"), Some("Kotlin"));
    assert_eq!(analyzer_name(&registry, "A.scala"), Some("Scala"));
    assert_eq!(analyzer_name(&registry, "A.sc"), Some("Scala"));
    assert_eq!(analyzer_name(&registry, "a.go"), Some("Go"));
}

#[test]
fn extra_extensions_add_to_defaults() {
    let mut registry = AnalyzerRegistry::with_builtins();
    registry.apply_config(&config_with(
        // analyzer name is matched case-insensitively
        "typescript",
        AnalyzerConfig {
            extensions: None,
            extra_extensions: vec![".VUE".to_string()],
            ..AnalyzerConfig::default()
        },
    ));
    // the new extension is normalized and routed...
    assert_eq!(analyzer_name(&registry, "a.vue"), Some("TypeScript"));
    // ...and the built-in extensions still work.
    assert_eq!(analyzer_name(&registry, "a.ts"), Some("TypeScript"));
}

#[test]
fn extensions_replace_defaults() {
    let mut registry = AnalyzerRegistry::with_builtins();
    registry.apply_config(&config_with(
        "TypeScript",
        AnalyzerConfig {
            extensions: Some(vec!["ts".to_string(), "tsx".to_string()]),
            extra_extensions: vec![],
            ..AnalyzerConfig::default()
        },
    ));
    assert_eq!(analyzer_name(&registry, "a.ts"), Some("TypeScript"));
    // `.js` was in the defaults but is dropped by the replacement.
    assert_eq!(analyzer_name(&registry, "a.js"), None);
}

#[test]
fn unknown_analyzer_is_ignored() {
    let mut registry = AnalyzerRegistry::with_builtins();
    let unknown = registry.apply_config(&config_with(
        "python",
        AnalyzerConfig {
            extensions: Some(vec!["py".to_string()]),
            extra_extensions: vec![],
            ..AnalyzerConfig::default()
        },
    ));
    // No analyzer named "python"; the entry is skipped, defaults unchanged.
    assert_eq!(analyzer_name(&registry, "a.py"), None);
    assert_eq!(analyzer_name(&registry, "a.ts"), Some("TypeScript"));
    assert_eq!(unknown, vec!["python"]);
}

#[test]
fn a_disabled_analyzer_handles_nothing() {
    let mut registry = AnalyzerRegistry::with_builtins();
    let off = AnalyzerConfig {
        enabled: false,
        extra_extensions: vec!["rs2".to_string()],
        ..AnalyzerConfig::default()
    };
    assert!(registry.apply_config(&config_with("rust", off)).is_empty());
    assert_eq!(analyzer_name(&registry, "a.rs"), None);
    assert_eq!(analyzer_name(&registry, "a.rs2"), None);
    assert_eq!(analyzer_name(&registry, "a.ts"), Some("TypeScript"));
}

#[test]
fn the_first_registration_wins() {
    let mut registry = AnalyzerRegistry::with_builtins();
    let greedy = AnalyzerConfig {
        extra_extensions: vec!["ts".to_string(), "zig".to_string()],
        ..AnalyzerConfig::default()
    };
    registry.apply_config(&config_with("go", greedy));
    assert_eq!(analyzer_name(&registry, "a.ts"), Some("TypeScript"));
    assert_eq!(analyzer_name(&registry, "a.zig"), Some("Go"));
}

#[test]
fn the_last_override_starts_from_the_built_in_list() {
    let mut registry = AnalyzerRegistry::with_builtins();
    let config = Config {
        analyzers: vec![
            (
                "go".to_string(),
                AnalyzerConfig {
                    extensions: Some(vec!["x".to_string()]),
                    ..AnalyzerConfig::default()
                },
            ),
            ("GO".to_string(), AnalyzerConfig::default()),
        ],
    };
    registry.apply_config(&config);
    assert_eq!(analyzer_name(&registry, "a.x"), None);
    assert_eq!(analyzer_name(&registry, "a.go"), Some("Go"));
}

#[test]
fn an_explicit_config_path_outranks_a_found_one() {
    assert_eq!(Config::resolve(Some("a.toml"), Some("b.toml")), Some("a.toml"));
    assert_eq!(Config::resolve(None, Some("b.toml")), Some("b.toml"));
    assert_eq!(Config::resolve(None, None), None);
    assert_eq!(CONFIG_FILENAME, ".hotcarpet.toml");
}

#[test]
fn the_default_config_changes_nothing() {
    let mut registry = AnalyzerRegistry::with_builtins();
    assert!(Config::default().analyzers.is_empty());
    assert!(registry.apply_config(&Config::default()).is_empty());
    assert_eq!(analyzer_name(&registry, "a.rs"), Some("Rust"));
}

#[test]
fn the_nearest_config_file_is_taken() {
    assert_eq!(nearest(&vec![false, true, true]), Some(1));
    assert_eq!(nearest(&vec![false, false]), None);
    assert_eq!(nearest(&vec![]), None);
}
