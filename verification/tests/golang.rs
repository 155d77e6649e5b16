use hotcarpet::analyzer::golang::GoAnalyzer;
use hotcarpet::analyzer::{LanguageAnalyzer, Symbol};

fn names(source: &str) -> Vec<String> {
    let mut s = GoAnalyzer
        .extract_symbols("test.go", source)
        .unwrap()
        .into_iter()
        .map(|s| s.name)
        .collect::<Vec<_>>();
    s.sort();
    s
}

fn symbol_named(source: &str, name: &str) -> Option<Symbol> {
    GoAnalyzer
        .extract_symbols("test.go", source)
        .unwrap()
        .into_iter()
        .find(|s| s.name == name)
}

#[test]
fn golang_extracts_functions_and_methods() {
    let src = r#"
            package main
            func Top() int { return 1 }
            type Greeter struct{ name string }
            func (g *Greeter) Greet(who string) string { return "hi " + who }
            func (g Greeter) Name() string { return g.name }
        "#;
    let got = names(src);
    assert!(got.contains(&"Top".to_string()));
    assert!(got.contains(&"Greeter.Greet".to_string()));
    assert!(got.contains(&"Greeter.Name".to_string()));
}

#[test]
fn labels_closures_from_bindings() {
    let src = r#"
            package main
            func run() {
                doubler := func(x int) int { return x * 2 }
                var named = func() {}
                do(func() {})
                _ = doubler
            }
        "#;
    let got = names(src);
    assert!(got.contains(&"doubler".to_string()));
    assert!(got.contains(&"named".to_string()));
    // The literal passed to `do` is named after its callee.
    assert!(got.contains(&"do()".to_string()));
}

#[test]
fn labels_bare_closure() {
    let src = r#"
            package main
            func run() {
                go func() {}()
            }
        "#;
    assert!(names(src).contains(&"<closure>".to_string()));
}

#[test]
fn qualifies_closures_inside_methods() {
    let src = r#"
            package main
            type S struct{}
            func (s S) Run() {
                cb := func() int { return 1 }
                _ = cb
            }
        "#;
    // The method is depth 1 (the receiver adds no level); the closure it
    // holds is depth 2 and inherits the receiver-type qualification.
    assert_eq!(symbol_named(src, "S.Run").map(|s| s.depth), Some(1));
    assert_eq!(symbol_named(src, "S.cb").map(|s| s.depth), Some(2));
}

#[test]
fn golang_tracks_function_nesting_depth() {
    let src = r#"
            package main
            func outer() {
                inner := func() {
                    deepest := func() int { return 1 }
                    _ = deepest
                }
                _ = inner
            }
        "#;
    let syms = GoAnalyzer.extract_symbols("d.go", src).unwrap();
    let depth_of = |name: &str| syms.iter().find(|s| s.name == name).map(|s| s.depth);
    assert_eq!(depth_of("outer"), Some(1));
    assert_eq!(depth_of("inner"), Some(2));
    assert_eq!(depth_of("deepest"), Some(3));
}

#[test]
fn extracts_generic_functions() {
    // A type-parameter list sits between the name and the body; the name is
    // still recorded.
    let src = r#"
            package main
            func Map[T any, U any](s []T, f func(T) U) []U { return nil }
        "#;
    assert!(names(src).contains(&"Map".to_string()));
}

#[test]
fn labels_closure_from_selector_callee() {
    // A literal passed to a member call `t.Run(...)` is named after the
    // trailing selector segment, matching the TypeScript analyzer.
    let src = r#"
            package main
            func run(t T) {
                t.Run(func() {})
                pkg.sub.Do(func() {})
            }
        "#;
    let got = names(src);
    assert!(got.contains(&"Run()".to_string()));
    assert!(got.contains(&"Do()".to_string()));
}

#[test]
fn labels_closures_in_var_block() {
    // A grouped `var ( ... )` declaration wraps each spec in a var_spec_list;
    // the closure it binds is still named.
    let src = r#"
            package main
            var (
                first  = func() {}
                second = func() int { return 1 }
            )
        "#;
    let got = names(src);
    assert!(got.contains(&"first".to_string()));
    assert!(got.contains(&"second".to_string()));
}

#[test]
fn interface_method_signatures_are_not_recorded() {
    // Interface methods are bodiless signatures (`method_elem`, not
    // `method_declaration`); dig-down tracks only things with a body, so they
    // are intentionally absent from the leaderboard.
    let src = r#"
            package main
            type Reader interface {
                Read(p []byte) (int, error)
            }
        "#;
    assert!(names(src).is_empty());
}

#[test]
fn golang_records_multi_line_method_range() {
    // The recorded span runs from the `func` keyword to the closing brace.
    let src = "package main\ntype C struct{}\nfunc (c C) M() int {\n    return 1\n}\n";
    let m = symbol_named(src, "C.M").unwrap();
    assert_eq!(m.start_line, 3);
    assert_eq!(m.end_line, 5);
}

#[test]
fn strips_pointer_and_generic_receivers() {
    let src = r#"
            package main
            type Stack[T any] struct{ items []T }
            func (s *Stack[T]) Push(v T) { s.items = append(s.items, v) }
        "#;
    assert!(names(src).contains(&"Stack.Push".to_string()));
}

#[test]
fn labels_struct_field_closures() {
    let src = r#"
            package main
            type Server struct{ handler func() }
            func build() Server {
                return Server{ handler: func() {} }
            }
        "#;
    assert!(names(src).contains(&"handler".to_string()));
}

#[test]
fn golang_records_plausible_line_ranges() {
    let src = "package main\nfunc a() int {\n    return 1\n}\n";
    let a = symbol_named(src, "a").unwrap();
    assert_eq!(a.start_line, 2);
    assert_eq!(a.end_line, 4);
}

#[test]
fn package_level_closure_is_unqualified() {
    let src = "package main\nvar handler = func() {}\n";
    assert!(names(src).contains(&"handler".to_string()));
}

#[test]
fn golang_invalid_source_is_an_error() {
    assert!(
        GoAnalyzer
            .extract_symbols("bad.go", "package main\nfunc (")
            .is_err()
    );
}

#[test]
fn golang_empty_and_declaration_only_sources_have_no_symbols() {
    assert!(
        GoAnalyzer
            .extract_symbols("empty.go", "package main\n")
            .unwrap()
            .is_empty()
    );
    assert!(
        GoAnalyzer
            .extract_symbols(
                "data.go",
                "package main\ntype T struct{ x int }\nconst K = 1\n"
            )
            .unwrap()
            .is_empty()
    );
}
