use hotcarpet::analyzer::rust::{PatternLayer, RustAnalyzer, RustPart, TypeLayer, extract};
use hotcarpet::analyzer::tree::SourceTree;
use hotcarpet::analyzer::{AnalyzerError, LanguageAnalyzer, Symbol};

fn names(source: &str) -> Vec<String> {
    let mut s = RustAnalyzer
        .extract_symbols("test.rs", source)
        .unwrap()
        .into_iter()
        .map(|s| s.name)
        .collect::<Vec<_>>();
    s.sort();
    s
}

/// The single symbol named `name`, or `None` if it is absent.
fn symbol_named(source: &str, name: &str) -> Option<Symbol> {
    RustAnalyzer
        .extract_symbols("test.rs", source)
        .unwrap()
        .into_iter()
        .find(|s| s.name == name)
}

#[test]
fn extracts_functions_methods_and_associated_fns() {
    let src = r#"
            fn top() -> i32 { 1 }
            struct Greeter { name: String }
            impl Greeter {
                fn new(name: String) -> Self { Greeter { name } }
                fn greet(&self) -> String { format!("hi {}", self.name) }
            }
            trait Speak {
                fn speak(&self) -> String { "…".to_string() }
            }
        "#;
    let got = names(src);
    assert!(got.contains(&"top".to_string()));
    assert!(got.contains(&"Greeter.new".to_string()));
    assert!(got.contains(&"Greeter.greet".to_string()));
    assert!(got.contains(&"Speak.speak".to_string()));
}

#[test]
fn qualifies_names_by_module() {
    let src = r#"
            mod parser {
                fn tokenize() {}
                impl Lexer {
                    fn next(&mut self) {}
                }
            }
        "#;
    let got = names(src);
    assert!(got.contains(&"parser.tokenize".to_string()));
    assert!(got.contains(&"parser.Lexer.next".to_string()));
}

#[test]
fn labels_closures_from_let_bindings() {
    let src = r#"
            fn run() {
                let doubler = |x: i32| x * 2;
                [1, 2, 3].iter().map(|n| n + 1);
            }
        "#;
    let got = names(src);
    assert!(got.contains(&"doubler".to_string()));
    // The bare closure passed to `map` has no binding name.
    assert!(got.contains(&"<closure>".to_string()));
}

#[test]
fn rust_tracks_function_nesting_depth() {
    let src = r#"
            fn outer() {
                fn inner() {
                    let deepest = || 1;
                }
            }
            impl C {
                fn method() {
                    fn helper() {}
                }
            }
        "#;
    let syms = RustAnalyzer.extract_symbols("d.rs", src).unwrap();
    let depth_of = |name: &str| syms.iter().find(|s| s.name == name).map(|s| s.depth);
    assert_eq!(depth_of("outer"), Some(1));
    assert_eq!(depth_of("inner"), Some(2));
    assert_eq!(depth_of("deepest"), Some(3));
    // A top-level impl's methods are depth 1; the impl doesn't add a level.
    assert_eq!(depth_of("C.method"), Some(1));
    assert_eq!(depth_of("C.helper"), Some(2));
}

#[test]
fn rust_records_plausible_line_ranges() {
    let src = "fn a() {\n    1\n}\n";
    let syms = RustAnalyzer.extract_symbols("a.rs", src).unwrap();
    let a = syms.iter().find(|s| s.name == "a").unwrap();
    assert_eq!(a.start_line, 1);
    assert_eq!(a.end_line, 3);
}

#[test]
fn rust_invalid_source_is_an_error() {
    assert!(RustAnalyzer.extract_symbols("bad.rs", "fn (").is_err());
}

#[test]
fn trait_impl_qualifies_by_self_type_not_trait() {
    // `impl Display for Point` — the method belongs to `Point`, the concrete
    // type being implemented, not to the `Display` trait.
    let src = r#"
            struct Point;
            impl Display for Point {
                fn fmt(&self, f: &mut Formatter) -> Result { Ok(()) }
            }
        "#;
    let got = names(src);
    assert!(got.contains(&"Point.fmt".to_string()));
    assert!(!got.contains(&"Display.fmt".to_string()));
}

#[test]
fn unwraps_generic_and_reference_self_types() {
    // `impl<T> Wrapper<T>` and `impl Trait for &Thing` should both reduce to
    // the bare type name.
    let src = r#"
            impl<T> Wrapper<T> {
                fn get(&self) -> &T { &self.0 }
            }
            impl Speak for &Thing {
                fn speak(&self) {}
            }
        "#;
    let got = names(src);
    assert!(got.contains(&"Wrapper.get".to_string()));
    assert!(got.contains(&"Thing.speak".to_string()));
}

#[test]
fn labels_closure_from_typed_let_binding() {
    // A `let` with a type annotation (`Pat::Type`) still yields the binding
    // name for the closure it initializes.
    let src = r#"
            fn run() {
                let make: fn() -> i32 = || 1;
            }
        "#;
    let got = names(src);
    assert!(got.contains(&"make".to_string()));
    assert!(!got.contains(&"<closure>".to_string()));
}

#[test]
fn qualifies_by_nested_modules() {
    let src = r#"
            mod a {
                mod b {
                    fn c() {}
                }
            }
        "#;
    assert!(names(src).contains(&"a.b.c".to_string()));
}

#[test]
fn closure_inside_method_is_qualified_and_nested() {
    let src = r#"
            struct S;
            impl S {
                fn run(&self) {
                    let cb = || 1;
                }
            }
        "#;
    // The method sits at depth 1 (impl adds no level); the closure it holds
    // is depth 2 and inherits the impl-type qualification.
    assert_eq!(symbol_named(src, "S.run").map(|s| s.depth), Some(1));
    assert_eq!(symbol_named(src, "S.cb").map(|s| s.depth), Some(2));
}

#[test]
fn records_trait_method_without_default_body() {
    // A signature-only trait method has no body but still occupies a line and
    // is recorded so history that touches the declaration is attributed.
    let src = r#"
            trait Draw {
                fn draw(&self);
            }
        "#;
    assert!(names(src).contains(&"Draw.draw".to_string()));
}

#[test]
fn empty_source_has_no_symbols() {
    assert!(
        RustAnalyzer
            .extract_symbols("empty.rs", "")
            .unwrap()
            .is_empty()
    );
    // A file with only non-function items yields nothing either.
    assert!(
        RustAnalyzer
            .extract_symbols("data.rs", "struct S { x: i32 }\nconst K: i32 = 1;\n")
            .unwrap()
            .is_empty()
    );
}

fn part(data: RustPart, children: Vec<SourceTree<RustPart>>) -> SourceTree<RustPart> {
    SourceTree { data, children }
}

#[test]
fn rust_parts_become_symbols() {
    // impl &Lexer { fn next() { let f: F = || ..; } } and, after it, a bare closure.
    let closure = part(RustPart::Closure { at: 1 }, vec![]);
    let pattern = vec![PatternLayer::Typed, PatternLayer::Ident("f".to_string())];
    let local = part(RustPart::Local { pattern }, vec![closure]);
    let next = RustPart::Function { name: "next".to_string(), at: 0 };
    let path = TypeLayer::Path(vec!["parser".to_string(), "Lexer".to_string()]);
    let self_type = vec![TypeLayer::Around, path];
    let block = part(RustPart::Impl { self_type }, vec![part(next, vec![local])]);
    let bare = part(RustPart::Closure { at: 2 }, vec![]);
    let trees = vec![block, bare];
    let symbols = extract(&trees, &vec![(2, 5), (3, 4), (8, 8)]).unwrap();
    let rows: Vec<(&str, u32, u32, u32)> = symbols
        .iter()
        .map(|s| (s.name.as_str(), s.start_line, s.end_line, s.depth))
        .collect();
    assert_eq!(
        rows,
        vec![("Lexer.next", 2, 5, 1), ("Lexer.f", 3, 4, 2), ("<closure>", 8, 8, 1)]
    );
    // A closure without lines is no part of a file.
    let short = extract(&trees, &vec![(2, 5), (3, 4)]);
    assert_eq!(short.unwrap_err(), AnalyzerError::Malformed);
}

#[test]
fn lines_are_those_of_the_whole_definition() {
    let src = "/// Doc.\n#[inline]\npub fn a(\n) {\n    let f = |x: i32|\n        -1\n    ;\n}\n";
    let a = symbol_named(src, "a").unwrap();
    assert_eq!((a.start_line, a.end_line), (1, 8));
    let f = symbol_named(src, "f").unwrap();
    assert_eq!((f.start_line, f.end_line), (5, 6));
    let script = "#!/usr/bin/env run\nfn main() {}\n";
    assert_eq!(symbol_named(script, "main").unwrap().start_line, 2);
}

#[test]
fn a_type_without_a_name_gets_a_placeholder() {
    assert!(names("impl T for (u8, u8) { fn f() {} }").contains(&"<type>.f".to_string()));
    assert!(names("impl T for (Foo) { fn f() {} }").contains(&"Foo.f".to_string()));
}

#[test]
fn a_second_parse_starts_at_line_one_again() {
    let first = symbol_named("\n\nfn a() {\n}\n", "a").unwrap();
    let second = symbol_named("fn b() {}\n", "b").unwrap();
    assert_eq!((first.start_line, first.end_line), (3, 4));
    assert_eq!((second.start_line, second.end_line), (1, 1));
}
