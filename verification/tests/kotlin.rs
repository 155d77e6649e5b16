use hotcarpet::analyzer::kotlin::KotlinAnalyzer;
use hotcarpet::analyzer::{AnalyzerError, LanguageAnalyzer, Symbol};

fn names(source: &str) -> Vec<String> {
    let mut s = KotlinAnalyzer
        .extract_symbols("test.kt", source)
        .unwrap()
        .into_iter()
        .map(|s| s.name)
        .collect::<Vec<_>>();
    s.sort();
    s
}

fn symbol_named(source: &str, name: &str) -> Option<Symbol> {
    KotlinAnalyzer
        .extract_symbols("test.kt", source)
        .unwrap()
        .into_iter()
        .find(|s| s.name == name)
}

#[test]
fn kotlin_extracts_functions_and_methods() {
    let src = r#"
            fun top(): Int = 1
            class Greeter(val name: String) {
                fun greet(who: String): String = "hi " + who
            }
            object Util {
                fun run() {}
            }
        "#;
    let got = names(src);
    assert!(got.contains(&"top".to_string()));
    assert!(got.contains(&"Greeter.greet".to_string()));
    assert!(got.contains(&"Util.run".to_string()));
}

#[test]
fn companion_object_adds_no_segment() {
    // Companion members are called as `Greeter.create()`, so they are
    // qualified by the class alone.
    let src = r#"
            class Greeter {
                companion object {
                    fun create(): Greeter = Greeter()
                }
            }
        "#;
    assert!(names(src).contains(&"Greeter.create".to_string()));
}

#[test]
fn kotlin_qualifies_nested_types() {
    let src = r#"
            class Outer {
                class Inner {
                    fun leaf(): Int = 1
                }
            }
        "#;
    assert!(names(src).contains(&"Outer.Inner.leaf".to_string()));
}

#[test]
fn bodiless_signatures_are_not_recorded() {
    // Abstract / interface signatures carry no code, like Go interface
    // methods; default methods with a body are recorded.
    let src = r#"
            interface I {
                fun sig(x: Int): Int
                fun withBody(): Int = 1
            }
        "#;
    let got = names(src);
    assert!(!got.contains(&"I.sig".to_string()));
    assert!(got.contains(&"I.withBody".to_string()));
}

#[test]
fn kotlin_tracks_function_nesting_depth() {
    let src = r#"
            fun outer(): Int {
                fun inner(): Int {
                    fun deepest(): Int = 1
                    return deepest()
                }
                return inner()
            }
        "#;
    let depth_of = |name: &str| symbol_named(src, name).map(|s| s.depth);
    assert_eq!(depth_of("outer"), Some(1));
    assert_eq!(depth_of("inner"), Some(2));
    assert_eq!(depth_of("deepest"), Some(3));
}

#[test]
fn kotlin_labels_lambdas_from_bindings_and_callees() {
    let src = r#"
            fun run() {
                val double = { x: Int -> x * 2 }
                val anon = fun(x: Int): Int = x
                listOf(1).map { it + 1 }
            }
        "#;
    let got = names(src);
    assert!(got.contains(&"double".to_string()));
    assert!(got.contains(&"anon".to_string()));
    assert!(got.contains(&"map()".to_string()));
}

#[test]
fn qualifies_lambdas_inside_methods() {
    let src = r#"
            class C {
                fun host() {
                    val cb = { 1 }
                }
            }
        "#;
    // The method is depth 1 (the class adds no level); the lambda it holds
    // is depth 2 and inherits the class qualification.
    assert_eq!(symbol_named(src, "C.host").map(|s| s.depth), Some(1));
    assert_eq!(symbol_named(src, "C.cb").map(|s| s.depth), Some(2));
}

#[test]
fn labels_property_accessors() {
    let src = r#"
            class C {
                val prop: Int
                    get() = 1
                var mut: Int = 0
                    set(value) {
                        field = value
                    }
                val inline: Int get() = 2
            }
        "#;
    // The next-line accessors parse as siblings of their property; the
    // same-line one nests inside it. Both forms carry the property name.
    let got = names(src);
    assert!(got.contains(&"C.prop.get".to_string()));
    assert!(got.contains(&"C.mut.set".to_string()));
    assert!(got.contains(&"C.inline.get".to_string()));
    assert!(!got.contains(&"C.<get>".to_string()));
}

#[test]
fn delegated_property_lambda_keeps_property_name() {
    let src = r#"
            class C {
                val config by lazy {
                    1
                }
            }
        "#;
    let got = names(src);
    assert!(got.contains(&"C.config".to_string()));
    assert!(!got.contains(&"C.lazy()".to_string()));
}

#[test]
fn records_init_blocks() {
    let src = r#"
            class C(n: Int) {
                init {
                    require(n > 0)
                }
            }
        "#;
    let init = symbol_named(src, "C.<init>").unwrap();
    assert_eq!(init.depth, 1);
    assert_eq!((init.start_line, init.end_line), (3, 5));
}

#[test]
fn labels_infix_call_lambdas() {
    let src = r#"
            fun run(xs: List<Int>) {
                xs forEach2 { println(it) }
            }
        "#;
    assert!(names(src).contains(&"forEach2()".to_string()));
}

#[test]
fn scopes_object_literal_members_by_supertype() {
    let src = r#"
            class C {
                fun run() {}
                val r = object : Runnable {
                    override fun run() {}
                }
            }
        "#;
    // The anonymous object's override must not merge with the enclosing
    // class's own `run`.
    let got = names(src);
    assert!(got.contains(&"C.run".to_string()));
    assert!(got.contains(&"C.Runnable.run".to_string()));
}

#[test]
fn kotlin_secondary_constructor_is_labelled() {
    let src = r#"
            class C(val x: Int) {
                constructor() : this(0)
            }
        "#;
    assert!(names(src).contains(&"C.<constructor>".to_string()));
}

#[test]
fn qualifies_enum_entry_overrides() {
    let src = r#"
            enum class Op {
                ADD {
                    override fun apply(a: Int, b: Int) = a + b
                },
                SUB {
                    override fun apply(a: Int, b: Int) = a - b
                };
                abstract fun apply(a: Int, b: Int): Int
            }
        "#;
    // Each entry scopes its override, so the two overrides stay distinct
    // leaderboard rows. The abstract signature has no body and is not
    // recorded.
    let got = names(src);
    assert!(got.contains(&"Op.ADD.apply".to_string()));
    assert!(got.contains(&"Op.SUB.apply".to_string()));
    assert!(!got.contains(&"Op.apply".to_string()));
}

#[test]
fn extracts_extension_functions() {
    let src = r#"fun String.shout(): String = this + "!""#;
    assert!(names(src).contains(&"shout".to_string()));
}

#[test]
fn kotlin_records_multi_line_method_range() {
    let src = "class C {\n    fun m(): Int {\n        return 1\n    }\n}\n";
    let m = symbol_named(src, "C.m").unwrap();
    assert_eq!(m.start_line, 2);
    assert_eq!(m.end_line, 4);
}

#[test]
fn kotlin_invalid_source_is_an_error() {
    assert!(
        KotlinAnalyzer
            .extract_symbols("bad.kt", "class C { fun (")
            .is_err()
    );
}

#[test]
fn kotlin_empty_and_declaration_only_sources_have_no_symbols() {
    assert!(
        KotlinAnalyzer
            .extract_symbols("empty.kt", "")
            .unwrap()
            .is_empty()
    );
    assert!(
        KotlinAnalyzer
            .extract_symbols("data.kt", "data class P(val x: Int, val y: Int)\n")
            .unwrap()
            .is_empty()
    );
}

#[test]
fn kotlin_letters_need_not_be_ascii() {
    let src = "// h\u{e4}h\nfun f() { val s = \"\u{fc}\" }\n";
    assert_eq!(names(src), vec!["f"]);
}

#[test]
fn kotlin_sources_with_too_many_strings_are_refused() {
    let call = |n: usize| format!("fun f() {{\n{}}}\n", "  g(\"\")\n".repeat(n));
    assert_eq!(names(&call(256)), vec!["f"]);
    let refused = KotlinAnalyzer.extract_symbols("a.kt", &call(257));
    assert_eq!(refused.unwrap_err(), AnalyzerError::Strings);
    let nested = "\"${".repeat(513);
    let refused = KotlinAnalyzer.extract_symbols("a.kt", &nested);
    assert_eq!(refused.unwrap_err(), AnalyzerError::Strings);
}
