use hotcarpet::analyzer::scala::ScalaAnalyzer;
use hotcarpet::analyzer::{LanguageAnalyzer, Symbol};

fn names(source: &str) -> Vec<String> {
    let mut s = ScalaAnalyzer
        .extract_symbols("Test.scala", source)
        .unwrap()
        .into_iter()
        .map(|s| s.name)
        .collect::<Vec<_>>();
    s.sort();
    s
}

fn symbol_named(source: &str, name: &str) -> Option<Symbol> {
    ScalaAnalyzer
        .extract_symbols("Test.scala", source)
        .unwrap()
        .into_iter()
        .find(|s| s.name == name)
}

#[test]
fn extracts_methods_qualified_by_type() {
    let src = r#"
            class Greeter(name: String) {
              def greet(who: String): String = "hi " + who
            }
            object Util {
              def run(): Unit = ()
            }
            trait Speaker {
              def speak(): String = "..."
            }
        "#;
    let got = names(src);
    assert!(got.contains(&"Greeter.greet".to_string()));
    assert!(got.contains(&"Util.run".to_string()));
    assert!(got.contains(&"Speaker.speak".to_string()));
}

#[test]
fn scala_qualifies_nested_types() {
    let src = r#"
            object Outer {
              object Inner {
                def leaf(): Int = 1
              }
            }
        "#;
    assert!(names(src).contains(&"Outer.Inner.leaf".to_string()));
}

#[test]
fn abstract_defs_are_not_recorded() {
    // A bodiless `def` carries no code, like a Go interface signature.
    let src = r#"
            trait T {
              def abstractDef(x: Int): Int
              def concrete(): Int = 1
            }
        "#;
    let got = names(src);
    assert!(!got.contains(&"T.abstractDef".to_string()));
    assert!(got.contains(&"T.concrete".to_string()));
}

#[test]
fn scala_tracks_function_nesting_depth() {
    let src = r#"
            object O {
              def outer(): Int = {
                def inner(): Int = {
                  def deepest(): Int = 1
                  deepest()
                }
                inner()
              }
            }
        "#;
    let depth_of = |name: &str| symbol_named(src, name).map(|s| s.depth);
    assert_eq!(depth_of("O.outer"), Some(1));
    assert_eq!(depth_of("O.inner"), Some(2));
    assert_eq!(depth_of("O.deepest"), Some(3));
}

#[test]
fn scala_labels_lambdas_from_bindings_and_callees() {
    let src = r#"
            object O {
              def run(): Unit = {
                val double = (x: Int) => x * 2
                List(1).map(x => x + 1)
                List(1).foreach { x => println(x) }
              }
            }
        "#;
    let got = names(src);
    assert!(got.contains(&"O.double".to_string()));
    assert!(got.contains(&"O.map()".to_string()));
    assert!(got.contains(&"O.foreach()".to_string()));
}

#[test]
fn labels_partial_function_literals() {
    let src = r#"
            object O {
              def f(xs: List[Int]): List[Int] = xs.collect { case n if n > 0 => n }
              val pf: PartialFunction[Int, Int] = { case n => n }
            }
        "#;
    // The exact set matters: no phantom `<partial>` rows may accompany
    // the named ones.
    let got = names(src);
    assert_eq!(
        got,
        vec![
            "O.collect()".to_string(),
            "O.f".to_string(),
            "O.pf".to_string()
        ]
    );
}

#[test]
fn def_bodied_literals_record_only_the_def() {
    let src = r#"
            object O {
              def receive: PartialFunction[Any, Unit] = {
                case s: String => println(s)
              }
              def f: Int => Int = x => x + 1
            }
        "#;
    // The literal IS the def's body: recording it separately would shadow
    // the def in innermost attribution.
    assert_eq!(names(src), vec!["O.f".to_string(), "O.receive".to_string()]);
}

#[test]
fn labels_colon_argument_lambdas() {
    // Scala 3 fluent syntax: the closure after `map:` has no
    // lambda_expression node of its own.
    let src = "def f(xs: List[Int]) =\n  xs.map: x =>\n    x + 1\n";
    assert!(names(src).contains(&"map()".to_string()));
}

#[test]
fn labels_curried_call_lambdas() {
    let src = r#"
            object O {
              def s(xs: List[Int]): Int = xs.foldLeft(0)((acc, x) => acc + x)
              def t(xs: List[Int]): Int = xs.foldLeft(1) { (acc, x) => acc * x }
            }
        "#;
    let got = names(src);
    assert_eq!(got.iter().filter(|n| *n == "O.foldLeft()").count(), 2);
}

#[test]
fn labels_infix_call_literals() {
    let src = r#"
            object O {
              def f(xs: List[Int]): Unit = xs foreach { x => println(x) }
              def g(xs: List[Int]): List[Int] = xs collect { case n => n }
            }
        "#;
    let got = names(src);
    assert!(got.contains(&"O.foreach()".to_string()));
    assert!(got.contains(&"O.collect()".to_string()));
}

#[test]
fn labels_operator_named_lambda_vals() {
    let src = r#"
            object O {
              val ++ = (a: Int) => a + 1
            }
        "#;
    assert!(names(src).contains(&"O.++".to_string()));
}

#[test]
fn qualifies_given_members() {
    let src = r#"
            given intOrd: Ordering[Int] with {
              def compare(a: Int, b: Int): Int = a - b
            }
        "#;
    assert!(names(src).contains(&"intOrd.compare".to_string()));
}

#[test]
fn qualifies_package_object_members() {
    let src = r#"
            package object util {
              def helper: Int = 1
            }
        "#;
    assert!(names(src).contains(&"util.helper".to_string()));
}

#[test]
fn qualifies_enum_case_body_members() {
    let src = r#"
            enum Color {
              case Red extends Color {
                def d: Int = 1
              }
              case Green
            }
        "#;
    assert!(names(src).contains(&"Color.Red.d".to_string()));
}

#[test]
fn scopes_anonymous_class_members_by_type() {
    let src = r#"
            object O {
              def run(): Unit = ()
              val r = new Runnable {
                def run(): Unit = ()
              }
            }
        "#;
    // The anonymous instance's method must not merge with the enclosing
    // object's own `run`.
    let got = names(src);
    assert!(got.contains(&"O.run".to_string()));
    assert!(got.contains(&"O.Runnable.run".to_string()));
}

#[test]
fn indented_body_range_stops_at_last_content_line() {
    // A brace-less body has no closing token, so its node swallows the
    // trailing blank line and the next member's doc comment. Neither may
    // count toward the def's range.
    let src = "object O:\n  def a(): Int =\n    1\n\n  /** doc */\n  def b(): Int =\n    2\n";
    let a = symbol_named(src, "O.a").unwrap();
    assert_eq!((a.start_line, a.end_line), (2, 3));
    let b = symbol_named(src, "O.b").unwrap();
    assert_eq!((b.start_line, b.end_line), (6, 7));
}

#[test]
fn match_bodies_are_not_functions() {
    let src = r#"
            object O {
              def g(x: Int): Int = x match {
                case 0 => 0
                case _ => 1
              }
            }
        "#;
    // Only the enclosing def is recorded; the match's case block is not a
    // partial-function literal.
    assert_eq!(names(src), vec!["O.g".to_string()]);
}

#[test]
fn scala_secondary_constructor_is_labelled() {
    let src = r#"
            class C(x: Int) {
              def this() = this(0)
            }
        "#;
    assert!(names(src).contains(&"C.<constructor>".to_string()));
}

#[test]
fn extracts_enum_methods() {
    let src = r#"
            enum Color {
              case Red, Green
              def describe(): String = "c"
            }
        "#;
    assert!(names(src).contains(&"Color.describe".to_string()));
}

#[test]
fn extracts_top_level_defs() {
    // Scala 3 allows top-level definitions; they are unqualified.
    let src = "def top(): Int = 1\n";
    assert!(names(src).contains(&"top".to_string()));
}

#[test]
fn scala_records_multi_line_method_range() {
    let src = "object O {\n  def m(): Int = {\n    1\n  }\n}\n";
    let m = symbol_named(src, "O.m").unwrap();
    assert_eq!(m.start_line, 2);
    assert_eq!(m.end_line, 4);
}

#[test]
fn scala_invalid_source_is_an_error() {
    assert!(
        ScalaAnalyzer
            .extract_symbols("Bad.scala", "object O { def f( = ")
            .is_err()
    );
}

#[test]
fn scala_empty_and_declaration_only_sources_have_no_symbols() {
    assert!(
        ScalaAnalyzer
            .extract_symbols("Empty.scala", "")
            .unwrap()
            .is_empty()
    );
    assert!(
        ScalaAnalyzer
            .extract_symbols("Data.scala", "case class P(x: Int, y: Int)\n")
            .unwrap()
            .is_empty()
    );
}
