use hotcarpet::analyzer::LanguageAnalyzer;
use hotcarpet::analyzer::outline::outline_symbols;
use hotcarpet::analyzer::tree::SourceTree;
use hotcarpet::analyzer::typescript::{Callee, TsPart, TypeScriptAnalyzer, outline};

fn names(source: &str) -> Vec<String> {
    let mut s = TypeScriptAnalyzer
        .extract_symbols("test.ts", source)
        .unwrap()
        .into_iter()
        .map(|s| s.name)
        .collect::<Vec<_>>();
    s.sort();
    s
}

#[test]
fn extracts_named_functions_and_methods() {
    let src = r#"
            function top() { return 1; }
            const arrow = () => 2;
            class Greeter {
                constructor() {}
                greet(name: string) { return `hi ${name}`; }
                get value() { return 3; }
                handler = () => 4;
            }
        "#;
    let got = names(src);
    assert!(got.contains(&"top".to_string()));
    assert!(got.contains(&"arrow".to_string()));
    assert!(got.contains(&"Greeter.constructor".to_string()));
    assert!(got.contains(&"Greeter.greet".to_string()));
    assert!(got.contains(&"Greeter.value".to_string()));
    assert!(got.contains(&"Greeter.handler".to_string()));
}

#[test]
fn labels_callback_arguments_with_callee() {
    let src = r#"
            describe("suite", () => {
                it("works", () => {});
            });
            const memo = useMemo(() => compute(), []);
            arr.map((x) => x + 1);
        "#;
    let got = names(src);
    assert!(got.contains(&"describe()".to_string()));
    assert!(got.contains(&"it()".to_string()));
    assert!(got.contains(&"useMemo()".to_string()));
    assert!(got.contains(&"map()".to_string()));
    // No bare "<arrow>" should remain for these named-callee cases.
    assert!(!got.contains(&"<arrow>".to_string()));
}

#[test]
fn typescript_tracks_function_nesting_depth() {
    let src = r#"
            function outer() {
                function inner() {
                    const deepest = () => 1;
                }
            }
            class C {
                method() {
                    function helper() {}
                }
            }
        "#;
    let syms = TypeScriptAnalyzer.extract_symbols("d.ts", src).unwrap();
    let depth_of = |name: &str| syms.iter().find(|s| s.name == name).map(|s| s.depth);
    assert_eq!(depth_of("outer"), Some(1));
    assert_eq!(depth_of("inner"), Some(2));
    assert_eq!(depth_of("deepest"), Some(3));
    // A top-level class's methods are depth 1; classes don't add a level.
    assert_eq!(depth_of("C.method"), Some(1));
    assert_eq!(depth_of("C.helper"), Some(2));
}

#[test]
fn typescript_records_plausible_line_ranges() {
    let src = "function a() {\n  return 1;\n}\n";
    let syms = TypeScriptAnalyzer.extract_symbols("a.ts", src).unwrap();
    let a = syms.iter().find(|s| s.name == "a").unwrap();
    assert_eq!(a.start_line, 1);
    assert_eq!(a.end_line, 3);
}

#[test]
fn unnamed_functions_get_placeholders() {
    let src = "export default function () {}\n(() => 1);\n(class { m() {} });\n";
    let got = names(src);
    assert_eq!(got, vec!["<anonymous class>.m", "<anonymous>", "<arrow>"]);
}

#[test]
fn a_member_leaves_no_hint_behind() {
    // The field's name is not handed on to the class expression's sibling.
    let src = "const x = [class { field = 1; }, () => 2];\n";
    assert_eq!(names(src), vec!["<arrow>"]);
}

#[test]
fn an_unknown_extension_is_read_as_tsx() {
    let src = "const View = () => <div>{items.map((i: number) => i)}</div>;\n";
    let syms = TypeScriptAnalyzer.extract_symbols("view.vue", src).unwrap();
    let got: Vec<&str> = syms.iter().map(|s| s.name.as_str()).collect();
    assert_eq!(got, vec!["View", "map()"]);
    // The same text is no TypeScript without JSX: the path tells the dialect.
    assert!(TypeScriptAnalyzer.extract_symbols("view.ts", src).unwrap().is_empty());
}

#[test]
fn dynamic_callees_and_keys_offer_no_name() {
    let src = "f()(() => 1);\nclass C { [key]() {} 'quoted'() {} #secret() {} }\n";
    let got = names(src);
    assert_eq!(got, vec!["<arrow>", "C.<anonymous>", "C.quoted", "C.secret"]);
}

fn part(data: TsPart, children: Vec<SourceTree<TsPart>>) -> SourceTree<TsPart> {
    SourceTree { data, children }
}

#[test]
fn typescript_parts_become_symbols() {
    let source = "class C {\n  m() {}\n}\nrun(() => {\n});\n";
    let method = part(TsPart::Function { name: None, start: 13, end: 18 }, vec![]);
    let member = part(TsPart::Member { name: Some("m".to_string()) }, vec![method]);
    let class = part(TsPart::Class { name: Some("C".to_string()) }, vec![member]);
    let arrow = part(TsPart::Arrow { start: 25, end: 35 }, vec![]);
    let callee = Callee::Identifier("run".to_string());
    let call = part(TsPart::Call { callee }, vec![arrow]);
    let symbols = outline_symbols(&outline(&vec![class, call], source)).unwrap();
    let rows: Vec<(&str, u32, u32, u32)> = symbols
        .iter()
        .map(|s| (s.name.as_str(), s.start_line, s.end_line, s.depth))
        .collect();
    assert_eq!(rows, vec![("C.m", 2, 2, 1), ("run()", 4, 5, 1)]);
    assert_eq!(
        TypeScriptAnalyzer.extract_symbols("a.ts", source).unwrap().len(),
        symbols.len()
    );
}

#[test]
fn object_properties_offer_their_name() {
    assert_eq!(names("const o = { handler: () => 1 };\n"), vec!["handler"]);
    let src = "const o = { 'a': function () {}, m() {}, get v() { return 1; } };\n";
    assert_eq!(names(src), vec!["a", "m", "v"]);
    // A key that is not there in the source offers none, and none is left behind.
    assert_eq!(names("const o = { [k]: () => 1 };\n"), vec!["<arrow>"]);
    assert_eq!(names("f({ on: 1 }, () => 2);\n"), vec!["f()"]);
}
