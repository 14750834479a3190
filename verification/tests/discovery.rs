use crowbar::discover::discover;
use crowbar::front::parse;
use crowbar::model::{SemanticType, VariableValue};
use crowbar::tokens::SyntaxTree;

fn tree_of(src: &str) -> SyntaxTree {
    parse(src).expect("source should parse")
}

#[test]
fn discovers_all_supported_kinds() {
    let src = "fn main() { let a: i32 = 5; let b: i64 = 7; let c: f64 = 1.5; \
               let d: bool = true; let e: &str = \"hi\"; let f: String = String::from(\"yo\"); }";
    let vars = discover(&tree_of(src));
    assert_eq!(vars.len(), 6);
    assert_eq!(vars[0].name, "a");
    assert_eq!(vars[0].type_text, "i32");
    assert_eq!(vars[0].semantic_type, SemanticType::Integer);
    assert_eq!(vars[0].value, VariableValue::IntVal(5));
    assert_eq!(vars[1].name, "b");
    assert_eq!(vars[1].value, VariableValue::IntVal(7));
    assert_eq!(vars[2].name, "c");
    assert_eq!(vars[2].semantic_type, SemanticType::Float);
    assert_eq!(vars[2].value, VariableValue::FloatVal(String::from("1.5")));
    assert_eq!(vars[3].name, "d");
    assert_eq!(vars[3].value, VariableValue::BoolVal(true));
    assert_eq!(vars[4].name, "e");
    assert_eq!(vars[4].type_text, "&str");
    assert_eq!(vars[4].value, VariableValue::TextVal(String::from("hi")));
    assert_eq!(vars[5].name, "f");
    assert_eq!(vars[5].type_text, "String");
    assert_eq!(vars[5].value, VariableValue::TextVal(String::from("yo")));
}

#[test]
fn discovery_is_deterministic() {
    let src = "fn main() { let a: i32 = 1; { let b: bool = false; } let c: String = String::from(\"x\"); }";
    let first = discover(&tree_of(src));
    let second = discover(&tree_of(src));
    assert_eq!(first, second);
    let third = discover(&tree_of(src));
    assert_eq!(second, third);
    let from_text_a = crowbar::discover::discover_source(src).unwrap();
    let from_text_b = crowbar::discover::discover_source(src).unwrap();
    assert_eq!(from_text_a, from_text_b);
    assert_eq!(from_text_a, first);
}

#[test]
fn missing_initializer_yields_documented_defaults() {
    let src = "fn main() { let a: i32; let b: f64; let c: bool; let d: String; let e: &str; }";
    let vars = discover(&tree_of(src));
    assert_eq!(vars.len(), 5);
    assert_eq!(vars[0].value, VariableValue::IntVal(0));
    assert_eq!(vars[1].value, VariableValue::FloatVal(String::from("0.0")));
    assert_eq!(vars[2].value, VariableValue::BoolVal(false));
    assert_eq!(vars[3].value, VariableValue::TextVal(String::new()));
    assert_eq!(vars[4].value, VariableValue::TextVal(String::new()));
}

#[test]
fn unsupported_types_carry_no_value() {
    let src = "fn main() { let v: Vec<i32> = make(); let t: (i32, i32) = pair(); }";
    let vars = discover(&tree_of(src));
    assert_eq!(vars.len(), 2);
    assert_eq!(vars[0].name, "v");
    assert_eq!(vars[0].type_text, "Unknown");
    assert_eq!(vars[0].semantic_type, SemanticType::Unsupported);
    assert_eq!(vars[0].value, VariableValue::Unset);
    assert_eq!(vars[1].name, "t");
    assert_eq!(vars[1].type_text, "Unsupported");
    assert_eq!(vars[1].value, VariableValue::Unset);
}

#[test]
fn non_text_reference_is_unsupported() {
    let src = "fn main() { let r: &i32 = p(); let s: &str = \"ok\"; let v: &Vec<i32> = q(); }";
    let vars = discover(&tree_of(src));
    assert_eq!(vars.len(), 3);
    assert_eq!(vars[0].type_text, "Unsupported");
    assert_eq!(vars[0].semantic_type, SemanticType::Unsupported);
    assert_eq!(vars[0].value, VariableValue::Unset);
    assert_eq!(vars[1].type_text, "&str");
    assert_eq!(vars[1].value, VariableValue::TextVal(String::from("ok")));
    assert_eq!(vars[2].type_text, "Unsupported");
    assert_eq!(vars[2].value, VariableValue::Unset);
}

#[test]
fn macro_interiors_are_opaque() {
    let src = "fn main() { m!{ let x: i32 = 1; } let y: i32 = 2; println!(\"{}\", y); }";
    let vars = discover(&tree_of(src));
    let names: Vec<&str> = vars.iter().map(|v| v.name.as_str()).collect();
    assert_eq!(names, vec!["y"]);
}

#[test]
fn macro_definitions_are_opaque() {
    let src = "macro_rules! m { () => { let q: i32 = 3; }; } fn main() { let w: i32 = 4; }";
    let vars = discover(&tree_of(src));
    let names: Vec<&str> = vars.iter().map(|v| v.name.as_str()).collect();
    assert_eq!(names, vec!["w"]);
}

#[test]
fn untyped_declarations_are_skipped() {
    let src = "fn main() { let x = 5; let y: i32 = 1; let z = \"s\"; }";
    let vars = discover(&tree_of(src));
    assert_eq!(vars.len(), 1);
    assert_eq!(vars[0].name, "y");
    assert_eq!(vars[0].value, VariableValue::IntVal(1));
}

#[test]
fn nested_scopes_in_declaration_order() {
    let src = "fn f() { let a: i32 = 1; { let b: i32 = 2; if x { let c: bool = false; } } let d: i64 = 3; }";
    let vars = discover(&tree_of(src));
    let names: Vec<&str> = vars.iter().map(|v| v.name.as_str()).collect();
    assert_eq!(names, vec!["a", "b", "c", "d"]);
    assert_eq!(vars[1].value, VariableValue::IntVal(2));
    assert_eq!(vars[2].value, VariableValue::BoolVal(false));
}

#[test]
fn computed_initializer_keeps_default() {
    let src = "fn main() { let x: i32 = compute(); let s: String = make(); let n: i64 = 1 + 2; }";
    let vars = discover(&tree_of(src));
    assert_eq!(vars[0].value, VariableValue::IntVal(0));
    assert_eq!(vars[1].value, VariableValue::TextVal(String::new()));
    assert_eq!(vars[2].value, VariableValue::IntVal(0));
}

#[test]
fn mismatched_literal_keeps_default() {
    let src = "fn main() { let x: i32 = \"hi\"; let b: bool = 3; }";
    let vars = discover(&tree_of(src));
    assert_eq!(vars[0].value, VariableValue::IntVal(0));
    assert_eq!(vars[1].value, VariableValue::BoolVal(false));
}

#[test]
fn integer_literal_forms() {
    let src = "fn main() { let x: i32 = 0x10; let y: i64 = 1_000; let z: i64 = 99999999999999999999999999; }";
    let vars = discover(&tree_of(src));
    assert_eq!(vars[0].value, VariableValue::IntVal(16));
    assert_eq!(vars[1].value, VariableValue::IntVal(1000));
    assert_eq!(vars[2].value, VariableValue::IntVal(0));
}

#[test]
fn string_escapes_are_unescaped() {
    let src = "fn main() { let s: &str = \"a\\nb\"; }";
    let vars = discover(&tree_of(src));
    assert_eq!(vars[0].value, VariableValue::TextVal(String::from("a\nb")));
}

#[test]
fn mutable_declarations_are_discovered() {
    let src = "fn main() { let mut a: i32 = 9; }";
    let vars = discover(&tree_of(src));
    assert_eq!(vars.len(), 1);
    assert_eq!(vars[0].name, "a");
    assert_eq!(vars[0].value, VariableValue::IntVal(9));
}

#[test]
fn empty_source_discovers_nothing() {
    let vars = discover(&tree_of(""));
    assert!(vars.is_empty());
}

#[test]
fn non_ascii_text_literal_is_kept() {
    let src = "fn main() { let s: &str = \"h\u{e9}llo\"; }";
    let vars = discover(&tree_of(src));
    assert_eq!(vars[0].value, VariableValue::TextVal(String::from("h\u{e9}llo")));
}

#[test]
fn parse_failure_reports_message() {
    let err = parse("fn main( {").unwrap_err();
    assert!(!err.message.is_empty());
    assert!(parse("fn main() {}").is_ok());
}
