use crowbar::discover::discover;
use crowbar::front::parse;
use crowbar::inject::{inject, InjectError};
use crowbar::model::{SemanticType, Variable, VariableValue};

#[test]
fn rewrites_an_integer_initializer() {
    let src = "fn main() {\n    let a: i32 = 5;\n    println!(\"{}\", a);\n}\n";
    let tree = parse(src).unwrap();
    let mut vars = discover(&tree);
    vars[0].value = VariableValue::IntVal(42);
    let out = inject(src, &vars).unwrap();
    assert_eq!(out, "fn main() {\n    let a: i32 = 42;\n    println!(\"{}\", a);\n}\n");
}

#[test]
fn owned_text_keeps_constructor_form() {
    let src = "fn main() { let s: String = String::from(\"hi\"); }";
    let tree = parse(src).unwrap();
    let mut vars = discover(&tree);
    assert_eq!(vars[0].value, VariableValue::TextVal(String::from("hi")));
    vars[0].value = VariableValue::TextVal(String::from("bye"));
    let out = inject(src, &vars).unwrap();
    assert_eq!(out, "fn main() { let s: String = \"bye\".to_string(); }");
}

#[test]
fn borrowed_text_gets_bare_literal() {
    let src = "fn main() { let s: &str = \"hi\"; }";
    let tree = parse(src).unwrap();
    let mut vars = discover(&tree);
    vars[0].value = VariableValue::TextVal(String::from("x"));
    let out = inject(src, &vars).unwrap();
    assert_eq!(out, "fn main() { let s: &str = \"x\"; }");
}

#[test]
fn missing_pattern_returns_input_unchanged() {
    let src = "fn main() { let a: i32 = 5; }";
    let tree = parse(src).unwrap();
    let mut vars = discover(&tree);
    vars[0].value = VariableValue::IntVal(9);
    let edited = "fn main() { let renamed: i32 = 5; }";
    let out = inject(edited, &vars).unwrap();
    assert_eq!(out, edited);
}

#[test]
fn unset_variable_passes_declaration_through() {
    let src = "fn main() { let a: i32 = 5; }";
    let vars = vec![Variable {
        name: String::from("a"),
        type_text: String::from("i32"),
        semantic_type: SemanticType::Unsupported,
        value: VariableValue::Unset,
    }];
    let out = inject(src, &vars).unwrap();
    assert_eq!(out, src);
}

#[test]
fn untouched_regions_are_byte_identical() {
    let src = "fn main() {\n    let a: i32 = 5;\n    println!(\"between\");\n    let b: bool = false;\n    done();\n}\n";
    let tree = parse(src).unwrap();
    let mut vars = discover(&tree);
    vars[1].value = VariableValue::BoolVal(true);
    let out = inject(src, &vars).unwrap();
    assert_eq!(
        out,
        "fn main() {\n    let a: i32 = 5;\n    println!(\"between\");\n    let b: bool = true;\n    done();\n}\n"
    );
}

#[test]
fn mutable_declaration_pattern_is_matched() {
    let src = "fn main() { let mut a: i32 = 5; }";
    let tree = parse(src).unwrap();
    let mut vars = discover(&tree);
    vars[0].value = VariableValue::IntVal(7);
    let out = inject(src, &vars).unwrap();
    assert_eq!(out, "fn main() { let mut a: i32 = 7; }");
}

#[test]
fn missing_delimiter_is_fatal() {
    let text = "let a: i32 = 5";
    let vars = vec![Variable {
        name: String::from("a"),
        type_text: String::from("i32"),
        semantic_type: SemanticType::Integer,
        value: VariableValue::IntVal(1),
    }];
    let r = inject(text, &vars);
    assert!(matches!(r, Err(InjectError::MalformedDeclaration)));
}

#[test]
fn negative_and_extreme_integers_render() {
    let src = "fn main() { let a: i64 = 0; let b: i64 = 0; }";
    let tree = parse(src).unwrap();
    let mut vars = discover(&tree);
    vars[0].value = VariableValue::IntVal(-3);
    vars[1].value = VariableValue::IntVal(i64::MIN);
    let out = inject(src, &vars).unwrap();
    assert_eq!(
        out,
        "fn main() { let a: i64 = -3; let b: i64 = -9223372036854775808; }"
    );
}

#[test]
fn float_text_renders_verbatim() {
    let src = "fn main() { let f: f64 = 1.5; }";
    let tree = parse(src).unwrap();
    let mut vars = discover(&tree);
    vars[0].value = VariableValue::FloatVal(String::from("2.25"));
    let out = inject(src, &vars).unwrap();
    assert_eq!(out, "fn main() { let f: f64 = 2.25; }");
}

#[test]
fn shadowed_names_hit_successive_occurrences() {
    let src = "fn main() { let a: i32 = 1; let a: i32 = 2; }";
    let tree = parse(src).unwrap();
    let mut vars = discover(&tree);
    assert_eq!(vars.len(), 2);
    vars[0].value = VariableValue::IntVal(10);
    vars[1].value = VariableValue::IntVal(20);
    let out = inject(src, &vars).unwrap();
    assert_eq!(out, "fn main() { let a: i32 = 10; let a: i32 = 20; }");
}

#[test]
fn text_value_is_escaped_on_injection() {
    let src = "fn main() { let s: &str = \"a\"; }";
    let tree = parse(src).unwrap();
    let mut vars = discover(&tree);
    vars[0].value = VariableValue::TextVal(String::from("a\"b\\c"));
    let out = inject(src, &vars).unwrap();
    assert_eq!(out, "fn main() { let s: &str = \"a\\\"b\\\\c\"; }");
    let reparsed = parse(&out).unwrap();
    let again = discover(&reparsed);
    assert_eq!(again[0].value, VariableValue::TextVal(String::from("a\"b\\c")));
}

#[test]
fn empty_text_and_no_variables_pass_through() {
    let out = inject("", &Vec::new()).unwrap();
    assert_eq!(out, "");
    let src = "fn main() { call(); }";
    let out = inject(src, &Vec::new()).unwrap();
    assert_eq!(out, src);
}

#[test]
fn non_ascii_value_is_spliced_by_characters() {
    let src = "fn main() { let s: &str = \"hi\"; caf\u{e9}(); }";
    let tree = parse(src).unwrap();
    let mut vars = discover(&tree);
    vars[0].value = VariableValue::TextVal(String::from("\u{fc}ber"));
    let out = inject(src, &vars).unwrap();
    assert_eq!(out, "fn main() { let s: &str = \"\u{fc}ber\"; caf\u{e9}(); }");
}

#[test]
fn declaration_without_initializer_is_left_alone() {
    let src = "fn main() { let a: i32; use_it(&a); }";
    let tree = parse(src).unwrap();
    let vars = discover(&tree);
    assert_eq!(vars[0].value, VariableValue::IntVal(0));
    let out = inject(src, &vars).unwrap();
    assert_eq!(out, src);
}
