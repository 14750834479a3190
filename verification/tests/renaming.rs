use crowbar::discover::discover;
use crowbar::front::parse;
use crowbar::rename::rename;
use crowbar::unparse::unparse;

#[test]
fn rename_reaches_nested_scope() {
    let src = "fn f() { let a: i32 = 1; { let b: i32 = a + 1; } }";
    let tree = parse(src).unwrap();
    let renamed = rename(&tree, "a", "z");
    let out = unparse(&renamed);
    assert_eq!(out, "fn f ( ) { let z : i32 = 1 ; { let b : i32 = z + 1 ; } } ");
    let reparsed = parse(&out).unwrap();
    let vars = discover(&reparsed);
    let names: Vec<&str> = vars.iter().map(|v| v.name.as_str()).collect();
    assert_eq!(names, vec!["z", "b"]);
}

#[test]
fn noop_rename_roundtrip_keeps_discovery() {
    let src = "fn f() { let a: i32 = 1; { let b: bool = true; } let s: String = String::from(\"q\"); }";
    let tree = parse(src).unwrap();
    let before = discover(&tree);
    let renamed = rename(&tree, "a", "a");
    let out = unparse(&renamed);
    let reparsed = parse(&out).unwrap();
    let after = discover(&reparsed);
    assert_eq!(before, after);
}

#[test]
fn rename_is_textual_identity_in_every_role() {
    let src = "fn f() { f(); let f: i32 = 2; }";
    let tree = parse(src).unwrap();
    let out = unparse(&rename(&tree, "f", "g"));
    assert_eq!(out, "fn g ( ) { g ( ) ; let g : i32 = 2 ; } ");
}

#[test]
fn rename_leaves_other_identifiers_alone() {
    let src = "fn main() { let ab: i32 = 1; let abc: i32 = 2; }";
    let tree = parse(src).unwrap();
    let out = unparse(&rename(&tree, "ab", "xy"));
    assert_eq!(out, "fn main ( ) { let xy : i32 = 1 ; let abc : i32 = 2 ; } ");
}

#[test]
fn unparse_output_reparses() {
    let src = "fn main() { let v: Vec<i32> = vec![1, 2]; if v.len() == 2 { done(); } }";
    let tree = parse(src).unwrap();
    let out = unparse(&tree);
    assert!(parse(&out).is_ok());
}

#[test]
fn glued_punctuation_survives_unparse() {
    let src = "fn main() { let s: String = String::from(\"hi\"); }";
    let tree = parse(src).unwrap();
    let out = unparse(&tree);
    assert!(out.contains("String :: from"));
    let vars = discover(&parse(&out).unwrap());
    assert_eq!(vars[0].name, "s");
    assert_eq!(vars[0].type_text, "String");
}
