use optdiff::listing::{collect_names, holds, list_functions, name_after_marker, same_bytes};

fn names(dump: &str) -> Vec<String> {
    list_functions(dump.as_bytes())
        .into_iter()
        .map(|name| String::from_utf8(name).unwrap())
        .collect()
}

#[test]
fn ir_functions_are_listed_in_their_order() {
    let dump = "*** IR Dump After A ***\ndefine void @f() {\n}\ndefine i32 @main(i32 %x) {\n}\n";
    assert_eq!(names(dump), vec!["f", "main"]);
}

#[test]
fn every_name_is_listed_once() {
    let dump = "define void @f() {\n}\ndefine void @g() {\n}\ndefine void @f() {\n}\n";
    assert_eq!(names(dump), vec!["f", "g"]);
}

#[test]
fn machine_functions_follow_the_ir_functions() {
    let dump = "# Machine code for function m: IsSSA\n# End machine code for function m.\n\
                define void @f() {\n}\n# Machine code for function f: IsSSA\n";
    assert_eq!(names(dump), vec!["f", "m"]);
}

#[test]
fn a_marker_without_name_lists_nothing() {
    assert_eq!(names(""), Vec::<String>::new());
    assert_eq!(names("no functions here"), Vec::<String>::new());
    assert_eq!(names("define void f"), Vec::<String>::new());
    assert_eq!(names("define void @f"), Vec::<String>::new());
    assert_eq!(names("# Machine code for function f"), Vec::<String>::new());
}

#[test]
fn the_name_is_searched_from_the_marker_on() {
    // The first marker finds the name of the second definition, and the
    // second marker finds it again.
    assert_eq!(names("define \ndefine void @g()"), vec!["g"]);
    assert_eq!(names("define void @a b c(x) define @z()"), vec!["a b c", "z"]);
    assert_eq!(names("define define @q("), vec!["q"]);
}

#[test]
fn names_may_hold_any_bytes() {
    let listed = list_functions(b"define void @\xff\xfe() {}");
    assert_eq!(listed, vec![vec![0xffu8, 0xfe]]);
    assert_eq!(names("define void @caf\u{e9}() {}"), vec!["caf\u{e9}"]);
}

#[test]
fn the_name_after_a_marker_ends_at_its_delimiter() {
    let dump = b"define i8 @abc(i8) # Machine code for function xyz: rest";
    assert_eq!(name_after_marker(dump, 0, false), Some(b"abc".to_vec()));
    assert_eq!(name_after_marker(dump, 19, true), Some(b"xyz".to_vec()));
    assert_eq!(name_after_marker(b"define i8 @abc", 0, false), None);
    assert_eq!(name_after_marker(b"define i8 abc(", 0, false), None);
}

#[test]
fn names_are_collected_without_repeats() {
    let mut found = vec![b"g".to_vec()];
    collect_names(&mut found, b"define @f() define @g() define @h()", false);
    assert_eq!(found, vec![b"g".to_vec(), b"f".to_vec(), b"h".to_vec()]);
    assert!(holds(&found, &b"h".to_vec()));
    assert!(!holds(&found, &b"".to_vec()));
    assert!(same_bytes(b"abc", b"abc"));
    assert!(!same_bytes(b"abc", b"abd"));
    assert!(!same_bytes(b"abc", b"ab"));
    assert!(same_bytes(b"", b""));
}
