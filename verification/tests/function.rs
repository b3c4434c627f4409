use optdiff::dump::{PassDump, SplitPassDump};
use optdiff::function::{ir_function, machine_function, store, FunctionScanner};
use optdiff::optpipeline::LlvmPassDumpParser;

fn chars(s: &str) -> Vec<char> {
    s.chars().collect()
}

fn entry(name: &str, lines: &[&str]) -> (String, Vec<String>) {
    (name.to_string(), lines.iter().map(|l| l.to_string()).collect())
}

fn split(body: &str) -> Vec<(String, Vec<String>)> {
    let dump = PassDump {
        header: "IR Dump After X".to_string(),
        affected_function: None,
        machine: false,
        lines: body.to_string(),
    };
    LlvmPassDumpParser::new().unwrap().breakdown_pass_dumps_into_functions(dump).functions
}

#[test]
fn the_name_of_an_ir_function_stands_between_at_and_bracket() {
    assert_eq!(ir_function(&chars("define i32 @main(i32 %argc) {")), Some("main".to_string()));
    assert_eq!(
        ir_function(&chars("define dso_local void @_Z3fooi(i32 noundef %0) #0 {")),
        Some("_Z3fooi".to_string())
    );
    assert_eq!(ir_function(&chars("define void @\"a b\"() {")), Some("\"a b\"".to_string()));
    assert_eq!(ir_function(&chars("define void @f")), None);
    assert_eq!(ir_function(&chars("define void f()")), None);
    assert_eq!(ir_function(&chars("declare void @f()")), None);
    assert_eq!(ir_function(&chars(" define void @f()")), None);
}

#[test]
fn the_name_of_a_machine_function_ends_at_the_colon() {
    assert_eq!(
        machine_function(&chars("# Machine code for function main: IsSSA, TracksLiveness")),
        Some("main".to_string())
    );
    assert_eq!(machine_function(&chars("# Machine code for function main")), None);
    assert_eq!(machine_function(&chars("# End machine code for function main.")), None);
}

#[test]
fn store_replaces_an_entry_of_the_same_name() {
    let mut table = vec![entry("f", &["a"]), entry("g", &["b"])];
    store(&mut table, "f".to_string(), vec!["c".to_string()]);
    assert_eq!(table, vec![entry("f", &["c"]), entry("g", &["b"])]);
    store(&mut table, "h".to_string(), vec![]);
    assert_eq!(table, vec![entry("f", &["c"]), entry("g", &["b"]), entry("h", &[])]);
}

#[test]
fn the_scanner_follows_the_rules_in_their_order() {
    let scan = FunctionScanner::new();
    assert!(scan.functions.is_empty() && scan.open.is_none() && !scan.machine_mode);
    // A line outside any function is dropped.
    let scan = scan.feed(&chars("stray"), false);
    assert!(scan.functions.is_empty() && scan.open.is_none());
    // A definition opens a function, whatever `closes` says.
    let scan = scan.feed(&chars("define void @f() {"), true);
    assert_eq!(scan.open, Some(entry("f", &["define void @f() {"])));
    // A line that does not close goes to the open function.
    let scan = scan.feed(&chars("  ret void"), false);
    assert_eq!(scan.open, Some(entry("f", &["define void @f() {", "  ret void"])));
    // A preheader inside a function is one more line of it.
    let scan = scan.feed(&chars("; Preheader:"), false);
    assert_eq!(
        scan.open,
        Some(entry("f", &["define void @f() {", "  ret void", "; Preheader:"]))
    );
    // A line that closes is the last line of the function.
    let scan = scan.feed(&chars("}"), true);
    assert_eq!(scan.open, None);
    assert_eq!(
        scan.functions,
        vec![entry("f", &["define void @f() {", "  ret void", "; Preheader:", "}"])]
    );
    // With no function open, a preheader opens a loop.
    let scan = scan.feed(&chars("; Preheader:"), false);
    assert_eq!(scan.open, Some(entry("<loop>", &["; Preheader:"])));
    // A machine function stores the open one and switches the mode.
    let scan = scan.feed(&chars("# Machine code for function g: x"), false);
    assert!(scan.machine_mode);
    assert_eq!(scan.open, Some(entry("g", &["# Machine code for function g: x"])));
    assert_eq!(scan.functions.len(), 2);
    assert_eq!(scan.functions[1], entry("<loop>", &["; Preheader:"]));
    // The end of the scan stores what is open.
    let functions = scan.finish();
    assert_eq!(functions.len(), 3);
    assert_eq!(functions[2], entry("g", &["# Machine code for function g: x"]));
}

#[test]
fn a_lone_brace_ends_an_ir_function() {
    let parser = LlvmPassDumpParser::new().unwrap();
    assert!(parser.ends_function(false, &chars("}")));
    assert!(parser.ends_function(false, &chars("  } \t")));
    assert!(!parser.ends_function(false, &chars("}}")));
    assert!(!parser.ends_function(false, &chars("  ret void }")));
    assert!(!parser.ends_function(false, &chars("")));
    assert!(!parser.ends_function(false, &chars("# End machine code for function f.")));
}

#[test]
fn the_end_marker_ends_a_machine_function() {
    let parser = LlvmPassDumpParser::new().unwrap();
    assert!(parser.ends_function(true, &chars("# End machine code for function f.")));
    assert!(parser.ends_function(true, &chars("  # End machine code for function a$b.c.  ")));
    assert!(!parser.ends_function(true, &chars("}")));
    assert!(!parser.ends_function(true, &chars("# End machine code for function .")));
    assert!(!parser.ends_function(true, &chars("# End machine code for function f")));
}

#[test]
fn a_body_is_cut_into_its_functions() {
    let body = "; ModuleID\ndefine void @f() {\n  ret void\n}\n\ndefine i32 @g(i32 %x) {\nentry:\n  ret i32 %x\n}\ntrailing\n";
    assert_eq!(
        split(body),
        vec![
            entry("f", &["define void @f() {", "  ret void", "}"]),
            entry("g", &["define i32 @g(i32 %x) {", "entry:", "  ret i32 %x", "}"]),
        ]
    );
}

#[test]
fn the_header_and_the_level_are_handed_on() {
    let dump = PassDump {
        header: "IR Dump After ISel".to_string(),
        affected_function: Some("ignored".to_string()),
        machine: true,
        lines: "# Machine code for function f: IsSSA\nbb.0:\n  RET 0\n\n# End machine code for function f.\n\nafter\n".to_string(),
    };
    assert_eq!(
        LlvmPassDumpParser::new().unwrap().breakdown_pass_dumps_into_functions(dump),
        SplitPassDump {
            header: "IR Dump After ISel".to_string(),
            machine: true,
            functions: vec![entry(
                "f",
                &[
                    "# Machine code for function f: IsSSA",
                    "bb.0:",
                    "  RET 0",
                    "",
                    "# End machine code for function f."
                ]
            )],
        }
    );
}

#[test]
fn a_brace_does_not_end_a_machine_function() {
    let body = "# Machine code for function f: x\n}\nmore\n# End machine code for function f.\nout\n";
    assert_eq!(
        split(body),
        vec![entry(
            "f",
            &["# Machine code for function f: x", "}", "more", "# End machine code for function f."]
        )]
    );
}

#[test]
fn an_unfinished_function_is_stored_at_the_end() {
    assert_eq!(
        split("define void @f() {\n  ret void\n"),
        vec![entry("f", &["define void @f() {", "  ret void"])]
    );
}

#[test]
fn a_new_definition_stores_the_open_function() {
    assert_eq!(
        split("define void @f() {\n  unreachable\ndefine void @g() {\n}\n"),
        vec![
            entry("f", &["define void @f() {", "  unreachable"]),
            entry("g", &["define void @g() {", "}"]),
        ]
    );
}

#[test]
fn a_second_function_of_the_same_name_takes_the_place_of_the_first() {
    assert_eq!(
        split("define void @f() {\n  one\n}\ndefine void @g() {\n}\ndefine void @f() {\n  two\n}\n"),
        vec![
            entry("f", &["define void @f() {", "  two", "}"]),
            entry("g", &["define void @g() {", "}"]),
        ]
    );
}

#[test]
fn a_loop_dump_is_kept_under_the_loop_name() {
    assert_eq!(
        split("; Preheader:\nentry:\n  br label %loop\n; Loop:\nloop:\n  br label %loop\n"),
        vec![entry(
            "<loop>",
            &["; Preheader:", "entry:", "  br label %loop", "; Loop:", "loop:", "  br label %loop"]
        )]
    );
}

#[test]
fn a_body_without_function_has_no_entries() {
    assert_eq!(split(""), vec![]);
    assert_eq!(split("just\nsome\nlines\n}\n"), vec![]);
}
