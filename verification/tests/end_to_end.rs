use optdiff::dump::{OptPipelineBackendOptions, Pass, PassDumpError};
use optdiff::optpipeline::{end_of_line, process, LlvmPassDumpParser};

fn passes_of<'a>(table: &'a [(String, Vec<Pass>)], name: &str) -> &'a Vec<Pass> {
    &table.iter().find(|entry| entry.0 == name).expect("the function has an entry").1
}

#[test]
fn inliner_changes_one_line_of_f() {
    let before = "define i32 @f(i32 %x) {\n  %y = add i32 %x, 0\n  ret i32 %y\n}";
    let after = "define i32 @f(i32 %x) {\n  ret i32 %x\n}";
    let dump = format!(
        "clang banner\n*** IR Dump Before Inliner ***\n{}\n*** IR Dump After Inliner ***\n{}\n",
        before, after
    );
    let (prefix, table) = process(&dump, true).unwrap();
    assert_eq!(prefix, "clang banner\n");
    assert_eq!(table.len(), 1);
    assert_eq!(table[0].0, "f");
    assert_eq!(
        passes_of(&table, "f"),
        &vec![Pass {
            name: "Inliner".to_string(),
            machine: false,
            after: after.to_string(),
            before: before.to_string(),
            ir_changed: true,
        }]
    );
}

#[test]
fn before_foo_followed_by_after_bar_is_a_mismatch() {
    let body = "define void @f() {\n  ret void\n}\n";
    let dump = format!("*** IR Dump Before Foo ***\n{}*** IR Dump After Bar ***\n{}", body, body);
    assert_eq!(
        process(&dump, true),
        Err(PassDumpError::PassMismatch {
            before_header: "Foo".to_string(),
            after_header: "Bar".to_string(),
        })
    );
}

#[test]
fn text_without_header_is_all_prefix() {
    let dump = "warning: something\nnote: nothing to see\nlast line without end";
    for apply_filters in [false, true] {
        let (prefix, table) = process(dump, apply_filters).unwrap();
        assert_eq!(prefix, dump);
        assert!(table.is_empty());
    }
    let parser = LlvmPassDumpParser::new().unwrap();
    assert!(parser.breakdown_output_into_pass_dumps(dump, false).is_empty());
    let options = OptPipelineBackendOptions {
        filter_debug_info: true,
        filter_ir_metadata: true,
        full_module: true,
        apply_filters: true,
        stop_at_machine_code: false,
    };
    let (prefix, table) = parser.process(dump, &options).unwrap();
    assert_eq!(prefix, dump);
    assert_eq!(table, vec![("<Full Module>".to_string(), vec![])]);
}

fn options(full_module: bool, apply_filters: bool) -> OptPipelineBackendOptions {
    OptPipelineBackendOptions {
        filter_debug_info: true,
        filter_ir_metadata: true,
        full_module,
        apply_filters,
        stop_at_machine_code: false,
    }
}

fn pass(name: &str, machine: bool, before: &str, after: &str, ir_changed: bool) -> Pass {
    Pass {
        name: name.to_string(),
        machine,
        after: after.to_string(),
        before: before.to_string(),
        ir_changed,
    }
}

#[test]
fn a_rolled_back_pass_is_one_pass_named_foo() {
    let body = "define void @f() {\n  ret void\n}\n";
    let dump = format!(
        "*** IR Dump Before Foo ***\n{}*** IR Dump After Foo (invalidated) ***\n{}",
        body, body
    );
    let (prefix, table) = process(&dump, false).unwrap();
    assert_eq!(prefix, "");
    assert_eq!(
        table,
        vec![(
            "f".to_string(),
            vec![pass("Foo", false, body.trim_end(), body.trim_end(), false)]
        )]
    );
}

#[test]
fn a_loop_pass_in_a_module_dump_belongs_to_the_function_before() {
    let dump = "*** IR Dump After Simplify *** (function: bar)\ndefine void @bar() {\n}\n\
                *** IR Dump After Loop Pass *** (loop: %loop1)\n; Preheader:\n  br label %loop1\n";
    let parser = LlvmPassDumpParser::new().unwrap();
    let (_, table) = parser.process(dump, &options(true, false)).unwrap();
    assert_eq!(
        passes_of(&table, "bar"),
        &vec![
            pass("Simplify (bar)", false, "", "define void @bar() {\n}\n", true),
            pass("Loop Pass (bar)", false, "", "; Preheader:\n  br label %loop1\n", true),
        ]
    );
    assert_eq!(passes_of(&table, "%loop1"), &vec![]);
    assert_eq!(passes_of(&table, "<Full Module>"), &vec![]);
}

#[test]
fn the_headers_of_the_parser_are_recognised() {
    let parser = LlvmPassDumpParser::new().unwrap();
    for header in [
        "*** IR Dump Before Foo ***",
        "; *** IR Dump After Foo ***",
        ";*** IR Dump After Foo ***",
        "*** IR Dump After Foo *** (function: main)",
        "*** IR Dump After Foo ***   (loop: %for.body)",
        "*** IR Dump After Foo ***; a comment",
        "# *** IR Dump After Foo ***:",
        "*** x ***",
    ] {
        assert!(parser.matches_dump_header(header), "{}", header);
    }
    for line in [
        "",
        "define void @f() {",
        "** IR Dump After Foo **",
        "*** IR Dump After Foo ***\r",
        "*** IR Dump After Foo *** trailing",
        "# *** IR Dump After Foo ***",
        "  *** IR Dump After Foo ***",
        "*** IR Dump After Foo *** (function: )",
    ] {
        assert!(!parser.matches_dump_header(line), "{}", line);
    }
}

#[test]
fn the_prefix_ends_at_the_first_header_line() {
    let parser = LlvmPassDumpParser::new().unwrap();
    let find = |text: &str| {
        let chars: Vec<char> = text.chars().collect();
        parser.find_header(&chars)
    };
    assert_eq!(find(""), 0);
    assert_eq!(find("banner\n"), 7);
    assert_eq!(find("banner"), 6);
    assert_eq!(find("*** a ***\nrest"), 0);
    assert_eq!(find("one\ntw\u{f6}\n*** a ***\nrest"), 8);
    assert_eq!(find("one\n*** a ***"), 4);
    assert_eq!(find("one\n\n# *** a ***:\n*** b ***\n"), 5);
    assert_eq!(find("one\n *** a ***\nlast"), 4);
    assert_eq!(find("one\n  *** a ***\nlast"), 20);
}

#[test]
fn the_prefix_is_left_as_it_is() {
    let dump = "; ModuleID = 'kept.c'\nwarning, !dbg !1\n*** IR Dump After A ***\n; ModuleID = 'a.c'\ndefine void @f() #0 {\n  ret void, !dbg !7\n}\n";
    let (prefix, table) = process(dump, true).unwrap();
    assert_eq!(prefix, "; ModuleID = 'kept.c'\nwarning, !dbg !1\n");
    assert_eq!(
        table,
        vec![("f".to_string(), vec![pass("A", false, "", "define void @f()\n  ret void\n}", true)])]
    );
    let (prefix, table) = process(dump, false).unwrap();
    assert_eq!(prefix, "; ModuleID = 'kept.c'\nwarning, !dbg !1\n");
    assert_eq!(
        table,
        vec![(
            "f".to_string(),
            vec![pass("A", false, "", "define void @f() #0 {\n  ret void, !dbg !7\n}", true)]
        )]
    );
}

#[test]
fn functions_keep_the_order_of_the_transcript() {
    let dump = "*** IR Dump Before A ***\n\
                define void @z() {\n  a\n}\n\ndefine void @a() {\n  b\n}\n\
                *** IR Dump After A ***\n\
                define void @z() {\n  a\n}\n\ndefine void @a() {\n  c\n}\n\
                *** IR Dump After B ***\n\
                define void @m() {\n}\n";
    let (_, table) = process(dump, true).unwrap();
    assert_eq!(
        table,
        vec![
            (
                "z".to_string(),
                vec![pass(
                    "A",
                    false,
                    "define void @z() {\n  a\n}",
                    "define void @z() {\n  a\n}",
                    false
                )]
            ),
            (
                "a".to_string(),
                vec![pass(
                    "A",
                    false,
                    "define void @a() {\n  b\n}",
                    "define void @a() {\n  c\n}",
                    true
                )]
            ),
            ("m".to_string(), vec![pass("B", false, "", "define void @m() {\n}", true)]),
        ]
    );
}

#[test]
fn machine_code_follows_the_ir_of_the_same_function() {
    let dump = "*** IR Dump After Last ***\n\
                define void @f() {\n  ret void\n}\n\
                # *** IR Dump After ISel ***:\n\
                # Machine code for function f: IsSSA\nbb.0:\n  RET 0\n\n# End machine code for function f.\n\n";
    let mir = "# Machine code for function f: IsSSA\nbb.0:\n  RET 0\n\n# End machine code for function f.";
    let (_, table) = process(dump, true).unwrap();
    assert_eq!(
        table,
        vec![(
            "f".to_string(),
            vec![
                pass("Last", false, "", "define void @f() {\n  ret void\n}", true),
                pass("ISel", true, "define void @f() {\n  ret void\n}", mir, true),
            ]
        )]
    );
    let parser = LlvmPassDumpParser::new().unwrap();
    let mut stop = options(false, true);
    stop.stop_at_machine_code = true;
    let (_, table) = parser.process(dump, &stop).unwrap();
    assert_eq!(
        table,
        vec![(
            "f".to_string(),
            vec![pass("Last", false, "", "define void @f() {\n  ret void\n}", true)]
        )]
    );
}

#[test]
fn a_loop_before_any_function_is_reported() {
    let dump = "*** IR Dump After LICM ***\n; Preheader:\n  br label %l\n";
    assert_eq!(
        process(dump, true),
        Err(PassDumpError::MissingFunction { header: "IR Dump After LICM".to_string() })
    );
}

#[test]
fn a_header_that_is_no_dump_is_reported() {
    let dump = "*** Printing analysis ***\ndefine void @f() {\n}\n";
    assert_eq!(
        process(dump, true),
        Err(PassDumpError::UnexpectedHeader { header: "Printing analysis".to_string() })
    );
}

#[test]
fn a_pair_at_two_levels_is_reported() {
    let dump = "*** IR Dump Before X ***\ndefine void @f() {\n}\n# *** IR Dump After X ***:\ndefine void @f() {\n}\n";
    assert_eq!(
        process(dump, true),
        Err(PassDumpError::LevelMismatch { header: "IR Dump Before X".to_string() })
    );
}

#[test]
fn a_module_wide_mismatch_is_reported() {
    let dump = "*** IR Dump Before Foo ***\n*** IR Dump After Bar ***\n";
    let parser = LlvmPassDumpParser::new().unwrap();
    assert_eq!(
        parser.process(dump, &options(true, true)),
        Err(PassDumpError::PassMismatch {
            before_header: "Foo".to_string(),
            after_header: "Bar".to_string(),
        })
    );
    assert_eq!(parser.process(dump, &options(false, true)), Ok(("", vec![])));
}

#[test]
fn the_stages_compose_to_the_whole() {
    let dump = "*** IR Dump Before A ***\ndefine void @f() #0 {\n  x\n}\n*** IR Dump After A ***\ndefine void @f() #0 {\n  y\n}\n";
    let parser = LlvmPassDumpParser::new().unwrap();
    let opts = options(false, true);
    let ir = parser.apply_ir_filters(dump, &opts).unwrap();
    let raw = parser.breakdown_output_into_pass_dumps(&ir, false);
    let split = raw.into_iter().map(|d| parser.breakdown_pass_dumps_into_functions(d)).collect();
    let routed = parser.breakdown_into_pass_dumps_by_function(split).unwrap();
    let table = parser.match_pass_dumps(routed).unwrap();
    assert_eq!(parser.breakdown_output(&ir, &opts), Ok(table.clone()));
    assert_eq!(parser.process(dump, &opts), Ok(("", table.clone())));
    assert_eq!(process(dump, true), Ok(("", table)));
}

#[test]
fn the_lines_of_a_pass_are_the_lines_of_the_transcript() {
    let function = [
        "define i32 @sum(i32 %a, i32 %b) {",
        "entry:",
        "  %r = add i32 %a, %b",
        "",
        "  ret i32 %r",
        "}",
    ];
    let dump = format!(
        "*** IR Dump Before A ***\n; a comment\n\n\n{}\n\n\n*** IR Dump After A ***\n{}\n",
        function.join("\n"),
        function.join("\n")
    );
    let (_, table) = process(&dump, false).unwrap();
    let found = optdiff::table::lookup(&table, "sum").unwrap();
    assert_eq!(found.len(), 1);
    assert_eq!(found[0].before.lines().collect::<Vec<&str>>(), function);
    assert_eq!(found[0].after.lines().collect::<Vec<&str>>(), function);
    assert!(!found[0].ir_changed);
    assert!(optdiff::table::lookup(&table, "other").is_none());
}

#[test]
fn a_module_wide_body_is_the_text_between_the_headers() {
    let body = "define void @f() {\n  ret void\n}\n\ndefine void @g() {\n  ret void\n}\n";
    let dump = format!("banner\n*** IR Dump After A ***\n\n{}\n\n*** IR Dump Before B ***\n", body);
    let parser = LlvmPassDumpParser::new().unwrap();
    let (prefix, table) = parser.process(&dump, &options(true, false)).unwrap();
    assert_eq!(prefix, "banner\n");
    assert_eq!(
        table,
        vec![(
            "<Full Module>".to_string(),
            vec![
                pass("A", false, "", &format!("{}\n", body), true),
                pass("B", false, "", "", false),
            ]
        )]
    );
}

#[test]
fn a_line_ends_at_its_line_feed() {
    let text: Vec<char> = "ab\n\ncd".chars().collect();
    assert_eq!(end_of_line(&text, 0), 2);
    assert_eq!(end_of_line(&text, 1), 2);
    assert_eq!(end_of_line(&text, 2), 2);
    assert_eq!(end_of_line(&text, 3), 3);
    assert_eq!(end_of_line(&text, 4), 6);
    assert_eq!(end_of_line(&text, 6), 6);
}

#[test]
fn a_fault_of_the_sections_comes_before_a_mismatch() {
    let dump = "*** IR Dump Before Foo ***\n*** IR Dump After Bar ***\n*** Other ***\n";
    let parser = LlvmPassDumpParser::new().unwrap();
    assert_eq!(
        parser.process(dump, &options(true, false)),
        Err(PassDumpError::UnexpectedHeader { header: "Other".to_string() })
    );
}

#[test]
fn two_calls_on_one_text_give_one_result() {
    let texts = [
        "",
        "banner only\n",
        "*** IR Dump After A ***\ndefine void @f() #0 {\n  ret void, !dbg !7\n}\n",
        "*** IR Dump Before Foo ***\ndefine void @f() {\n}\n*** IR Dump After Bar ***\ndefine void @f() {\n}\n",
    ];
    for text in texts {
        for apply_filters in [false, true] {
            assert_eq!(process(text, apply_filters), process(text, apply_filters));
        }
    }
}
