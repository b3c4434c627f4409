use optdiff::dump::{PassDump, PassDumpError, SplitPassDump};
use optdiff::optpipeline::LlvmPassDumpParser;
use optdiff::route::{enter, is_loop_name, push_to, same_text, Router};

fn section(header: &str, function: Option<&str>, machine: bool, lines: &str) -> PassDump {
    PassDump {
        header: header.to_string(),
        affected_function: function.map(|f| f.to_string()),
        machine,
        lines: lines.to_string(),
    }
}

fn split(header: &str, machine: bool, functions: &[(&str, &[&str])]) -> SplitPassDump {
    SplitPassDump {
        header: header.to_string(),
        machine,
        functions: functions
            .iter()
            .map(|(name, lines)| (name.to_string(), lines.iter().map(|l| l.to_string()).collect()))
            .collect(),
    }
}

fn by_function(dumps: Vec<SplitPassDump>) -> Result<Vec<(String, Vec<PassDump>)>, PassDumpError> {
    LlvmPassDumpParser::new().unwrap().breakdown_into_pass_dumps_by_function(dumps)
}

fn associate(dumps: Vec<PassDump>) -> Result<Vec<(String, Vec<PassDump>)>, PassDumpError> {
    LlvmPassDumpParser::new().unwrap().associate_full_dumps_with_functions(dumps)
}

#[test]
fn texts_are_compared_by_their_characters() {
    assert!(same_text("<loop>", "<loop>"));
    assert!(same_text("", ""));
    assert!(!same_text("<loop>", "<loop"));
    assert!(!same_text("<loop", "<loop>"));
    assert!(!same_text("loop", "lo0p"));
}

#[test]
fn a_percent_sign_marks_the_name_of_a_loop() {
    assert!(is_loop_name("%for.body"));
    assert!(is_loop_name("%"));
    assert!(!is_loop_name("main"));
    assert!(!is_loop_name(""));
    assert!(!is_loop_name("a%"));
}

#[test]
fn push_to_and_enter_keep_the_order_of_first_appearance() {
    let mut table = Vec::new();
    push_to(&mut table, "f".to_string(), section("h1", None, false, "1"));
    push_to(&mut table, "g".to_string(), section("h2", None, false, "2"));
    push_to(&mut table, "f".to_string(), section("h3", None, false, "3"));
    enter(&mut table, &"g".to_string());
    enter(&mut table, &"h".to_string());
    assert_eq!(
        table,
        vec![
            ("f".to_string(), vec![section("h1", None, false, "1"), section("h3", None, false, "3")]),
            ("g".to_string(), vec![section("h2", None, false, "2")]),
            ("h".to_string(), vec![]),
        ]
    );
}

#[test]
fn sections_are_regrouped_by_function() {
    let dumps = vec![
        split("IR Dump Before A", false, &[("f", &["f1", "f2"]), ("g", &["g1"])]),
        split("IR Dump After A", false, &[("g", &["g2"]), ("f", &["f3"])]),
    ];
    assert_eq!(
        by_function(dumps),
        Ok(vec![
            (
                "f".to_string(),
                vec![
                    section("IR Dump Before A", None, false, "f1\nf2"),
                    section("IR Dump After A", None, false, "f3"),
                ]
            ),
            (
                "g".to_string(),
                vec![
                    section("IR Dump Before A", None, false, "g1"),
                    section("IR Dump After A", None, false, "g2"),
                ]
            ),
        ])
    );
}

#[test]
fn a_loop_goes_to_the_function_before_it() {
    let dumps = vec![
        split("IR Dump After A", false, &[("f", &["f1"]), ("g", &["g1"])]),
        split("IR Dump After LoopPass", false, &[("<loop>", &["l1", "l2"])]),
        split("IR Dump After LoopPass", false, &[("<loop>", &["l3"])]),
        split("IR Dump After B", true, &[("f", &["f2"]), ("<loop>", &["l4"])]),
    ];
    assert_eq!(
        by_function(dumps),
        Ok(vec![
            (
                "f".to_string(),
                vec![
                    section("IR Dump After A", None, false, "f1"),
                    section("IR Dump After B", None, true, "f2"),
                    section("IR Dump After B", None, true, "l4"),
                ]
            ),
            (
                "g".to_string(),
                vec![
                    section("IR Dump After A", None, false, "g1"),
                    section("IR Dump After LoopPass", None, false, "l1\nl2"),
                    section("IR Dump After LoopPass", None, false, "l3"),
                ]
            ),
        ])
    );
}

#[test]
fn a_loop_before_any_function_is_refused() {
    let dumps = vec![
        split("IR Dump After LoopPass", false, &[("<loop>", &["l1"])]),
        split("IR Dump After A", false, &[("f", &["f1"])]),
    ];
    assert_eq!(
        by_function(dumps),
        Err(PassDumpError::MissingFunction { header: "IR Dump After LoopPass".to_string() })
    );
}

#[test]
fn no_sections_give_an_empty_table() {
    assert_eq!(by_function(vec![]), Ok(vec![]));
    assert_eq!(by_function(vec![split("IR Dump After A", false, &[])]), Ok(vec![]));
}

#[test]
fn the_router_takes_one_function_at_a_time() {
    let router = Router { table: Vec::new(), previous: None };
    let lines = vec!["a".to_string(), "b".to_string()];
    let header = "IR Dump After A".to_string();
    let router = router.route(&header, false, &"f".to_string(), &lines).unwrap();
    assert_eq!(router.previous, Some("f".to_string()));
    let router = router.route(&header, false, &"<loop>".to_string(), &lines).unwrap();
    assert_eq!(router.previous, Some("f".to_string()));
    assert_eq!(
        router.table,
        vec![(
            "f".to_string(),
            vec![
                section("IR Dump After A", None, false, "a\nb"),
                section("IR Dump After A", None, false, "a\nb"),
            ]
        )]
    );
    let fresh = Router { table: Vec::new(), previous: None };
    assert_eq!(
        fresh.route(&header, false, &"<loop>".to_string(), &lines).err(),
        Some(PassDumpError::MissingFunction { header: "IR Dump After A".to_string() })
    );
}

#[test]
fn the_whole_module_always_has_an_entry() {
    assert_eq!(associate(vec![]), Ok(vec![("<Full Module>".to_string(), vec![])]));
    assert_eq!(
        associate(vec![section("IR Dump After A", None, false, "m")]),
        Ok(vec![("<Full Module>".to_string(), vec![section("IR Dump After A", None, false, "m")])])
    );
}

#[test]
fn a_noted_function_gets_its_sections_alone() {
    let dumps = vec![
        section("IR Dump Before A", Some("bar"), false, "1"),
        section("IR Dump After A", Some("bar"), false, "2"),
        section("IR Dump After M", None, false, "3"),
        section("IR Dump After A", Some("foo"), true, "4"),
    ];
    assert_eq!(
        associate(dumps),
        Ok(vec![
            (
                "bar".to_string(),
                vec![
                    section("IR Dump Before A (bar)", Some("bar"), false, "1"),
                    section("IR Dump After A (bar)", Some("bar"), false, "2"),
                    section("IR Dump After M", None, false, "3"),
                ]
            ),
            (
                "foo".to_string(),
                vec![
                    section("IR Dump After M", None, false, "3"),
                    section("IR Dump After A (foo)", Some("foo"), true, "4"),
                ]
            ),
            ("<Full Module>".to_string(), vec![section("IR Dump After M", None, false, "3")]),
        ])
    );
}

#[test]
fn a_loop_pass_after_bar_belongs_to_bar() {
    let dumps = vec![
        section("IR Dump After A", Some("bar"), false, "1"),
        section("Loop Pass", Some("%loop1"), false, "2"),
        section("Loop Pass", Some("%loop2"), false, "3"),
    ];
    let table = associate(dumps).unwrap();
    assert_eq!(
        table,
        vec![
            (
                "bar".to_string(),
                vec![
                    section("IR Dump After A (bar)", Some("bar"), false, "1"),
                    section("Loop Pass (bar)", Some("bar"), false, "2"),
                    section("Loop Pass (bar)", Some("bar"), false, "3"),
                ]
            ),
            ("%loop1".to_string(), vec![]),
            ("%loop2".to_string(), vec![]),
            ("<Full Module>".to_string(), vec![]),
        ]
    );
}

#[test]
fn a_loop_after_a_module_pass_is_refused() {
    let dumps = vec![
        section("IR Dump After A", Some("bar"), false, "1"),
        section("IR Dump After M", None, false, "2"),
        section("IR Dump After L", Some("%loop1"), false, "3"),
    ];
    assert_eq!(
        associate(dumps),
        Err(PassDumpError::MissingFunction { header: "IR Dump After L".to_string() })
    );
    assert_eq!(
        associate(vec![section("IR Dump After L", Some("%loop1"), false, "3")]),
        Err(PassDumpError::MissingFunction { header: "IR Dump After L".to_string() })
    );
}

#[test]
fn the_router_takes_one_module_section_at_a_time() {
    let router = Router {
        table: vec![("f".to_string(), vec![]), ("g".to_string(), vec![])],
        previous: None,
    };
    let router = router.associate(&section("IR Dump After A", Some("g"), true, "x")).unwrap();
    assert_eq!(router.previous, Some("g".to_string()));
    let router = router.associate(&section("IR Dump After B", None, false, "y")).unwrap();
    assert_eq!(router.previous, None);
    assert_eq!(
        router.table,
        vec![
            ("f".to_string(), vec![section("IR Dump After B", None, false, "y")]),
            (
                "g".to_string(),
                vec![
                    section("IR Dump After A (g)", Some("g"), true, "x"),
                    section("IR Dump After B", None, false, "y"),
                ]
            ),
        ]
    );
}
