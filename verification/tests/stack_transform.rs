use source_map_parser::stack_transform::{parse_stack_line, parse_stack_trace, ErrorStack};

#[test]
fn parse_various_stack_lines() {
    let lines = vec![
        "at foo (https://example.com/app.js:10:5)",
        "at https://example.com/app.js:20:15",
        "async bar@https://example.com/app.js:30:25",
        "@https://example.com/app.js:40:35",
    ];
    let stacks: Vec<_> = lines.iter().filter_map(|l| parse_stack_line(l)).collect();
    assert_eq!(stacks.len(), lines.len());
    assert_eq!(stacks[0].line, 10);
    assert_eq!(stacks[1].column, 15);
    assert_eq!(stacks[2].name, "bar");
    assert_eq!(stacks[3].line, 40);
}

#[test]
fn parse_stack_trace_mixed_and_invalid() {
    let trace = "at foo (https://a/x.js:1:1)\nINVALID LINE\n@https://a/x.js:2:5";
    let stacks = parse_stack_trace(trace);
    assert_eq!(stacks.len(), 2);
    assert_eq!(stacks[1].column, 5);
}

#[test]
fn parse_error_stack_extract_message() {
    let raw = "ReferenceError: x is not defined\n  at foo (https://a/app.js:3:7)";
    let es = ErrorStack::from_raw(raw);
    assert_eq!(es.error_message, "ReferenceError: x is not defined");
    assert_eq!(es.stacks.len(), 1);
    assert_eq!(es.stacks[0].line, 3);
}

#[test]
fn parse_stack_line_rejects_non_stack() {
    assert!(parse_stack_line("Just a message without coords").is_none());
    assert!(parse_stack_line("Error: something").is_none());
}

#[test]
fn test_parse_stack_trace_multi() {
    let trace = "at foo (https://example.com/app.js:10:5)\n@https://example.com/app.js:20:15";
    let stacks = parse_stack_trace(trace);
    assert_eq!(stacks.len(), 2);
}

#[test]
fn every_field_of_each_shape() {
    let s = parse_stack_line("  at foo.bar (https://example.com/app.js:10:5)  ").unwrap();
    assert_eq!(s.name, "foo.bar");
    assert_eq!(s.source_file, "https://example.com/app.js");
    assert_eq!((s.line, s.column), (10, 5));
    assert_eq!(s.original_raw, "at foo.bar (https://example.com/app.js:10:5)");

    let s = parse_stack_line("at https://example.com/app.js:20:15").unwrap();
    assert_eq!(s.name, "");
    assert_eq!(s.source_file, "https://example.com/app.js");
    assert_eq!((s.line, s.column), (20, 15));

    let s = parse_stack_line("async bar@https://example.com/app.js:30:25").unwrap();
    assert_eq!(s.name, "bar");
    assert_eq!(s.source_file, "https://example.com/app.js");
    assert_eq!((s.line, s.column), (30, 25));

    let s = parse_stack_line("baz@https://example.com/app.js:31:26").unwrap();
    assert_eq!(s.name, "baz");
    assert_eq!((s.line, s.column), (31, 26));

    let s = parse_stack_line("@https://example.com/app.js:40:35").unwrap();
    assert_eq!(s.name, "");
    assert_eq!(s.source_file, "https://example.com/app.js");
    assert_eq!((s.line, s.column), (40, 35));
}

#[test]
fn numbers_that_cannot_be_read_are_zero() {
    let s = parse_stack_line("at foo (u:4294967295:4294967296)").unwrap();
    assert_eq!(s.line, 4294967295);
    assert_eq!(s.column, 0);
    let s = parse_stack_line("at foo (u:99999999999999999999:007)").unwrap();
    assert_eq!(s.line, 0);
    assert_eq!(s.column, 7);
    let s = parse_stack_line("at foo (u:\u{0661}\u{0662}:3)").unwrap();
    assert_eq!(s.line, 0);
    assert_eq!(s.column, 3);
}

#[test]
fn fewer_than_two_colons_is_no_frame() {
    assert!(parse_stack_line("").is_none());
    assert!(parse_stack_line("at foo (u:1)").is_none());
    assert!(parse_stack_line("@u:12").is_none());
    assert!(parse_stack_line("no colon at all").is_none());
}

#[test]
fn loose_shape_recovers_frames_inside_a_line() {
    let s = parse_stack_line("Error at foo (u:1:2) and more").unwrap();
    assert_eq!(s.name, "foo");
    assert_eq!(s.source_file, "u");
    assert_eq!((s.line, s.column), (1, 2));
    let s = parse_stack_line("at\tfoo (u:3:4)").unwrap();
    assert_eq!(s.name, "foo");
    assert_eq!((s.line, s.column), (3, 4));
    let s = parse_stack_line("at (u:5:6)").unwrap();
    assert_eq!(s.name, "");
    assert_eq!(s.source_file, "u");
    let s = parse_stack_line("x at u:7:8 trailing").unwrap();
    assert_eq!(s.name, "");
    assert_eq!(s.source_file, "u");
    assert_eq!((s.line, s.column), (7, 8));
}

#[test]
fn first_line_is_always_the_message() {
    let es = ErrorStack::from_raw("at foo (u:1:2)\nat bar (u:3:7)");
    assert_eq!(es.error_message, "at foo (u:1:2)");
    assert_eq!(es.stacks.len(), 1);
    assert_eq!(es.stacks[0].name, "bar");
    assert_eq!(es.stacks[0].line, 3);
    assert_eq!(es.stacks[0].column, 7);
    assert_eq!(es.error_raw, "at foo (u:1:2)\nat bar (u:3:7)");

    let es = ErrorStack::from_raw("ReferenceError: x\n  at foo (u:3:7)");
    assert_eq!(es.error_message, "ReferenceError: x");
    assert_eq!(es.stacks.len(), 1);
    assert_eq!((es.stacks[0].line, es.stacks[0].column), (3, 7));

    let es = ErrorStack::from_raw("");
    assert_eq!(es.error_message, "");
    assert!(es.stacks.is_empty());
}

#[test]
fn frames_keep_the_order_of_their_lines() {
    let es = ErrorStack::from_raw("E\r\n at a (u:1:1)\r\nnoise\r\n b@v:2:2\r\n@w:3:3\r");
    let names: Vec<&str> = es.stacks.iter().map(|s| s.name).collect();
    assert_eq!(names, vec!["a", "b", ""]);
    let files: Vec<&str> = es.stacks.iter().map(|s| s.source_file).collect();
    assert_eq!(files, vec!["u", "v", "w"]);
    assert_eq!(es.error_message, "E");
}

#[test]
fn long_lines_are_read() {
    let code = "function(a){return a.b(c)?d:e(f,{g:h,i:[1,2,3]})};".repeat(6000);
    assert!(parse_stack_line(&code).is_none());
    let after = format!("{code} at run (bundle.js:1:{})", code.len());
    let s = parse_stack_line(&after).expect("frame");
    assert_eq!(s.name, "run");
    assert_eq!(s.source_file, "bundle.js");
    assert_eq!((s.line, s.column), (1, 300000));
    let bare = format!("at http://h/{}.js:7:9", "x".repeat(200_000));
    let s = parse_stack_line(&bare).expect("frame");
    assert_eq!(s.source_file.len(), 200_000 + 12);
    assert_eq!((s.line, s.column), (7, 9));
    let block = format!("E\n{code}\n{after}\n");
    let es = ErrorStack::from_raw(&block);
    assert_eq!(es.stacks.len(), 1);
}
