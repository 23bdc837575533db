use source_map_parser::token_generator::{
    generate_context_token_from_map, generate_source_map_token,
    generate_source_map_token_from_map, get_stack_source, source_lines, GenerateTask,
    GenerateToken,
};
use sourcemap::SourceMap;

fn simple_sm(src: &str, content: &str) -> String {
    format!(
        r#"{{"version":3,"file":"min.js","sources":["{src}"],"sourcesContent":["{content}"],"names":[],"mappings":"AAAA"}}"#
    )
}

#[test]
fn test_get_stack_source_single_line() {
    let sm = simple_sm("a.js", "fn()\\n");
    let tok = get_stack_source(&sm, 1, 0, None).expect("token");
    assert_eq!(tok.line, 0);
    assert_eq!(tok.source_code.len(), 1);
}

#[test]
fn test_get_stack_source_with_offset() {
    let sm = simple_sm("a.js", "l0()\\nl1()\\nl2()\\n");
    let tok = get_stack_source(&sm, 1, 0, Some(1)).expect("token");
    assert!(tok.source_code.len() >= 1);
}

#[test]
fn test_generate_token_batch() {
    let sm = simple_sm("a.js", "l0()\\nl1()\\n");
    let mut gen = GenerateToken::new();
    gen.add_task(GenerateTask {
        source_map_content: sm.clone(),
        line: 1,
        column: 0,
        source_line_offset: None,
    });
    gen.add_task(GenerateTask {
        source_map_content: sm,
        line: 1,
        column: 0,
        source_line_offset: Some(1),
    });
    gen.generate();
    let tokens = gen.get_tokens();
    assert_eq!(tokens.len(), 2);
}

#[test]
fn test_generate_context_token_from_map() {
    let sm_raw = simple_sm("a.js", "l0()\\nl1()\\nl2()\\n");
    let sm = SourceMap::from_reader(sm_raw.as_bytes()).unwrap();
    let tok = generate_context_token_from_map(&sm, 1, 0, 1).unwrap();
    assert!(tok.source_code.len() >= 2);
}

/// Two lines of generated code; the second maps to line 2, column 4 of the
/// second source.
fn two_sources() -> String {
    r#"{"version":3,"file":"min.js","sources":["a.js","b.js"],"sourcesContent":["a0\na1\na2\n","b0\nb1\nb2\nb3"],"names":[],"mappings":"AAAA;ICEI"}"#
        .to_string()
}

#[test]
fn a_position_is_found_with_its_source() {
    let token = generate_source_map_token(&two_sources(), 2, 4).expect("token");
    assert_eq!(token.line, 2);
    assert_eq!(token.column, 4);
    assert_eq!(token.src.as_deref(), Some("b.js"));
    assert_eq!(token.source_code.as_deref(), Some("b0\nb1\nb2\nb3"));

    let token = generate_source_map_token(&two_sources(), 1, 7).expect("token");
    assert_eq!((token.line, token.column), (0, 0));
    assert_eq!(token.src.as_deref(), Some("a.js"));
}

#[test]
fn line_zero_finds_nothing() {
    let sm = SourceMap::from_reader(two_sources().as_bytes()).unwrap();
    assert!(generate_source_map_token_from_map(&sm, 0, 0).is_none());
    assert!(generate_context_token_from_map(&sm, 0, 0, 3).is_none());
    assert!(generate_source_map_token(&two_sources(), 0, 0).is_none());
    assert!(generate_source_map_token("{ not valid json", 0, 0).is_none());
    assert!(get_stack_source(&two_sources(), 0, 0, Some(2)).is_none());
    let mut gen = GenerateToken::new();
    gen.add_task(GenerateTask {
        source_map_content: two_sources(),
        line: 0,
        column: 0,
        source_line_offset: Some(5),
    });
    gen.generate();
    assert!(gen.get_tokens().is_empty());
}

#[test]
fn a_document_that_does_not_decode_finds_nothing() {
    assert!(generate_source_map_token("{ not valid json", 1, 0).is_none());
    assert!(get_stack_source("", 1, 0, None).is_none());
}

#[test]
fn the_window_covers_both_sides() {
    let token = get_stack_source(&two_sources(), 2, 4, Some(1)).expect("token");
    assert_eq!((token.line, token.column), (2, 4));
    assert_eq!(token.src, "b.js");
    let shown: Vec<(u32, bool, &str)> =
        token.source_code.iter().map(|l| (l.line, l.is_stack_line, l.raw.as_str())).collect();
    assert_eq!(shown, vec![(1, false, "b1"), (2, true, "b2"), (3, false, "b3")]);
}

#[test]
fn the_window_is_cut_at_line_zero_only() {
    let lines = source_lines("l0\nl1\nl2", 1, 3);
    let shown: Vec<(u32, bool, &str)> =
        lines.iter().map(|l| (l.line, l.is_stack_line, l.raw.as_str())).collect();
    assert_eq!(
        shown,
        vec![(0, false, "l0"), (1, true, "l1"), (2, false, "l2"), (3, false, ""), (4, false, "")]
    );
}

#[test]
fn no_offset_shows_the_line_alone() {
    let token = get_stack_source(&two_sources(), 2, 4, None).expect("token");
    assert_eq!(token.source_code.len(), 1);
    assert_eq!(token.source_code[0].line, 2);
    assert!(token.source_code[0].is_stack_line);
    assert_eq!(token.source_code[0].raw, "b2");
    let token = get_stack_source(&two_sources(), 2, 4, Some(0)).expect("token");
    assert_eq!(token.source_code.len(), 1);
    assert!(token.source_code[0].is_stack_line);
}

/// A document without the texts of its sources.
fn without_texts() -> String {
    r#"{"version":3,"file":"min.js","sources":["a.js"],"names":[],"mappings":"AAAA"}"#.to_string()
}

#[test]
fn a_source_without_text() {
    let token = get_stack_source(&without_texts(), 1, 0, Some(2)).expect("token");
    assert_eq!(token.src, "a.js");
    assert!(token.source_code.is_empty());

    let sm = SourceMap::from_reader(without_texts().as_bytes()).unwrap();
    assert!(generate_context_token_from_map(&sm, 1, 0, 2).is_none());
    let found = generate_source_map_token_from_map(&sm, 1, 0).expect("token");
    assert!(found.source_code.is_none());

    let mut gen = GenerateToken::new();
    gen.add_task(GenerateTask {
        source_map_content: without_texts(),
        line: 1,
        column: 0,
        source_line_offset: None,
    });
    gen.generate();
    assert!(gen.get_tokens().is_empty());
}

#[test]
fn tokens_keep_the_order_of_their_tasks() {
    let mut gen = GenerateToken::new();
    for (content, line, column) in [
        (two_sources(), 2, 4),
        ("broken".to_string(), 1, 0),
        (two_sources(), 0, 0),
        (two_sources(), 1, 0),
    ] {
        gen.add_task(GenerateTask {
            source_map_content: content,
            line,
            column,
            source_line_offset: Some(1),
        });
    }
    gen.generate();
    let tokens = gen.get_tokens();
    assert_eq!(tokens.len(), 2);
    assert_eq!(tokens[0].src, "b.js");
    assert_eq!(tokens[1].src, "a.js");
    assert_eq!(tokens[1].source_code.len(), 2);
    gen.generate();
    assert_eq!(gen.get_tokens().len(), 4);
}

#[test]
fn a_document_with_range_mappings() {
    let ranged = r#"{"version":3,"sources":["a.js"],"sourcesContent":["a0\na1"],"names":[],"mappings":"IAAA;","rangeMappings":"B"}"#;
    let token = generate_source_map_token(ranged, 1, 4).expect("token");
    assert_eq!((token.line, token.column), (0, 0));
    let token = generate_source_map_token(ranged, 2, 6).expect("token");
    assert_eq!((token.line, token.column), (0, 2));
    assert!(generate_source_map_token(ranged, 2, 0).is_none());
    assert!(get_stack_source(ranged, 2, 0, Some(1)).is_none());
    assert!(get_stack_source(ranged, 2, 4, Some(1)).is_some());
    let sm = SourceMap::from_reader(ranged.as_bytes()).unwrap();
    assert!(generate_source_map_token_from_map(&sm, 2, 0).is_none());
    assert!(generate_source_map_token_from_map(&sm, 2, 4).is_some());
    assert!(generate_context_token_from_map(&sm, 2, 3, 1).is_none());
    assert!(generate_context_token_from_map(&sm, 1, 4, 1).is_some());
}
