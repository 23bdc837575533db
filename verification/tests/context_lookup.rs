use source_map_parser::context_lookup::{extract_context, lookup_context_from_sourcemap};

fn sm(content: &str) -> sourcemap::SourceMap {
    let escaped = content.replace('\n', "\\n");
    let raw = format!("{{\"version\":3,\"file\":\"min.js\",\"sources\":[\"a.js\"],\"sourcesContent\":[\"{escaped}\"],\"names\":[],\"mappings\":\"AAAA\"}}");
    sourcemap::SourceMap::from_reader(raw.as_bytes()).unwrap()
}

#[test]
fn lookup_basic_context() {
    let smap = sm("l0()\nl1()\nl2()\n");
    let snippet = lookup_context_from_sourcemap(&smap, 1, 0, 1).unwrap();
    assert!(snippet.context.len() >= 2);
    assert!(snippet.context.iter().any(|c| c.is_target));
}

#[test]
fn lookup_returns_none_when_line_zero() {
    let smap = sm("a()\n");
    assert!(lookup_context_from_sourcemap(&smap, 0, 0, 1).is_none());
}

fn shown(text: &str, target: u32, radius: u32) -> Vec<(u32, bool, String)> {
    extract_context(text, target, radius).into_iter().map(|l| (l.line, l.is_target, l.code)).collect()
}

#[test]
fn radius_zero_is_the_target_alone() {
    assert_eq!(shown("a\nb\nc", 1, 0), vec![(1, true, "b".to_string())]);
    assert_eq!(shown("a\nb\nc", 7, 0), vec![(7, true, String::new())]);
    assert_eq!(shown("", 0, 0), vec![(0, true, String::new())]);
    assert_eq!(shown("x", u32::MAX, 0), vec![(u32::MAX, true, String::new())]);
}

#[test]
fn the_low_end_is_cut_and_the_high_end_is_not() {
    assert_eq!(
        shown("a\nb\nc", 1, 2),
        vec![
            (0, false, "a".to_string()),
            (1, true, "b".to_string()),
            (2, false, "c".to_string()),
            (3, false, String::new()),
        ]
    );
    assert_eq!(
        shown("a\nb", 5, 1),
        vec![(4, false, String::new()), (5, true, String::new()), (6, false, String::new())]
    );
}

#[test]
fn the_window_ends_with_the_line_numbers() {
    let window = shown("a", u32::MAX - 1, 3);
    let numbers: Vec<u32> = window.iter().map(|l| l.0).collect();
    assert_eq!(numbers, vec![u32::MAX - 4, u32::MAX - 3, u32::MAX - 2, u32::MAX - 1, u32::MAX]);
    assert!(window[3].1);
}

#[test]
fn lines_end_at_line_feeds() {
    assert_eq!(
        shown("a\r\n\nb\r", 1, 1),
        vec![(0, false, "a".to_string()), (1, true, String::new()), (2, false, "b\r".to_string())]
    );
}

#[test]
fn the_snippet_has_the_line_of_its_position() {
    let smap = sm("l0()\nl1()\nl2()\n");
    let snippet = lookup_context_from_sourcemap(&smap, 1, 0, 1).unwrap();
    assert_eq!(snippet.src, "a.js");
    assert_eq!(snippet.line, 0);
    assert_eq!(snippet.column, 0);
    let lines: Vec<(u32, bool, &str)> =
        snippet.context.iter().map(|l| (l.line, l.is_target, l.code.as_str())).collect();
    assert_eq!(lines, vec![(0, true, "l0()"), (1, false, "l1()")]);
}
