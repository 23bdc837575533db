use source_map_parser::stack_transform::parse_stack_trace;
use source_map_parser::{ClientError, SourceMapParserClient};

#[test]
fn test_client_lookup() {
    let sm = br#"{
			"version":3,
			"file":"min.js",
			"sources":["src/a.js"],
			"sourcesContent":["function add(a,b){\n  return a+b;\n}\n"],
			"names":["add","a","b"],
			"mappings":"AAAA,SAASA,IAAI,CAACC,CAAC,EAAEC,CAAC,EAAE;EACrB,OAAOD,CAAC,GAAGC,CAAC;AACjB"}"#;
    let client = SourceMapParserClient::new(sm).expect("create client");
    let token = client.lookup_token(1, 0).expect("token");
    assert!(token.src.unwrap().ends_with("src/a.js"));
}

#[test]
fn test_client_lookup_with_context() {
    let sm = br#"{
			"version":3,
			"file":"min.js",
			"sources":["src/a.js"],
			"sourcesContent":["line0()\nline1()\nline2()\nline3()\n"],
			"names":[],
			"mappings":"AAAA"}"#;
    let client = SourceMapParserClient::new(sm).unwrap();
    let tok = client.lookup_token_with_context(1, 0, 1).unwrap();
    assert!(tok.source_code.len() >= 2);
}

#[test]
fn test_client_generic_context() {
    let sm = br#"{
			"version":3,
			"file":"min.js",
			"sources":["src/a.js"],
			"sourcesContent":["a()\nb()\nc()\nd()\n"],
			"names":[],
			"mappings":"AAAA"}"#;
    let client = SourceMapParserClient::new(sm).unwrap();
    let snippet = client.lookup_context(1, 0, 2).unwrap();
    assert!(snippet.context.len() >= 3);
}

#[test]
fn test_client_map_stack_line() {
    let sm = br#"{
	          "version":3,
	          "file":"min.js",
	          "sources":["src/a.js"],
	          "sourcesContent":["fn()\n"],
	          "names":[],
	          "mappings":"AAAA"
	        }"#;
    let client = SourceMapParserClient::new(sm).unwrap();
    let line = "at foo (https://example.com/min.js:1:0)";
    let _ = client.map_stack_line(line);
}

#[test]
fn parse_stack_trace_two_shapes() {
    let trace = "at foo (https://example.com/app.js:10:5)\n@https://example.com/app.js:20:15";
    let stacks = parse_stack_trace(trace);
    assert_eq!(stacks.len(), 2);
}

/// Three lines of generated code. Line 1 maps to a.js line 0; line 2, from
/// column 4 on, to b.js line 2 column 4; line 3 has no mapping of its own.
const INDEX_MAP: &[u8] = br#"{"version":3,"file":"index.js","sources":["a.js","b.js","c.js"],"sourcesContent":["a0\na1\na2\n","b0\nb1\nb2\nb3",null],"names":[],"mappings":"AAAA;ICEI"}"#;

fn load_client() -> SourceMapParserClient {
    SourceMapParserClient::new(INDEX_MAP).expect("create client")
}

fn find_first_mapped_position(client: &SourceMapParserClient) -> Option<(u32, u32)> {
    for line in 1..=200 {
        if client.lookup_token(line, 0).is_some() {
            return Some((line, 0));
        }
    }
    for col in 0..=200 {
        if client.lookup_token(1, col).is_some() {
            return Some((1, col));
        }
    }
    None
}

#[test]
fn map_error_stack_with_context() {
    let client = load_client();
    let (line, col) = find_first_mapped_position(&client).expect("find a mapped position");
    let raw = format!("ReferenceError: x\n  at foo (https://example.com/index.js:{}:{})", line, col);
    let mapped = client.map_error_stack(&raw, Some(1));
    assert_eq!(mapped.error_message, "ReferenceError: x");
    assert!(mapped.frames_with_context.len() >= 1);
    let ctx = &mapped.frames_with_context[0];
    assert!(ctx.source_code.len() >= 2);
}

#[test]
fn unpack_all_sources_multi() {
    let client = load_client();
    let sources = client.unpack_all_sources();
    assert!(sources.len() >= 1);
    let any_non_empty = ["a.js", "b.js", "c.js"]
        .iter()
        .any(|path| sources.get(path).map(|text| !text.is_empty()).unwrap_or(false));
    assert!(any_non_empty);
}

#[test]
fn invalid_source_map_returns_error() {
    let bad = b"{ not a valid json";
    let err = SourceMapParserClient::new(bad).err().expect("err");
    let dbg = format!("{err:?}");
    assert!(dbg.contains("InvalidSourceMap"));
}

#[test]
fn lookup_out_of_range_returns_none() {
    let client = load_client();
    let _ = client.lookup_token(1_000_000, 0);
    let _ = client.lookup_token(1, 9_999_999);
}

#[test]
fn context_window_edge_at_start() {
    let client = load_client();
    let (line, col) = find_first_mapped_position(&client).expect("find a mapped position");
    let tok = client.lookup_token_with_context(line, col, 5).unwrap();
    assert!(tok.source_code.len() >= 1);
}

#[test]
fn a_malformed_document_is_told_by_kind() {
    let error = SourceMapParserClient::new(b"{ not valid json").err().expect("error");
    assert!(matches!(error, ClientError::InvalidSourceMap(_)));
    let text = error.message();
    assert!(text.starts_with("invalid sourcemap: "));
    assert!(text.len() > "invalid sourcemap: ".len());
    let error = SourceMapParserClient::new(b"").err().expect("error");
    assert!(matches!(error, ClientError::InvalidSourceMap(_)));
    let index = br#"{"version":3,"sections":[]}"#;
    assert!(SourceMapParserClient::new(index).is_err());
}

#[test]
fn every_source_with_a_text_is_unpacked() {
    let sources = load_client().unpack_all_sources();
    assert_eq!(sources.len(), 2);
    assert_eq!(sources.get("a.js").map(|s| s.as_str()), Some("a0\na1\na2\n"));
    assert_eq!(sources.get("b.js").map(|s| s.as_str()), Some("b0\nb1\nb2\nb3"));
    assert!(sources.get("c.js").is_none());
    assert!(!sources.contains_key("min.js"));
}

#[test]
fn the_last_source_of_a_path_stands() {
    let twice = br#"{"version":3,"sources":["a.js","a.js","a.js"],"sourcesContent":["first","second",null],"names":[],"mappings":"AAAA"}"#;
    let sources = SourceMapParserClient::new(twice).unwrap().unpack_all_sources();
    assert_eq!(sources.len(), 1);
    assert_eq!(sources.get("a.js").map(|s| s.as_str()), Some("second"));
}

#[test]
fn the_closest_position_before_is_found() {
    let client = load_client();
    let token = client.lookup_token(2, 4).expect("token");
    assert_eq!((token.line, token.column), (2, 4));
    assert_eq!(token.src.as_deref(), Some("b.js"));
    let token = client.lookup_token(2, 9).expect("token");
    assert_eq!((token.line, token.column), (2, 4));
    let token = client.lookup_token(2, 0).expect("token");
    assert_eq!(token.src.as_deref(), Some("a.js"));
    assert!(client.lookup_token(0, 0).is_none());
    assert!(client.lookup_token_with_context(0, 0, 1).is_none());
    assert!(client.lookup_context(0, 0, 1).is_none());
}

#[test]
fn the_target_line_is_always_in_the_window() {
    let client = load_client();
    let token = client.map_stack_line_with_context("at f (index.js:2:4)", 1).expect("token");
    assert_eq!(token.line, 2);
    let target: Vec<u32> =
        token.source_code.iter().filter(|l| l.is_stack_line).map(|l| l.line).collect();
    assert_eq!(target, vec![2]);
    let numbers: Vec<u32> = token.source_code.iter().map(|l| l.line).collect();
    assert_eq!(numbers, vec![1, 2, 3]);

    let snippet = client.lookup_context(2, 4, 1).expect("snippet");
    assert_eq!(snippet.line, 2);
    assert_eq!(snippet.column, 4);
    assert_eq!(snippet.src, "b.js");
    assert!(snippet.context.iter().any(|l| l.line == 2 && l.is_target));
}

#[test]
fn lines_that_do_not_resolve_are_left_out() {
    let client = load_client();
    assert!(client.map_stack_line("nothing here").is_none());
    assert!(client.map_stack_line("at f (index.js:0:0)").is_none());
    let token = client.map_stack_line("at f (index.js:2:4)").expect("token");
    assert_eq!(token.src.as_deref(), Some("b.js"));

    let found = client.map_stack_trace("at f (index.js:2:4)\nnoise\n@index.js:0:1\ng@index.js:1:0");
    let files: Vec<Option<&str>> = found.iter().map(|t| t.src.as_deref()).collect();
    assert_eq!(files, vec![Some("b.js"), Some("a.js")]);
}

#[test]
fn one_list_of_the_two_is_filled() {
    let client = load_client();
    let raw = "TypeError: y\n at f (index.js:2:4)\n at g (index.js:0:0)\n at h (index.js:1:0)";
    let bare = client.map_error_stack(raw, None);
    assert_eq!(bare.error_message, "TypeError: y");
    assert_eq!(bare.frames.len(), 2);
    assert!(bare.frames_with_context.is_empty());
    assert_eq!(bare.frames[0].line, 2);
    assert_eq!(bare.frames[1].line, 0);

    let with = client.map_error_stack(raw, Some(0));
    assert_eq!(with.error_message, "TypeError: y");
    assert!(with.frames.is_empty());
    assert_eq!(with.frames_with_context.len(), 2);
    assert_eq!(with.frames_with_context[0].source_code.len(), 1);
    assert_eq!(with.frames_with_context[0].source_code[0].raw, "b2");
}

/// One mapping, of the generated position line 0 column 4, marked as a
/// range mapping.
const RANGED: &[u8] = br#"{"version":3,"sources":["a.js"],"sourcesContent":["a0\na1"],"names":[],"mappings":"IAAA;","rangeMappings":"B"}"#;

#[test]
fn a_range_mapping_is_found_from_its_column_on() {
    let client = SourceMapParserClient::new(RANGED).expect("create client");
    let token = client.lookup_token(1, 4).expect("token");
    assert_eq!((token.line, token.column), (0, 0));
    let token = client.lookup_token(1, 9).expect("token");
    assert_eq!((token.line, token.column), (0, 5));
    let token = client.lookup_token(2, 4).expect("token");
    assert_eq!((token.line, token.column), (0, 0));
    let token = client.lookup_token(7, 6).expect("token");
    assert_eq!((token.line, token.column), (0, 2));
    let token = client.lookup_token(7, u32::MAX).expect("token");
    assert_eq!(token.line, 0);
    assert!(client.lookup_token(1, 3).is_none());
    let token = client.lookup_token_with_context(1, 4, 1).expect("token");
    assert_eq!(token.source_code.len(), 2);
    let snippet = client.lookup_context(2, 5, 0).expect("snippet");
    assert_eq!((snippet.line, snippet.column), (0, 1));
    assert_eq!(client.unpack_all_sources().len(), 1);
}

#[test]
fn a_range_mapping_right_of_the_column_is_not_looked_up() {
    let client = SourceMapParserClient::new(RANGED).expect("create client");
    assert!(client.lookup_token(2, 0).is_none());
    assert!(client.lookup_token(2, 3).is_none());
    assert!(client.lookup_token(1000, 0).is_none());
    assert!(client.lookup_token_with_context(2, 0, 1).is_none());
    assert!(client.lookup_context(2, 3, 1).is_none());
    assert!(client.map_stack_line("at f (u:2:0)").is_none());
    assert!(client.map_stack_line("at f (u:2:4)").is_some());

    let plain = br#"{"version":3,"sources":["a.js"],"sourcesContent":["a0\na1"],"names":[],"mappings":"IAAA;"}"#;
    let client = SourceMapParserClient::new(plain).expect("create client");
    assert!(client.lookup_token(1, 4).is_some());
    assert!(client.lookup_token(2, 0).is_some());
    assert!(client.lookup_token(1, 3).is_none());
}

#[test]
fn a_mapping_on_the_line_comes_before_an_earlier_range() {
    let two = br#"{"version":3,"sources":["a.js"],"sourcesContent":["a0\na1"],"names":[],"mappings":"IAAA;CACA","rangeMappings":"B"}"#;
    let client = SourceMapParserClient::new(two).expect("create client");
    assert!(client.lookup_token(2, 0).is_none());
    let token = client.lookup_token(2, 1).expect("token");
    assert_eq!((token.line, token.column), (1, 0));
    let token = client.lookup_token(2, 2).expect("token");
    assert_eq!((token.line, token.column), (1, 0));
    let token = client.lookup_token(3, 0).expect("token");
    assert_eq!((token.line, token.column), (1, 0));
}
