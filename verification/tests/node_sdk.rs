use source_map_parser::node_sdk::{
    classify_frame, generate_token_by_single_stack, generate_token_by_stack_raw, lookup_context,
    lookup_token, lookup_token_with_context, map_error_stack, map_stack_line,
    map_stack_line_with_context, map_stack_trace, BatchError, FrameOutcome, ResolverReply,
    CONTEXT_RADIUS,
};
use source_map_parser::stack_transform::parse_stack_line;
use source_map_parser::ClientError;
use std::cell::RefCell;

fn sm_one(content: &str) -> String {
    let esc = content.replace('\n', "\\n");
    format!("{{\"version\":3,\"file\":\"min.js\",\"sources\":[\"a.js\"],\"sourcesContent\":[\"{esc}\"],\"names\":[],\"mappings\":\"AAAA\"}}")
}

type Formatter = fn(String) -> Option<String>;
type Resolver = fn(String) -> ResolverReply;
type OnError = fn(String, String);

#[test]
fn single_stack_token_ok() {
    let sm = sm_one("fn()\n");
    let token = generate_token_by_single_stack(1, 0, sm, Some(1)).expect("token");
    assert_eq!(token.source_code.len(), 2);
    assert_eq!(token.source_code[0].raw, "fn()");
}

#[test]
fn single_stack_token_none_when_invalid_line() {
    let sm = sm_one("fn()\n");
    assert!(generate_token_by_single_stack(0, 0, sm, None).is_none());
}

#[test]
fn generate_token_by_stack_raw_with_resolver() {
    let stack_raw = "Error: x\n  at foo (https://example.com/min.js:1:0)";
    let sm = sm_one("fn()\n");
    let formatter = |path: String| Some(path);
    let resolver = |_path: String| ResolverReply::Text(sm.clone());
    let result =
        generate_token_by_stack_raw(stack_raw, Some(formatter), Some(resolver), None::<OnError>)
            .expect("result");
    assert_eq!(result.stacks.len(), 1);
    assert_eq!(result.success.len(), 1);
    assert!(result.fail.is_empty());
}

#[test]
fn map_error_stack_with_context_some() {
    let sm = sm_one("l0()\nl1()\n");
    let err = "Error: boom\n  at foo (https://example.com/min.js:1:0)";
    let mapped = map_error_stack(&sm, err, Some(1)).expect("mapped");
    assert_eq!(mapped.frames_with_context.len(), 1);
    assert!(mapped.frames.is_empty());
}

#[test]
fn map_error_stack_without_context() {
    let sm = sm_one("l0()\nl1()\n");
    let err = "Error: boom\n  at foo (https://example.com/min.js:1:0)";
    let mapped = map_error_stack(&sm, err, None).expect("mapped");
    assert_eq!(mapped.frames.len(), 1);
    assert!(mapped.frames_with_context.is_empty());
}

#[test]
fn map_stack_trace_multi() {
    let sm = sm_one("l0()\n");
    let trace = "at foo (https://example.com/min.js:1:0)\n@https://example.com/min.js:1:0";
    let found = map_stack_trace(&sm, trace).expect("found");
    assert_eq!(found.len(), 2);
}

#[test]
fn lookup_basic() {
    let token = lookup_token(&sm_one("fn()\n"), 1, 0).expect("decodes").expect("token");
    assert_eq!(token.line, 0);
}

#[test]
fn lookup_with_context() {
    let token =
        lookup_token_with_context(&sm_one("fn()\n"), 1, 0, 1).expect("decodes").expect("token");
    assert_eq!(token.source_code.len(), 2);
}

#[test]
fn map_stack_line_smoke() {
    let line = "at foo (https://example.com/min.js:1:0)";
    let token = map_stack_line(&sm_one("fn()\n"), line).expect("decodes").expect("token");
    assert_eq!(token.line, 0);
    let token =
        map_stack_line_with_context(&sm_one("fn()\n"), line, 0).expect("decodes").expect("token");
    assert_eq!(token.source_code.len(), 1);
    let snippet = lookup_context(&sm_one("fn()\n"), 1, 0, 0).expect("decodes").expect("snippet");
    assert_eq!(snippet.line, 0);
}

#[test]
fn one_shot_lookups_tell_a_malformed_document() {
    let bad = "{ not valid json";
    assert!(matches!(lookup_token(bad, 1, 0), Err(ClientError::InvalidSourceMap(_))));
    assert!(matches!(
        lookup_token_with_context(bad, 1, 0, 1),
        Err(ClientError::InvalidSourceMap(_))
    ));
    assert!(matches!(lookup_context(bad, 1, 0, 1), Err(ClientError::InvalidSourceMap(_))));
    assert!(matches!(map_stack_line(bad, "at f (u:1:0)"), Err(ClientError::InvalidSourceMap(_))));
    assert!(matches!(
        map_stack_line_with_context(bad, "at f (u:1:0)", 1),
        Err(ClientError::InvalidSourceMap(_))
    ));
    assert!(matches!(map_stack_trace(bad, "at f (u:1:0)"), Err(ClientError::InvalidSourceMap(_))));
    assert!(matches!(
        map_error_stack(bad, "E\nat f (u:1:0)", None),
        Err(ClientError::InvalidSourceMap(_))
    ));
    assert!(lookup_token(&sm_one("x"), 0, 0).expect("decodes").is_none());
}

#[test]
fn line_zero_is_decided_without_the_document() {
    let bad = "{ not valid json";
    assert!(matches!(lookup_token(bad, 0, 0), Ok(None)));
    assert!(matches!(lookup_token_with_context(bad, 0, 7, 1), Ok(None)));
    assert!(matches!(lookup_context(bad, 0, 7, 1), Ok(None)));
    assert!(matches!(map_stack_line(bad, "at f (u:0:3)"), Ok(None)));
    assert!(matches!(map_stack_line(bad, "no frame here"), Ok(None)));
    assert!(matches!(map_stack_line_with_context(bad, "at f (u:0:3)", 2), Ok(None)));
    assert!(matches!(map_stack_line_with_context(bad, "at f (u:x:3)", 2), Ok(None)));
    assert!(map_stack_trace(bad, "at f (u:0:3)
noise
@v:0:1").expect("no lookup").is_empty());
    assert!(map_stack_trace(bad, "").expect("no lookup").is_empty());
    assert!(map_stack_trace(bad, "at f (u:0:3)
@v:1:1").is_err());
    let mapped = map_error_stack(bad, "Error: x
 at f (u:0:3)", Some(1)).expect("no lookup");
    assert_eq!(mapped.error_message, "Error: x");
    assert!(mapped.frames.is_empty());
    assert!(mapped.frames_with_context.is_empty());
    let mapped = map_error_stack(bad, "at f (u:1:3)", None).expect("no lookup");
    assert_eq!(mapped.error_message, "at f (u:1:3)");
    assert!(map_error_stack(bad, "Error: x
 at f (u:2:3)", None).is_err());
}

const BLOCK: &str = "Error: x\n at a (one.js:1:0)\n not a frame\n at b (two.js:1:0)\n c@three.js:1:0";

#[test]
fn without_a_resolver_every_frame_fails() {
    let heard: RefCell<Vec<(String, String)>> = RefCell::new(Vec::new());
    let on_error = |line: String, reason: String| heard.borrow_mut().push((line, reason));
    let result =
        generate_token_by_stack_raw(BLOCK, None::<Formatter>, None::<Resolver>, Some(on_error))
            .expect("result");
    assert_eq!(result.stacks.len(), 3);
    assert_eq!(result.fail.len(), 3);
    assert!(result.success.is_empty());
    for (fail, stack) in result.fail.iter().zip(result.stacks.iter()) {
        assert_eq!(fail.error_message, "no resolver provided");
        assert_eq!(fail.original_raw, stack.original_raw);
    }
    let heard = heard.into_inner();
    assert_eq!(heard.len(), 3);
    assert_eq!(heard[0], ("at a (one.js:1:0)".to_string(), "no resolver provided".to_string()));
    assert_eq!(heard[2].0, "c@three.js:1:0");
}

#[test]
fn with_a_document_for_every_frame_none_fails() {
    let sm = sm_one("l0\nl1\nl2\nl3\nl4\nl5\nl6\nl7");
    let heard: RefCell<Vec<(String, String)>> = RefCell::new(Vec::new());
    let on_error = |line: String, reason: String| heard.borrow_mut().push((line, reason));
    let resolver = |_path: String| ResolverReply::Text(sm.clone());
    let result =
        generate_token_by_stack_raw(BLOCK, None::<Formatter>, Some(resolver), Some(on_error))
            .expect("result");
    assert_eq!(result.stacks.len(), 3);
    assert!(result.fail.is_empty());
    assert_eq!(result.success.len(), 3);
    assert!(heard.into_inner().is_empty());
    let numbers: Vec<u32> = result.success[0].source_code.iter().map(|l| l.line).collect();
    assert_eq!(numbers, vec![0, 1, 2, 3, 4, 5]);
    assert_eq!(CONTEXT_RADIUS, 5);
}

#[test]
fn each_reply_is_told_apart() {
    let sm = sm_one("l0");
    let asked: RefCell<Vec<String>> = RefCell::new(Vec::new());
    let heard: RefCell<Vec<(String, String)>> = RefCell::new(Vec::new());
    let formatter = |path: String| Some(format!("{path}.map"));
    let resolver = |path: String| {
        asked.borrow_mut().push(path.clone());
        match path.as_str() {
            "one.js.map" => ResolverReply::Text(sm.clone()),
            "two.js.map" => ResolverReply::NotText,
            "three.js.map" => ResolverReply::Failed(Some("gone".to_string())),
            _ => ResolverReply::Failed(None),
        }
    };
    let on_error = |line: String, reason: String| heard.borrow_mut().push((line, reason));
    let block = format!("{BLOCK}\n at d (four.js:1:0)\n at e (one.js:0:0)\n at f (one.js:1:3)");
    let result = generate_token_by_stack_raw(&block, Some(formatter), Some(resolver), Some(on_error))
        .expect("result");
    assert_eq!(result.stacks.len(), 6);
    assert_eq!(
        asked.into_inner(),
        vec!["one.js.map", "two.js.map", "three.js.map", "four.js.map", "one.js.map", "one.js.map"]
    );
    let fails: Vec<(&str, &str)> = result
        .fail
        .iter()
        .map(|f| (f.original_raw.as_str(), f.error_message.as_str()))
        .collect();
    assert_eq!(
        fails,
        vec![
            ("at b (two.js:1:0)", "resolver did not return string"),
            ("c@three.js:1:0", "gone"),
            ("at d (four.js:1:0)", "resolver error"),
        ]
    );
    let heard = heard.into_inner();
    assert_eq!(heard.len(), 3);
    assert_eq!(heard[1], ("c@three.js:1:0".to_string(), "gone".to_string()));
    assert_eq!(result.success.len(), 2);
    assert_eq!(result.success[0].column, 0);
}

#[test]
fn a_task_that_does_not_resolve_leaves_no_trace() {
    let resolver = |path: String| match path.as_str() {
        "one.js" => ResolverReply::Text("{ not valid json".to_string()),
        "two.js" => ResolverReply::Text(" ".to_string()),
        _ => ResolverReply::Text(sm_one("l0")),
    };
    let result =
        generate_token_by_stack_raw(BLOCK, None::<Formatter>, Some(resolver), None::<OnError>)
            .expect("result");
    assert_eq!(result.stacks.len(), 3);
    assert!(result.fail.is_empty());
    assert_eq!(result.success.len(), 1);
}

#[test]
fn an_empty_text_is_no_document() {
    let heard: RefCell<Vec<(String, String)>> = RefCell::new(Vec::new());
    let on_error = |line: String, reason: String| heard.borrow_mut().push((line, reason));
    let resolver = |_path: String| ResolverReply::Text(String::new());
    let result = generate_token_by_stack_raw(
        "Error: x\n  at foo (u:1:0)",
        None::<Formatter>,
        Some(resolver),
        Some(on_error),
    )
    .expect("result");
    assert_eq!(result.stacks.len(), 1);
    assert!(result.success.is_empty());
    assert_eq!(result.fail.len(), 1);
    assert_eq!(result.fail[0].original_raw, "at foo (u:1:0)");
    assert_eq!(result.fail[0].error_message, "resolver did not return string");
    assert_eq!(
        heard.into_inner(),
        vec![("at foo (u:1:0)".to_string(), "resolver did not return string".to_string())]
    );
}

#[test]
fn a_formatter_that_fails_ends_the_batch() {
    let formatter = |path: String| if path == "two.js" { None } else { Some(path) };
    let asked: RefCell<Vec<String>> = RefCell::new(Vec::new());
    let resolver = |path: String| {
        asked.borrow_mut().push(path);
        ResolverReply::NotText
    };
    let result = generate_token_by_stack_raw(BLOCK, Some(formatter), Some(resolver), None::<OnError>);
    match result {
        Err(BatchError::FormatterFailure(file)) => assert_eq!(file, "two.js"),
        Ok(_) => panic!("the batch went on"),
    }
    assert_eq!(asked.into_inner(), vec!["one.js"]);
    let failing = |_path: String| None;
    let result =
        generate_token_by_stack_raw(BLOCK, Some(failing), None::<Resolver>, None::<OnError>);
    assert!(result.is_err());
    let result =
        generate_token_by_stack_raw("Error: x", Some(failing), None::<Resolver>, None::<OnError>)
            .expect("no frame, no call");
    assert!(result.stacks.is_empty());
}

#[test]
fn a_frame_is_classified_by_its_reply() {
    let stack = parse_stack_line(" at f (u:3:7) ").expect("frame");
    match classify_frame(&stack, Some(ResolverReply::Text("doc".to_string()))) {
        FrameOutcome::Task(task) => {
            assert_eq!(task.source_map_content, "doc");
            assert_eq!((task.line, task.column), (3, 7));
            assert_eq!(task.source_line_offset, Some(5));
        }
        FrameOutcome::Failure(_) => panic!("a text makes a task"),
    }
    for (reply, reason) in [
        (None, "no resolver provided"),
        (Some(ResolverReply::NotText), "resolver did not return string"),
        (Some(ResolverReply::Text(String::new())), "resolver did not return string"),
        (Some(ResolverReply::Failed(None)), "resolver error"),
        (Some(ResolverReply::Failed(Some("why".to_string()))), "why"),
    ] {
        match classify_frame(&stack, reply) {
            FrameOutcome::Failure(fail) => {
                assert_eq!(fail.error_message, reason);
                assert_eq!(fail.original_raw, "at f (u:3:7)");
            }
            FrameOutcome::Task(_) => panic!("no text, no task"),
        }
    }
}
