use ai_agent::stream::StreamAccumulator;
use ai_agent::types::{ChatChunk, FunctionCallChunk, Role, ToolCallChunk};

fn fragment(index: Option<usize>, id: Option<&str>, name: Option<&str>, args: Option<&str>) -> ToolCallChunk {
    ToolCallChunk {
        index,
        id: id.map(|s| s.to_string()),
        kind: Some("function".to_string()),
        function: Some(FunctionCallChunk {
            name: name.map(|s| s.to_string()),
            arguments: args.map(|s| s.to_string()),
        }),
    }
}

#[test]
fn test_accumulator_text_only() {
    let mut acc = StreamAccumulator::new();
    acc.push(&ChatChunk {
        delta_content: Some("Hello ".into()),
        delta_tool_calls: None,
    });
    acc.push(&ChatChunk {
        delta_content: Some("world!".into()),
        delta_tool_calls: None,
    });

    let msg = acc.into_message();
    assert_eq!(msg.role, Role::Assistant);
    assert_eq!(msg.content.as_deref(), Some("Hello world!"));
    assert!(msg.tool_calls.is_none());
}

#[test]
fn test_accumulator_tool_calls() {
    let mut acc = StreamAccumulator::new();

    acc.push(&ChatChunk {
        delta_content: None,
        delta_tool_calls: Some(vec![ToolCallChunk {
            index: Some(0),
            id: Some("call_abc".into()),
            kind: Some("function".into()),
            function: Some(FunctionCallChunk {
                name: Some("dummy".into()),
                arguments: None,
            }),
        }]),
    });

    acc.push(&ChatChunk {
        delta_content: None,
        delta_tool_calls: Some(vec![ToolCallChunk {
            index: Some(0),
            id: None,
            kind: None,
            function: Some(FunctionCallChunk {
                name: None,
                arguments: Some(r#"{"input":"#.into()),
            }),
        }]),
    });

    acc.push(&ChatChunk {
        delta_content: None,
        delta_tool_calls: Some(vec![ToolCallChunk {
            index: Some(0),
            id: None,
            kind: None,
            function: Some(FunctionCallChunk {
                name: None,
                arguments: Some(r#""hello"}"#.into()),
            }),
        }]),
    });

    let msg = acc.into_message();
    assert_eq!(msg.role, Role::Assistant);
    assert!(msg.content.is_none());
    let calls = msg.tool_calls.unwrap();
    assert_eq!(calls.len(), 1);
    assert_eq!(calls[0].id, "call_abc");
    assert_eq!(calls[0].function.name, "dummy");
    assert_eq!(calls[0].function.arguments, r#"{"input":"hello"}"#);
}

#[test]
fn calls_are_ordered_by_index_and_do_not_mix() {
    let mut acc = StreamAccumulator::new();
    acc.push(&ChatChunk {
        delta_content: Some("a".into()),
        delta_tool_calls: Some(vec![
            fragment(Some(7), Some("late"), Some("x"), Some("1")),
            fragment(Some(2), Some("early"), Some("y"), Some("2")),
        ]),
    });
    acc.push(&ChatChunk {
        delta_content: Some("b".into()),
        delta_tool_calls: Some(vec![
            fragment(Some(7), None, None, Some("3")),
            fragment(Some(2), None, Some("z"), Some("4")),
        ]),
    });
    let msg = acc.into_message();
    assert_eq!(msg.content.as_deref(), Some("ab"));
    let calls = msg.tool_calls.unwrap();
    assert_eq!(calls.len(), 2);
    assert_eq!(calls[0].id, "early");
    assert_eq!(calls[0].function.name, "z");
    assert_eq!(calls[0].function.arguments, "24");
    assert_eq!(calls[1].id, "late");
    assert_eq!(calls[1].function.name, "x");
    assert_eq!(calls[1].function.arguments, "13");
}

#[test]
fn what_never_came_is_filled_in() {
    let mut acc = StreamAccumulator::default();
    acc.push(&ChatChunk {
        delta_content: None,
        delta_tool_calls: Some(vec![ToolCallChunk {
            index: None,
            id: None,
            kind: None,
            function: None,
        }]),
    });
    let calls = acc.into_message().tool_calls.unwrap();
    assert_eq!(calls[0].id, "call_unknown");
    assert_eq!(calls[0].kind, "function");
    assert_eq!(calls[0].function.name, "unknown");
    assert_eq!(calls[0].function.arguments, "");
}

#[test]
fn an_empty_stream_is_an_empty_message() {
    let msg = StreamAccumulator::new().into_message();
    assert!(msg.content.is_none());
    assert!(msg.tool_calls.is_none());
}

#[test]
fn chunk_borders_do_not_matter() {
    let whole = {
        let mut acc = StreamAccumulator::new();
        acc.push(&ChatChunk {
            delta_content: Some("xy".into()),
            delta_tool_calls: Some(vec![
                fragment(Some(0), Some("c"), Some("n"), Some("12")),
            ]),
        });
        acc.into_message()
    };
    let cut = {
        let mut acc = StreamAccumulator::new();
        acc.push(&ChatChunk { delta_content: Some("x".into()), delta_tool_calls: None });
        acc.push(&ChatChunk {
            delta_content: None,
            delta_tool_calls: Some(vec![fragment(Some(0), Some("c"), Some("n"), Some("1"))]),
        });
        acc.push(&ChatChunk {
            delta_content: Some("y".into()),
            delta_tool_calls: Some(vec![fragment(Some(0), None, None, Some("2"))]),
        });
        acc.into_message()
    };
    assert_eq!(whole, cut);
}

#[test]
fn the_text_so_far_can_be_read() {
    let mut acc = StreamAccumulator::default();
    assert_eq!(acc.content, "");
    for part in ["Hel", "lo"] {
        acc.push(&ChatChunk { delta_content: Some(part.into()), delta_tool_calls: None });
    }
    assert_eq!(acc.content, "Hello");
}
