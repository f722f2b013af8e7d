use ai_agent::json::Json;
use ai_agent::provider::{
    bearer_header, build_provider_pool, read_line, Backoff, CredentialRotator, FallbackProvider,
    Move, OllamaProvider, Patience, ProviderConfig, ProviderEnv, ProviderError, ProviderKind,
    Purpose, Reply, StreamLine,
};
use ai_agent::types::{ChatChunk, FunctionCall, Message, Role, ToolCall, ToolDefinition};
use ai_agent::wire::{
    chat_body, embedding_body, history_json, message_json, read_chunk, ChunkStep, WireChunk,
};

fn config(name: &str, model: &str, embeddings: bool) -> ProviderConfig {
    ProviderConfig {
        name: name.into(),
        base_url: format!("http://{name}//"),
        model_name: model.into(),
        api_key: None,
        supports_embeddings: embeddings,
        kind: ProviderKind::OpenAI,
    }
}

/// Read a chunk the way a provider sends it.
fn wire_chunk(data: &str) -> WireChunk {
    let doc: serde_json::Value = serde_json::from_str(data).unwrap();
    let choices = doc["choices"].as_array().unwrap();
    WireChunk::OpenAI {
        choices: choices
            .iter()
            .map(|c| ChatChunk {
                delta_content: c["delta"]["content"].as_str().map(|s| s.to_string()),
                delta_tool_calls: None,
            })
            .collect(),
    }
}

#[test]
fn test_fallback_on_http_error() {
    let providers = vec![
        config("rate-limited", "model-a", false),
        config("working", "model-b", false),
    ];
    let fb = FallbackProvider::new(providers, 5_000, &None);

    let mut search = fb.begin(Purpose::Chat);
    let first = match fb.choose_next(&mut search) {
        Move::Ask(i) => i,
        other => panic!("{other:?}"),
    };
    assert_eq!(fb.provider(first).name, "rate-limited");
    assert_eq!(fb.provider(first).url(Purpose::Chat), "http://rate-limited/v1/chat/completions");
    let refused = Reply::Refused { status: 429, body: r#"{"error":"rate limited"}"#.into() };
    assert_eq!(search.judge(refused), Move::Next);

    let second = match fb.choose_next(&mut search) {
        Move::Ask(i) => i,
        other => panic!("{other:?}"),
    };
    assert_eq!(fb.provider(second).name, "working");
    assert_eq!(search.judge(Reply::Good), Move::Accept);

    let sse_body = "data: {\"choices\":[{\"delta\":{\"content\":\"Hello\",\"tool_calls\":null}}]}\n\ndata: [DONE]\n\n";
    let mut chunks: Vec<ChatChunk> = vec![];
    let mut done = false;
    for line in sse_body.lines() {
        match read_line(fb.provider(second).kind, line) {
            StreamLine::Skip => {}
            StreamLine::Stop => {
                done = true;
                break;
            }
            StreamLine::Data(data) => match read_chunk(wire_chunk(&data)) {
                ChunkStep::Yield(c) => chunks.push(c),
                ChunkStep::Skip => {}
                ChunkStep::Stop => panic!("no end is marked in this format"),
            },
        }
    }
    let chunk = chunks.first();
    assert!(chunk.is_some(), "Expected a chunk from the fallback provider");
    assert_eq!(
        chunk.unwrap().delta_content.as_deref(),
        Some("Hello"),
        "Content should come from the working provider"
    );
    assert!(done && chunks.len() == 1, "Stream should be exhausted after [DONE]");
}

#[test]
fn test_build_provider_pool_has_fallback() {
    let pool = build_provider_pool(&ProviderEnv::default());
    assert!(!pool.is_empty(), "Pool must not be empty");
    assert!(
        pool.iter().any(|p| p.name == "ollama-local"),
        "Pool must include local Ollama fallback"
    );
}

#[test]
fn the_pool_without_any_variables() {
    let pool = build_provider_pool(&ProviderEnv::default());
    assert_eq!(
        pool,
        vec![ProviderConfig {
            name: "ollama-local".into(),
            base_url: "http://localhost:11434".into(),
            model_name: "qwen2.5:3b".into(),
            api_key: None,
            supports_embeddings: true,
            kind: ProviderKind::OpenAI,
        }]
    );
}

#[test]
fn the_pool_with_all_variables() {
    let env = ProviderEnv {
        model: Some("m".into()),
        ollama_api_key: Some("k".into()),
        pool: Some(" [\"http://a\" , 'http://b',, ] ".into()),
        openrouter_api_key: Some(" or ".into()),
        openrouter_model: None,
        cloud_api_key: Some("cl".into()),
        cloud_base_url: None,
        ollama_base_url: Some("http://l".into()),
        embedding_model: Some("e".into()),
    };
    let pool = build_provider_pool(&env);
    let seen: Vec<(&str, &str, &str, Option<&str>, bool, ProviderKind)> = pool
        .iter()
        .map(|p| {
            (
                p.name.as_str(),
                p.base_url.as_str(),
                p.model_name.as_str(),
                p.api_key.as_deref(),
                p.supports_embeddings,
                p.kind,
            )
        })
        .collect();
    assert_eq!(
        seen,
        vec![
            ("pool-0", "http://a", "m", Some("k"), true, ProviderKind::OpenAI),
            ("pool-1", "http://b", "m", Some("k"), true, ProviderKind::OpenAI),
            (
                "openrouter",
                "https://openrouter.ai/api/v1",
                "qwen/qwen-2.5-coder-32b-instruct:free",
                Some("or"),
                false,
                ProviderKind::OpenAI
            ),
            (
                "ollama-cloud",
                "https://ollama.com",
                "m",
                Some("cl"),
                false,
                ProviderKind::OllamaChat
            ),
            ("ollama-local", "http://l", "m", Some("k"), true, ProviderKind::OpenAI),
        ]
    );
    let fb = FallbackProvider::from_env(&env);
    assert_eq!(fb.provider_count(), 5);
    assert_eq!(fb.chunk_timeout(), 10_000);
    assert_eq!(fb.embedding_model(), "e");
    assert_eq!(FallbackProvider::from_env(&ProviderEnv::default()).embedding_model(), "nomic-embed-text");
}

#[test]
fn blank_keys_do_not_count() {
    let env = ProviderEnv {
        openrouter_api_key: Some("  ".into()),
        cloud_api_key: Some(String::new()),
        pool: Some(" , ".into()),
        ..ProviderEnv::default()
    };
    assert_eq!(build_provider_pool(&env).len(), 1);
}

#[test]
fn endpoints_take_turns() {
    let r = CredentialRotator::new(vec!["a".into(), "b".into(), "c".into()]);
    let shared = r.clone();
    let seen: Vec<String> = (0..4).map(|_| r.get_next().unwrap()).collect();
    assert_eq!(seen, vec!["a", "b", "c", "a"]);
    assert_eq!(shared.get_next().as_deref(), Some("b"));
    assert_eq!(r.endpoint_at(usize::MAX).as_deref(), Some("a"));
    assert_eq!(r.endpoint_at(5).as_deref(), Some("c"));
}

#[test]
fn a_request_visits_every_provider_once() {
    let fb = FallbackProvider::new(
        vec![config("a", "m", false), config("b", "m", false), config("c", "m", false)],
        1,
        &None,
    );
    let mut search = fb.begin(Purpose::Chat);
    let mut seen = vec![];
    for n in 0..3 {
        match fb.choose_next(&mut search) {
            Move::Ask(i) => seen.push(i),
            other => panic!("{other:?}"),
        }
        search.judge(Reply::Broken(format!("{n}")));
    }
    assert_eq!(seen, vec![0, 1, 2]);
    assert_eq!(
        fb.choose_next(&mut search),
        Move::GiveUp(ProviderError::Network("2".into()))
    );
}

#[test]
fn a_context_that_is_too_large_ends_the_search() {
    let fb = FallbackProvider::new(vec![config("a", "m", true)], 1, &None);
    let large = || Reply::Refused { status: 413, body: "x".into() };
    let mut search = fb.begin(Purpose::Chat);
    fb.choose_next(&mut search);
    assert_eq!(
        search.judge(large()),
        Move::GiveUp(ProviderError::ApiError { status: 413, body: "x".into() })
    );
    let mut search = fb.begin(Purpose::Embedding);
    fb.choose_next(&mut search);
    assert_eq!(search.judge(large()), Move::Next);
}

#[test]
fn providers_without_embeddings_are_passed_over() {
    let fb = FallbackProvider::new(vec![config("a", "m", false), config("b", "m", true)], 1, &None);
    let mut search = fb.begin(Purpose::Embedding);
    assert_eq!(fb.choose_at(&mut search, 0), Move::Skip);
    assert_eq!(fb.choose_at(&mut search, 1), Move::Ask(1));
    assert_eq!(fb.provider(1).url(Purpose::Embedding), "http://b/api/embeddings");
    assert_eq!(
        fb.choose_at(&mut search, 0),
        Move::GiveUp(ProviderError::Execution("All providers failed for embedding".into()))
    );
    let empty = FallbackProvider::new(vec![], 1, &None);
    let mut search = empty.begin(Purpose::Chat);
    assert_eq!(
        empty.choose_next(&mut search),
        Move::GiveUp(ProviderError::Execution("All providers failed".into()))
    );
}

#[test]
fn addresses_and_keys() {
    let mut c = config("x", "m", false);
    c.kind = ProviderKind::OllamaChat;
    assert_eq!(c.url(Purpose::Chat), "http://x/api/chat");
    assert_eq!(bearer_header(&Some("k".into())).as_deref(), Some("Bearer k"));
    assert_eq!(bearer_header(&None), None);
    assert_eq!(ProviderKind::default(), ProviderKind::OpenAI);
}

#[test]
fn lines_of_both_formats() {
    assert_eq!(read_line(ProviderKind::OpenAI, "  data: x  "), StreamLine::Data("x".into()));
    assert_eq!(read_line(ProviderKind::OpenAI, "data: [DONE]\r"), StreamLine::Stop);
    assert_eq!(read_line(ProviderKind::OpenAI, ": comment"), StreamLine::Skip);
    assert_eq!(read_line(ProviderKind::OpenAI, ""), StreamLine::Skip);
    assert_eq!(read_line(ProviderKind::OllamaChat, " {} "), StreamLine::Data("{}".into()));
    assert_eq!(read_line(ProviderKind::OllamaChat, "   "), StreamLine::Skip);
}

#[test]
fn chunks_of_both_formats() {
    match read_chunk(WireChunk::Ollama { content: "a".into(), done: false }) {
        ChunkStep::Yield(c) => {
            assert_eq!(c.delta_content.as_deref(), Some("a"));
            assert!(c.delta_tool_calls.is_none());
        }
        other => panic!("{other:?}"),
    }
    let last = read_chunk(WireChunk::Ollama { content: String::new(), done: true });
    assert!(matches!(last, ChunkStep::Stop));
    assert!(matches!(read_chunk(WireChunk::OpenAI { choices: vec![] }), ChunkStep::Skip));
}

#[test]
fn a_single_endpoint() {
    let p = OllamaProvider::local(&None);
    assert_eq!(p.url(Purpose::Chat), "http://localhost:11434/v1/chat/completions");
    assert_eq!(p.url(Purpose::Embedding), "http://localhost:11434/api/embeddings");
    assert_eq!(p.chunk_timeout(), 10_000);
    assert_eq!(p.authorization(), None);
    let p = p
        .with_rotator(CredentialRotator::new(vec!["http://a".into(), "http://b".into()]))
        .with_api_key("k".into());
    assert_eq!(p.url(Purpose::Chat), "http://a/v1/chat/completions");
    assert_eq!(p.url(Purpose::Embedding), "http://b/api/embeddings");
    assert_eq!(p.authorization().as_deref(), Some("Bearer k"));
    let p = OllamaProvider::new("http://z", 7, &Some("e".into()));
    assert_eq!(p.embedding_model(), "e");
    assert_eq!(p.chunk_timeout(), 7);
}

#[test]
fn a_busy_endpoint_is_waited_for() {
    let busy = || Reply::Refused { status: 503, body: "loading".into() };
    let mut b = Backoff::new();
    for secs in [2, 4, 8, 16, 32] {
        assert_eq!(b.judge(busy()), Patience::Wait(secs));
    }
    assert_eq!(
        b.judge(busy()),
        Patience::Fail(ProviderError::ApiError {
            status: 503,
            body: "Ollama loading timeout after 5 retries".into()
        })
    );
    let mut b = Backoff::new();
    assert_eq!(
        b.judge(Reply::Refused { status: 404, body: "no".into() }),
        Patience::Fail(ProviderError::ApiError { status: 404, body: "no".into() })
    );
    assert_eq!(
        b.judge(Reply::Broken("cut".into())),
        Patience::Fail(ProviderError::Network("cut".into()))
    );
    assert_eq!(b.judge(Reply::Good), Patience::Accept);
}

#[test]
fn provider_errors_speak() {
    assert_eq!(ProviderError::Network("x".into()).text(), "Network error: x");
    assert_eq!(ProviderError::Serialization("x".into()).text(), "Serialization error: x");
    assert_eq!(ProviderError::ChunkTimeout("10s".into()).text(), "Chunk timeout exceeded (10s)");
    assert_eq!(
        ProviderError::ApiError { status: 413, body: "x".into() }.text(),
        "API Error (Status 413): x"
    );
    assert_eq!(ProviderError::Execution("x".into()).text(), "Execution error: x");
}

/// The text of a value, with the members of objects in their order.
fn print(j: &Json) -> String {
    match j {
        Json::Null => "null".to_string(),
        Json::Bool(b) => format!("{b}"),
        Json::Number(n) => n.clone(),
        Json::Text(s) => format!("{s:?}"),
        Json::List(v) => {
            let items: Vec<String> = v.iter().map(print).collect();
            format!("[{}]", items.join(","))
        }
        Json::Object(v) => {
            let items: Vec<String> =
                v.iter().map(|m| format!("{:?}:{}", m.key, print(&m.value))).collect();
            format!("{{{}}}", items.join(","))
        }
    }
}

#[test]
fn requests_on_the_wire() {
    let call = ToolCall {
        id: "1".into(),
        kind: "function".into(),
        function: FunctionCall { name: "t".into(), arguments: "{}".into() },
    };
    let messages = vec![
        Message::new(Role::System, "s"),
        Message::new(Role::User, "u"),
        Message::assistant(None, Some(vec![call])),
        Message::tool_result("1", "r"),
    ];
    assert_eq!(
        print(&chat_body("m", &messages, &None)),
        concat_lines(&[
            r#"{"messages":["#,
            r#"{"content":"s","role":"system"},"#,
            r#"{"content":"u","role":"user"},"#,
            r#"{"content":null,"role":"assistant","tool_calls":[{"function":{"arguments":"{}","name":"t"},"id":"1","type":"function"}]},"#,
            r#"{"content":"r","role":"tool","tool_call_id":"1"}"#,
            r#"],"model":"m","stream":true}"#,
        ])
    );
    let tools = vec![ToolDefinition {
        name: "t".into(),
        description: "d".into(),
        parameters: Json::empty(),
    }];
    assert_eq!(
        print(&chat_body("m", &[], &Some(tools))),
        r#"{"messages":[],"model":"m","stream":true,"tools":[{"function":{"description":"d","name":"t","parameters":{}},"type":"function"}]}"#
    );
    assert_eq!(print(&embedding_body("e", "p")), r#"{"model":"e","prompt":"p"}"#);
}

fn concat_lines(lines: &[&str]) -> String {
    lines.join("")
}

#[test]
fn different_messages_differ_on_the_wire() {
    let a = Message::new(Role::User, "x");
    let b = Message::new(Role::Assistant, "x");
    let c = Message::tool_result("x", "x");
    assert_ne!(message_json(&a), message_json(&b));
    assert_ne!(message_json(&b), message_json(&c));
    assert_ne!(
        message_json(&Message::assistant(None, None)),
        message_json(&Message::assistant(Some(String::new()), None))
    );
}

#[test]
fn the_history_as_a_document() {
    let snapshot =
        vec![("id".to_string(), ("main".to_string(), vec![Message::new(Role::User, "u")]))];
    assert_eq!(
        print(&history_json(&snapshot)),
        r#"{"id":["main",[{"content":"u","role":"user"}]]}"#
    );
}
