use ai_agent::tool_routing::files::{
    fits, is_searched, root_of, search_files, select_files, TextFile,
};
use ai_agent::tool_routing::platform::{
    register_platform_tools, DummyTool, FileRequest, PlatformTool, Tool,
};
use ai_agent::tool_routing::{AsyncTool, ToolRouter};

fn texts(list: &[&str]) -> Vec<String> {
    list.iter().map(|s| s.to_string()).collect()
}

fn file(path: &str, text: &str) -> TextFile {
    TextFile { path: path.into(), text: text.into() }
}

#[test]
fn a_star_stays_within_a_directory() {
    assert!(fits("*.rs", "main.rs"));
    assert!(fits("*.rs", ".rs"));
    assert!(!fits("*.rs", "src/main.rs"));
    assert!(fits("src/*.rs", "src/main.rs"));
    assert!(!fits("src/*.rs", "src/a/b.rs"));
    assert!(fits("a*b*c", "aXbYc"));
    assert!(!fits("a*b*c", "aXbY"));
}

#[test]
fn two_stars_cross_directories() {
    assert!(fits("**/*.rs", "main.rs"));
    assert!(fits("**/*.rs", "src/a/b.rs"));
    assert!(fits("src/**/b.rs", "src/b.rs"));
    assert!(fits("src/**/b.rs", "src/a/x/b.rs"));
    assert!(!fits("src/**/b.rs", "src/ab.rs"));
    assert!(fits("src/**", "src/a/b"));
    assert!(!fits("src/**", "tests/a"));
}

#[test]
fn a_question_mark_is_one_character() {
    assert!(fits("?.md", "ж.md"));
    assert!(!fits("?.md", ".md"));
    assert!(!fits("?.md", "ab.md"));
    assert!(!fits("a?b", "a/b"));
}

#[test]
fn a_pattern_without_wildcards_fits_itself() {
    assert!(fits("src/main.rs", "src/main.rs"));
    assert!(!fits("src/main.rs", "src/main.r"));
    assert!(fits("", ""));
    assert!(!fits("", "a"));
}

#[test]
fn a_pattern_with_many_stars_is_decided() {
    let path = "a".repeat(200);
    assert!(!fits(&format!("{}b", "*a".repeat(30)), &path));
    assert!(fits(&"*a".repeat(30), &path));
}

#[test]
fn the_root_has_no_wildcard() {
    assert_eq!(root_of("src/tools/*.rs"), "src/tools/");
    assert_eq!(root_of("src/to?ls/a.rs"), "src/");
    assert_eq!(root_of("**/*.rs"), "");
    assert_eq!(root_of("main.rs"), "");
    assert_eq!(root_of("/etc/hosts"), "/etc/");
}

#[test]
fn files_come_in_order() {
    let paths = texts(&["b.rs", "a.md", "c.rs", "a.rs", "a.rs"]);
    assert_eq!(select_files("*.rs", &paths), ["a.rs", "a.rs", "b.rs", "c.rs"]);
    assert!(select_files("", &paths).is_empty());
}

#[test]
fn only_text_files_are_searched() {
    for name in
        ["a.rs", "a.toml", "a.md", "a.json", "a.yaml", "a.yml", "a.txt", "a.js", "a.ts", "a.py", "a.html", "a.css"]
    {
        assert!(is_searched(name));
    }
    for name in ["a.rsx", "a.bin", "rs", "", "a.rs/b"] {
        assert!(!is_searched(name));
    }
}

#[test]
fn lines_are_found_with_their_number() {
    let files = vec![
        file("a.rs", "fn main() {\r\n    // TODO one\n}\nTODO two"),
        file("b.bin", "TODO hidden"),
        file("c.md", "nothing\n"),
        file("d.txt", "  TODO three  \n"),
    ];
    assert_eq!(
        search_files(&files, "TODO"),
        "a.rs:2: // TODO one\na.rs:4: TODO two\nd.txt:1: TODO three"
    );
    assert_eq!(search_files(&files, "missing"), "");
}

#[test]
fn calls_ask_for_files() {
    assert_eq!(
        PlatformTool::ReadFile.request(r#"{"path":"a.rs"}"#),
        Ok(FileRequest::Read { path: "a.rs".into() })
    );
    assert_eq!(
        PlatformTool::WriteFile.request(r#"{"content":"x","path":"a"}"#),
        Ok(FileRequest::Write { path: "a".into(), content: "x".into() })
    );
    assert_eq!(
        PlatformTool::Glob.request(r#"{"pattern":"*.rs"}"#),
        Ok(FileRequest::Glob { pattern: "*.rs".into() })
    );
    assert_eq!(
        PlatformTool::Grep.request(r#"{"pattern":"TODO"}"#),
        Ok(FileRequest::Grep { pattern: "TODO".into(), path: ".".into() })
    );
    assert_eq!(
        PlatformTool::Grep.request(r#"{"pattern":"TODO","path":"src"}"#),
        Ok(FileRequest::Grep { pattern: "TODO".into(), path: "src".into() })
    );
}

#[test]
fn arguments_that_are_missing_are_named() {
    for (tool, args, name) in [
        (PlatformTool::ReadFile, "{}", "path"),
        (PlatformTool::ReadFile, r#"{"path":1}"#, "path"),
        (PlatformTool::WriteFile, r#"{"content":"x"}"#, "path"),
        (PlatformTool::WriteFile, r#"{"path":"x"}"#, "content"),
        (PlatformTool::Glob, "[]", "pattern"),
        (PlatformTool::Grep, r#"{"path":"x"}"#, "pattern"),
    ] {
        assert_eq!(tool.request(args), Err(format!("missing argument: '{name}'")));
    }
    let report = serde_json::from_str::<serde_json::Value>("{").unwrap_err().to_string();
    assert_eq!(
        PlatformTool::Glob.request("{"),
        Err(format!("invalid arguments: {report}"))
    );
    assert_eq!(
        PlatformTool::Glob.request_from(Err("no".into())),
        Err("invalid arguments: no".to_string())
    );
}

#[test]
fn the_platform_registers_its_tools() {
    let mut router: ToolRouter<Tool<DummyTool>> = ToolRouter::new();
    router.register(Tool::Other(DummyTool::new("grep")));
    router.register(Tool::Other(DummyTool::new("mine")));
    register_platform_tools(&mut router);
    assert_eq!(router.len(), 5);
    assert!(matches!(router.get("grep"), Some(Tool::Platform(PlatformTool::Grep))));
    assert!(matches!(router.get("mine"), Some(Tool::Other(_))));
    let write = router.get("write_file").unwrap();
    assert!(write.kind().is_platform());
    let d = write.definition();
    assert_eq!(d.parameters.get("required").unwrap().items().unwrap().len(), 2);
    assert!(d.parameters.get("properties").unwrap().get("content").is_some());
}
