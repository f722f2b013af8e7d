use ai_agent::context::ContextManager;
use ai_agent::tool_routing::frontend::FrontendEvent;
use ai_agent::tui::{
    cursor_offset, format_event, format_plan_event, markdown_spans, visible_start, App, Color, Key,
    PlanEvent, Reaction, Span, Style, UILine,
};
use ai_agent::types::{Message, Role};

#[test]
fn formats_agent_message() {
    let ev = FrontendEvent::AgentMessage { content: "привет **мир**".into() };
    let l = format_event(&ev).expect("message formats");
    assert!(l.text().contains("привет мир"));
}

#[test]
fn formats_tool_event() {
    let ev = FrontendEvent::ToolExecuting {
        tool_name: "shell".into(),
        arguments: "echo hi\nwith newline".into(),
    };
    let l = format_event(&ev).expect("tool formats");
    assert!(l.text().contains("shell"));
    assert!(!l.text().contains('\n'));
}

#[test]
fn ping_skipped() {
    assert!(format_event(&FrontendEvent::Ping).is_none());
}

#[test]
fn markdown_bold() {
    let spans = markdown_spans("a **bold** b", Color::Text);
    let has_bold = spans.iter().any(|s| s.style.bold);
    assert!(has_bold);
}

#[test]
fn markdown_code() {
    let spans = markdown_spans("use `grep -r` now", Color::Text);
    assert!(spans.iter().any(|s| s.style.fg == Some(Color::Accent)));
}

#[test]
fn markdown_header() {
    let spans = markdown_spans("## Заголовок", Color::Text);
    assert!(spans.iter().any(|s| s.style.bold));
    let joined: String = spans.iter().map(|s| s.content.clone()).collect();
    assert!(joined.contains("Заголовок"));
}

#[test]
fn markdown_fence_muted() {
    let spans = markdown_spans("```code block```", Color::Text);
    assert!(spans.iter().any(|s| s.style.fg == Some(Color::Muted)));
}

fn span(content: &str, fg: Color, bold: bool, italic: bool) -> Span {
    Span { content: content.into(), style: Style { fg: Some(fg), bold, italic } }
}

#[test]
fn emphasis_is_cut_out_exactly() {
    assert_eq!(
        markdown_spans("a **b** *c* `d*e` f", Color::Warn),
        vec![
            span("a ", Color::Warn, false, false),
            span("b", Color::Warn, true, false),
            span(" ", Color::Warn, false, false),
            span("c", Color::Warn, false, true),
            span(" ", Color::Warn, false, false),
            span("d*e", Color::Accent, true, false),
            span(" f", Color::Warn, false, false),
        ]
    );
}

#[test]
fn open_emphasis_is_plain() {
    assert_eq!(
        markdown_spans("a **b *c*", Color::Text),
        vec![span("a ", Color::Text, false, false), span("**b *c*", Color::Text, false, false)]
    );
    assert_eq!(
        markdown_spans("a *b", Color::Text),
        vec![span("a ", Color::Text, false, false), span("*b", Color::Text, false, false)]
    );
    assert_eq!(markdown_spans("", Color::Text), vec![span("", Color::Text, false, false)]);
}

#[test]
fn headings_need_a_blank() {
    assert_eq!(
        markdown_spans("  ###   x  ", Color::Text),
        vec![span("### x", Color::Accent, true, false)]
    );
    assert_eq!(markdown_spans("##x", Color::Text), vec![span("##x", Color::Text, false, false)]);
    assert_eq!(markdown_spans("##", Color::Text), vec![span("##", Color::Text, false, false)]);
    assert_eq!(
        markdown_spans(" ~~~sh", Color::Text),
        vec![span(" ~~~sh", Color::Muted, false, false)]
    );
}

#[test]
fn text_without_marks_is_one_piece() {
    assert_eq!(
        markdown_spans("просто текст", Color::Good),
        vec![span("просто текст", Color::Good, false, false)]
    );
}

fn line(ev: FrontendEvent) -> UILine {
    format_event(&ev).unwrap()
}

#[test]
fn every_event_has_its_line() {
    assert_eq!(
        line(FrontendEvent::ToolExecuting { tool_name: "t".into(), arguments: "é".repeat(91) }),
        UILine::plain(format!("  🔧 t {}…", "é".repeat(90)), Color::Muted)
    );
    assert_eq!(
        line(FrontendEvent::ToolExecuting { tool_name: "t".into(), arguments: "é".repeat(90) }),
        UILine::plain(format!("  🔧 t {}", "é".repeat(90)), Color::Muted)
    );
    assert_eq!(
        line(FrontendEvent::ToolResult { tool_name: "t".into(), result: "a\n".repeat(60) }),
        UILine::plain(format!("  ✅ t: {}", "a ".repeat(40)), Color::Good)
    );
    assert_eq!(
        line(FrontendEvent::SafetyReviewRequired { tool_name: "t".into(), reason: "r".into() }),
        UILine::plain("  ⚠️  SAFETY: t — r", Color::Warn)
    );
    assert_eq!(
        line(FrontendEvent::ContextBranched { branch_name: "b".into(), source_branch: "a".into() }),
        UILine::plain("  🌿 ветка a → b", Color::Accent)
    );
    assert_eq!(
        line(FrontendEvent::ModelInfo { model_name: "m".into() }),
        UILine::plain("  модель: m", Color::Muted)
    );
    for (status, sign, color) in [
        ("start", "▶", Color::Accent),
        ("ok", "✓", Color::Good),
        ("fail", "✗", Color::Bad),
        ("reject", "⛔", Color::Bad),
        ("?", "•", Color::Muted),
    ] {
        assert_eq!(
            line(FrontendEvent::PlanProgress { node: "n".into(), status: status.into() }),
            UILine::plain(format!("  {sign} n"), color)
        );
    }
    assert!(format_event(&FrontendEvent::AgentActivity { text: "x".into() }).is_none());
}

#[test]
fn a_message_of_several_lines_keeps_its_breaks() {
    let l = line(FrontendEvent::AgentMessage { content: "# a\nb **c**\n".into() });
    assert_eq!(l.text(), "# a\nb c");
    assert_eq!(l.spans[1].style.fg, None);
    let empty = line(FrontendEvent::AgentMessage { content: String::new() });
    assert!(empty.spans.is_empty());
}

fn app() -> App {
    App::new("m", "main", vec!["a".to_string(), "b".to_string()])
}

fn type_text(app: &mut App, s: &str) {
    for c in s.chars() {
        assert_eq!(app.key(Key::Char { c, ctrl: false }, 0), Reaction::Nothing);
    }
}

fn last(app: &App) -> String {
    app.lines.last().unwrap().text()
}

#[test]
fn a_new_screen() {
    let a = app();
    assert_eq!(a.status, "m · ветка main · тулы 2");
    assert_eq!(a.lines.len(), 1);
    assert!(!a.running);
}

#[test]
fn a_text_is_handed_to_the_agent() {
    let mut a = app();
    type_text(&mut a, "  привет  ");
    assert_eq!(a.key(Key::Enter, 0), Reaction::Prompt("привет".to_string()));
    assert_eq!(last(&a), "❯ привет");
    assert_eq!(a.status, "m · работает…");
    assert!(a.running && a.input.is_empty());
    assert_eq!(a.history, vec!["привет".to_string()]);
    assert_eq!(a.key(Key::Enter, 0), Reaction::Nothing);
    assert_eq!(a.history.len(), 1);
}

#[test]
fn commands_of_the_screen() {
    let mut a = app();
    type_text(&mut a, "/tools");
    assert_eq!(a.key(Key::Enter, 0), Reaction::Nothing);
    assert_eq!(last(&a), "  • b");
    type_text(&mut a, "/help");
    a.key(Key::Enter, 0);
    assert_eq!(last(&a), "  ↑/↓ — история, PageUp/PageDown — скролл");
    type_text(&mut a, "/branch  side ");
    assert_eq!(a.key(Key::Enter, 0), Reaction::Branches("side".to_string()));
    type_text(&mut a, "/branch");
    assert_eq!(a.key(Key::Enter, 0), Reaction::Branches(String::new()));
    type_text(&mut a, "/plan");
    assert_eq!(a.key(Key::Enter, 0), Reaction::Nothing);
    assert_eq!(last(&a), "  /plan <file.luck> — скомпилировать и исполнить план");
    type_text(&mut a, "/plan x.luck");
    assert_eq!(a.key(Key::Enter, 0), Reaction::Plan("x.luck".to_string()));
    type_text(&mut a, "/foo bar");
    assert_eq!(a.key(Key::Enter, 0), Reaction::Nothing);
    assert_eq!(last(&a), "  ✗ неизвестная команда: /foo");
    a.key(Key::PageUp, 0);
    type_text(&mut a, "/clear");
    a.key(Key::Enter, 0);
    assert!(a.lines.is_empty());
    assert_eq!(a.scroll, 0);
    type_text(&mut a, "/quit");
    assert_eq!(a.key(Key::Enter, 0), Reaction::Quit);
    let mut none = App::new("m", "main", vec![]);
    type_text(&mut none, "/tools");
    none.key(Key::Enter, 0);
    assert_eq!(last(&none), "  (тулов нет)");
}

#[test]
fn up_and_down_walk_through_the_history() {
    let mut a = app();
    for s in ["one", "two"] {
        type_text(&mut a, s);
        a.key(Key::Enter, 0);
    }
    a.key(Key::Up, 0);
    assert_eq!(a.input, "two");
    a.key(Key::Up, 0);
    a.key(Key::Up, 0);
    assert_eq!(a.input, "one");
    a.key(Key::Down, 0);
    assert_eq!(a.input, "two");
    a.key(Key::Down, 0);
    a.key(Key::Down, 0);
    assert_eq!(a.input, "");
}

#[test]
fn ctrl_c_twice_leaves() {
    let ctrl_c = Key::Char { c: 'c', ctrl: true };
    let mut a = app();
    assert_eq!(a.key(ctrl_c, 1000), Reaction::Abort);
    assert_eq!(a.key(ctrl_c, 2500), Reaction::Abort);
    assert_eq!(a.key(ctrl_c, 3999), Reaction::Quit);
    assert_eq!(a.key(Key::Esc, 0), Reaction::Abort);
    assert_eq!(a.key(Key::Other, 0), Reaction::Nothing);
    assert_eq!(a.key(Key::Char { c: 'x', ctrl: true }, 0), Reaction::Nothing);
    assert_eq!(a.input, "x");
}

#[test]
fn editing_and_scrolling() {
    let mut a = app();
    type_text(&mut a, "aж");
    a.key(Key::Backspace, 0);
    assert_eq!(a.input, "a");
    a.key(Key::Backspace, 0);
    a.key(Key::Backspace, 0);
    assert_eq!(a.input, "");
    a.key(Key::PageDown, 0);
    assert_eq!(a.scroll, 0);
    a.key(Key::PageUp, 0);
    a.key(Key::PageUp, 0);
    a.key(Key::PageDown, 0);
    assert_eq!(a.scroll, 10);
    a.scroll = u16::MAX - 3;
    a.key(Key::PageUp, 0);
    assert_eq!(a.scroll, u16::MAX);
}

#[test]
fn answers_errors_and_activity() {
    let mut a = app();
    a.finish("**ok**", "");
    assert_eq!(last(&a), "ok");
    assert_eq!(a.lines[a.lines.len() - 2].text(), "  🤖");
    assert_eq!(a.status, "m · ветка main");
    a.finish("", "bad");
    assert_eq!(last(&a), "  ✗ bad");
    a.finish("", "");
    assert_eq!(last(&a), "  ✓ готово");
    let n = a.lines.len();
    a.event(&FrontendEvent::AgentActivity { text: "шаг 2: grep".into() }, 17);
    assert_eq!(a.status, "думает… 17s · шаг 2: grep");
    a.event(&FrontendEvent::Ping, 0);
    assert_eq!(a.lines.len(), n);
    a.event(&FrontendEvent::ModelInfo { model_name: "m".into() }, 0);
    assert_eq!(a.lines.len(), n + 1);
}

#[test]
fn branches_are_listed_and_switched() {
    let mut ctx = ContextManager::new();
    ctx.push(Message::new(Role::User, "q"));
    ctx.create_branch("exp");
    ctx.push(Message::new(Role::User, "r"));
    let mut a = App::new("m", "exp", vec![]);
    a.branches(&mut ctx, "");
    let shown: Vec<String> = a.lines.iter().skip(1).map(|l| l.text()).collect();
    assert_eq!(
        shown,
        vec!["  • exp (2 сообщ.) ◀", "  • main (2 сообщ.)", "  /branch <name> — переключиться"]
    );
    a.branches(&mut ctx, "main");
    assert_eq!(ctx.current_branch().name, "main");
    assert_eq!(a.status, "m · ветка main");
    assert_eq!(last(&a), "  🌿 переключено на «main»");
    a.branches(&mut ctx, "none");
    assert_eq!(last(&a), "  ✗ branch 'none' not found");
    assert_eq!(ctx.current_branch().name, "main");
}

#[test]
fn plan_events_have_lines() {
    assert_eq!(
        format_plan_event(&PlanEvent::NodeStart { id: "n".into() }),
        UILine::plain("  ▶ n", Color::Accent)
    );
    assert_eq!(
        format_plan_event(&PlanEvent::NodeDone { id: "n".into(), ok: true }),
        UILine::plain("  ✓ n", Color::Good)
    );
    assert_eq!(
        format_plan_event(&PlanEvent::NodeDone { id: "n".into(), ok: false }),
        UILine::plain("  ✗ n", Color::Bad)
    );
    assert_eq!(
        format_plan_event(&PlanEvent::Rejected { reason: "r".into() }),
        UILine::plain("  ⛔ r", Color::Bad)
    );
    assert_eq!(
        format_plan_event(&PlanEvent::Completed),
        UILine::plain("  🏁 план завершён", Color::Good)
    );
}

#[test]
fn the_layout() {
    assert_eq!(visible_start(100, 22, 0), 80);
    assert_eq!(visible_start(100, 22, 30), 50);
    assert_eq!(visible_start(10, 22, 30), 0);
    assert_eq!(visible_start(10, 1, 3), 7);
    assert_eq!(cursor_offset("жж", 10), 2);
    assert_eq!(cursor_offset("0123456789", 10), 8);
    assert_eq!(cursor_offset("x", 1), 0);
    assert_eq!(Color::Accent.rgb(), (122, 162, 247));
    assert_eq!(Color::BgStorm.rgb(), (20, 20, 20));
}
