//! The full-screen interface: what its lines look like and how it reacts.

use vstd::prelude::*;
use crate::text::{
    at_most, begins_with, chars_of, decimal, drop_front, find_from, first_occurrence, lines, lines_of,
    occurs_at, repeat_char, repeated, replace_char, replaced, same, show, show_usize, split, split_on,
    stands_at, starts_with, take_chars, text_range, texts, trim, trim_front, trimmed, CharClass,
    in_class, is_white, white, IntoText,
};
use crate::context::{
    branch_views, lists_branches, sorted_by_name, BranchView, ContextManager, ContextView,
};
use crate::tool_routing::frontend::{FrontendEvent, FrontendEventView};

verus! {

// ---------------------------------------------------------------------------
// Styled text
// ---------------------------------------------------------------------------

/// The palette.
#[derive(Debug, Clone, Copy, PartialEq, Eq, Structural)]
pub enum Color {
    Text,
    Accent,
    Muted,
    Good,
    Warn,
    Bad,
    BgStorm,
}

impl Color {
    /// Red, green and blue.
    pub fn rgb(self) -> (r: (u8, u8, u8))
        ensures
            r == match self {
                Color::Text => (220u8, 220u8, 220u8),
                Color::Accent => (122u8, 162u8, 247u8),
                Color::Muted => (120u8, 120u8, 120u8),
                Color::Good => (120u8, 220u8, 120u8),
                Color::Warn => (240u8, 200u8, 90u8),
                Color::Bad => (240u8, 110u8, 110u8),
                Color::BgStorm => (20u8, 20u8, 20u8),
            },
    {
        match self {
            Color::Text => (220, 220, 220),
            Color::Accent => (122, 162, 247),
            Color::Muted => (120, 120, 120),
            Color::Good => (120, 220, 120),
            Color::Warn => (240, 200, 90),
            Color::Bad => (240, 110, 110),
            Color::BgStorm => (20, 20, 20),
        }
    }
}

/// How a piece of text looks; without a colour it looks as its surroundings.
#[derive(Debug, Clone, Copy, PartialEq, Eq, Structural)]
pub struct Style {
    pub fg: Option<Color>,
    pub bold: bool,
    pub italic: bool,
}

/// A piece of text in one style.
#[derive(Debug, PartialEq, Eq)]
pub struct Span {
    pub content: String,
    pub style: Style,
}

#[verifier::ext_equal]
pub struct SpanView {
    pub content: Seq<char>,
    pub style: Style,
}

impl View for Span {
    type V = SpanView;

    open spec fn view(&self) -> SpanView {
        SpanView { content: self.content@, style: self.style }
    }
}

impl Clone for Span {
    fn clone(&self) -> (r: Self)
        ensures
            r@ == self@,
    {
        Span { content: self.content.clone(), style: self.style }
    }
}

pub open spec fn span_views(v: Seq<Span>) -> Seq<SpanView> {
    v.map_values(|s: Span| s@)
}

pub open spec fn in_color(content: Seq<char>, color: Color) -> SpanView {
    SpanView { content, style: Style { fg: Some(color), bold: false, italic: false } }
}

pub open spec fn in_bold(content: Seq<char>, color: Color) -> SpanView {
    SpanView { content, style: Style { fg: Some(color), bold: true, italic: false } }
}

pub open spec fn in_italic(content: Seq<char>, color: Color) -> SpanView {
    SpanView { content, style: Style { fg: Some(color), bold: false, italic: true } }
}

fn colored(content: String, color: Color) -> (r: Span)
    ensures
        r@ == in_color(content@, color),
{
    Span { content, style: Style { fg: Some(color), bold: false, italic: false } }
}

fn bold(content: String, color: Color) -> (r: Span)
    ensures
        r@ == in_bold(content@, color),
{
    Span { content, style: Style { fg: Some(color), bold: true, italic: false } }
}

fn italic(content: String, color: Color) -> (r: Span)
    ensures
        r@ == in_italic(content@, color),
{
    Span { content, style: Style { fg: Some(color), bold: false, italic: true } }
}

// ---------------------------------------------------------------------------
// Markdown
// ---------------------------------------------------------------------------

/// Where a piece of text next occurs.
pub open spec fn next_at(s: Seq<char>, needle: Seq<char>, from: int) -> Option<int> {
    if exists|i: int| first_occurrence(s, needle, from, i) {
        Some(choose|i: int| first_occurrence(s, needle, from, i))
    } else {
        None
    }
}

/// Text that has been collected without emphasis.
pub open spec fn flushed(plain: Seq<char>, base: Color) -> Seq<SpanView> {
    if plain.len() == 0 {
        Seq::empty()
    } else {
        seq![in_color(plain, base)]
    }
}

/// The emphasis in a text from `j` on, behind text that has been collected:
/// `**` encloses bold, `*` encloses italic. A `**` that is not closed makes
/// the rest plain; a `*` that is not closed is plain itself.
pub open spec fn emphasis(s: Seq<char>, j: int, plain: Seq<char>, base: Color) -> Seq<SpanView>
    decreases s.len() - j,
{
    if j < 0 || j >= s.len() {
        flushed(plain, base)
    } else if occurs_at(s, "**"@, j) {
        match next_at(s, "**"@, j + 2) {
            Some(k) if j < k && k + 2 <= s.len() => flushed(plain, base) + seq![
                in_bold(s.subrange(j + 2, k), base),
            ] + emphasis(s, k + 2, Seq::empty(), base),
            _ => flushed(plain, base) + seq![in_color(s.skip(j), base)],
        }
    } else if s[j] == '*' {
        match next_at(s, "*"@, j + 1) {
            Some(k) if j < k && k + 1 <= s.len() => flushed(plain, base) + seq![
                in_italic(s.subrange(j + 1, k), base),
            ] + emphasis(s, k + 1, Seq::empty(), base),
            _ => flushed(plain, base) + emphasis(s, j + 1, "*"@, base),
        }
    } else {
        emphasis(s, j + 1, plain.push(s[j]), base)
    }
}

/// The segments between backquotes: every second one is code.
pub open spec fn code_and_emphasis(segments: Seq<Seq<char>>, base: Color) -> Seq<SpanView>
    decreases segments.len(),
{
    if segments.len() == 0 {
        Seq::empty()
    } else {
        code_and_emphasis(segments.drop_last(), base) + if segments.len() % 2 == 0 {
            seq![in_bold(segments.last(), Color::Accent)]
        } else {
            emphasis(segments.last(), 0, Seq::empty(), base)
        }
    }
}

/// The number of `#` a text begins with.
pub open spec fn header_level(s: Seq<char>) -> nat
    decreases s.len(),
{
    if s.len() > 0 && s[0] == '#' {
        1 + header_level(s.skip(1))
    } else {
        0
    }
}

/// A line of a fenced block.
pub open spec fn is_fence(s: Seq<char>) -> bool {
    begins_with(s, "```"@) || begins_with(s, "~~~"@)
}

/// A heading: some `#` and a blank.
pub open spec fn is_header(s: Seq<char>) -> bool {
    let n = header_level(s) as int;
    n > 0 && n < s.len() && s[n] == ' '
}

/// A line of Markdown as it is shown.
pub open spec fn markdown(text: Seq<char>, base: Color) -> Seq<SpanView> {
    let t = drop_front(text, CharClass::White);
    if is_fence(t) {
        seq![in_color(text, Color::Muted)]
    } else if is_header(t) {
        let n = header_level(t);
        seq![
            in_bold(repeated('#', n) + " "@ + trimmed(t.skip(n as int)), Color::Accent),
        ]
    } else {
        let spans = code_and_emphasis(split(text, '`'), base);
        if spans.len() == 0 {
            seq![in_color(text, base)]
        } else {
            spans
        }
    }
}

proof fn lemma_next_at(s: Seq<char>, needle: Seq<char>, from: int, k: int)
    requires
        first_occurrence(s, needle, from, k),
    ensures
        next_at(s, needle, from) == Some(k),
{
    let i = choose|i: int| first_occurrence(s, needle, from, i);
    assert(first_occurrence(s, needle, from, i));
    if i < k {
        assert(occurs_at(s, needle, i));
    }
    if k < i {
        assert(occurs_at(s, needle, k));
    }
}

proof fn lemma_no_next(s: Seq<char>, needle: Seq<char>, from: int)
    requires
        forall|j: int| from <= j ==> !occurs_at(s, needle, j),
    ensures
        next_at(s, needle, from) is None,
{
}

fn count_hashes(v: &Vec<char>) -> (r: usize)
    ensures
        r == header_level(v@),
        r <= v@.len(),
{
    let mut i: usize = 0;
    assert(v@.skip(0) =~= v@);
    while i < v.len() && v[i] == '#'
        invariant
            i <= v@.len(),
            header_level(v@) == i + header_level(v@.skip(i as int)),
        decreases v@.len() - i,
    {
        assert(v@.skip(i as int).skip(1) =~= v@.skip(i + 1));
        i += 1;
    }
    i
}

fn flush(spans: &mut Vec<Span>, plain: String, base: Color)
    ensures
        span_views(final(spans)@) == span_views(old(spans)@) + flushed(plain@, base),
{
    if plain.as_str().is_empty() {
        assert(span_views(spans@) + Seq::<SpanView>::empty() =~= span_views(spans@));
    } else {
        let ghost before = spans@;
        let span = colored(plain, base);
        spans.push(span);
        assert(span_views(spans@) =~= span_views(before) + seq![span@]);
    }
}

fn push_emphasis(spans: &mut Vec<Span>, seg: &str, base: Color)
    ensures
        span_views(final(spans)@) == span_views(old(spans)@) + emphasis(
            seg@,
            0,
            Seq::empty(),
            base,
        ),
{
    let s = chars_of(seg);
    let two = chars_of("**");
    let one = chars_of("*");
    proof {
        reveal_strlit("**");
        reveal_strlit("*");
    }
    let ghost start = span_views(spans@);
    let ghost want = start + emphasis(s@, 0, Seq::empty(), base);
    let mut plain = String::new();
    let mut j: usize = 0;
    let total: usize = s.len();
    while j < total
        invariant
            j <= total,
            total == s@.len(),
            s@ == seg@,
            two@ == "**"@,
            one@ == "*"@,
            "**"@.len() == 2,
            "*"@.len() == 1,
            "*"@[0] == '*',
            want == span_views(spans@) + emphasis(s@, j as int, plain@, base),
        decreases total - j,
    {
        let ghost before = span_views(spans@);
        if stands_at(&s, &two, j) {
            flush(spans, plain, base);
            plain = String::new();
            let ghost middle = span_views(spans@);
            match find_from(&s, &two, j + 2) {
                Some(k) => {
                    proof {
                        lemma_next_at(s@, "**"@, j + 2, k as int);
                    }
                    let span = bold(text_range(&s, j + 2, k), base);
                    let ghost now = spans@;
                    spans.push(span);
                    assert(span_views(spans@) =~= span_views(now) + seq![span@]);
                    assert(want =~= span_views(spans@) + emphasis(
                        s@,
                        k + 2,
                        Seq::empty(),
                        base,
                    ));
                    j = k + 2;
                },
                None => {
                    let rest = text_range(&s, j, total);
                    assert(rest@ =~= s@.skip(j as int));
                    proof {
                        lemma_no_next(s@, "**"@, j + 2);
                        assert(emphasis(s@, total as int, rest@, base) == seq![
                            in_color(rest@, base),
                        ]);
                        assert(want =~= span_views(spans@) + emphasis(
                            s@,
                            total as int,
                            rest@,
                            base,
                        ));
                    }
                    plain = rest;
                    j = total;
                },
            }
        } else if s[j] == '*' {
            flush(spans, plain, base);
            plain = String::new();
            match find_from(&s, &one, j + 1) {
                Some(k) => {
                    proof {
                        lemma_next_at(s@, "*"@, j + 1, k as int);
                    }
                    let span = italic(text_range(&s, j + 1, k), base);
                    let ghost now = spans@;
                    spans.push(span);
                    assert(span_views(spans@) =~= span_views(now) + seq![span@]);
                    assert(want =~= span_views(spans@) + emphasis(
                        s@,
                        k + 1,
                        Seq::empty(),
                        base,
                    ));
                    j = k + 1;
                },
                None => {
                    proof {
                        lemma_no_next(s@, "*"@, j + 1);
                    }
                    plain = "*".to_string();
                    assert(want =~= span_views(spans@) + emphasis(s@, j + 1, "*"@, base));
                    j += 1;
                },
            }
        } else {
            plain.push(s[j]);
            j += 1;
        }
    }
    flush(spans, plain, base);
}

/// A line of Markdown as it is shown: headings, `**bold**`, `*italic*`, code
/// and fences.
pub fn markdown_spans(text: &str, base: Color) -> (r: Vec<Span>)
    ensures
        span_views(r@) == markdown(text@, base),
{
    let t = trim_front(text, CharClass::White);
    if starts_with(t.as_str(), "```") || starts_with(t.as_str(), "~~~") {
        let r: Vec<Span> = vec![colored(text.to_string(), Color::Muted)];
        assert(span_views(r@) =~= seq![in_color(text@, Color::Muted)]);
        return r;
    }
    let chars = chars_of(t.as_str());
    let level: usize = count_hashes(&chars);
    if level > 0 && level < chars.len() && chars[level] == ' ' {
        let mut heading = repeat_char('#', level);
        heading.append(" ");
        let rest = text_range(&chars, level, chars.len());
        assert(rest@ =~= t@.skip(level as int));
        heading.append(trim(rest.as_str()).as_str());
        let r: Vec<Span> = vec![bold(heading, Color::Accent)];
        assert(span_views(r@) =~= seq![r@[0]@]);
        return r;
    }
    let segments = split_on(text, '`');
    let ghost all = texts(segments@);
    let mut spans: Vec<Span> = Vec::new();
    let mut i: usize = 0;
    assert(all.take(0) =~= Seq::empty());
    assert(span_views(spans@) =~= Seq::empty());
    while i < segments.len()
        invariant
            i <= segments@.len(),
            all == texts(segments@),
            span_views(spans@) == code_and_emphasis(all.take(i as int), base),
        decreases segments@.len() - i,
    {
        proof {
            let next = all.take(i + 1);
            assert(next.drop_last() =~= all.take(i as int));
            assert(next.last() == segments@[i as int]@);
        }
        if i % 2 == 1 {
            let ghost before = spans@;
            let span = bold(segments[i].clone(), Color::Accent);
            spans.push(span);
            assert(span_views(spans@) =~= span_views(before) + seq![span@]);
        } else {
            push_emphasis(&mut spans, segments[i].as_str(), base);
        }
        i += 1;
    }
    assert(all.take(i as int) =~= all);
    if spans.len() == 0 {
        let r: Vec<Span> = vec![colored(text.to_string(), base)];
        assert(span_views(r@) =~= seq![in_color(text@, base)]);
        return r;
    }
    spans
}

/// Nothing in the text has a meaning in Markdown.
pub open spec fn unmarked(text: Seq<char>) -> bool {
    forall|i: int|
        0 <= i < text.len() ==> (#[trigger] text[i]) != '*' && text[i] != '`' && text[i] != '#'
            && text[i] != '~'
}

proof fn lemma_unmarked_emphasis(s: Seq<char>, j: int, base: Color)
    requires
        unmarked(s),
        0 <= j <= s.len(),
    ensures
        emphasis(s, j, s.take(j), base) == flushed(s, base),
    decreases s.len() - j,
{
    reveal_strlit("**");
    if j < s.len() {
        assert(!occurs_at(s, "**"@, j)) by {
            if occurs_at(s, "**"@, j) {
                assert(s[j + 0] == "**"@[0]);
            }
        }
        assert(s.take(j).push(s[j]) =~= s.take(j + 1));
        lemma_unmarked_emphasis(s, j + 1, base);
    } else {
        assert(s.take(j) =~= s);
    }
}

proof fn lemma_unmarked_split(s: Seq<char>)
    requires
        unmarked(s),
    ensures
        split(s, '`') == seq![s],
    decreases s.len(),
{
    if s.len() > 0 {
        assert forall|i: int| 0 <= i < s.drop_last().len() implies (#[trigger] s.drop_last()[i])
            != '*' && s.drop_last()[i] != '`' && s.drop_last()[i] != '#' && s.drop_last()[i]
            != '~' by {
            assert(s.drop_last()[i] == s[i]);
        }
        lemma_unmarked_split(s.drop_last());
        assert(s[s.len() - 1] != '`');
        assert(s.drop_last().push(s.last()) =~= s);
        let before = split(s.drop_last(), '`');
        assert(before.drop_last() =~= Seq::<Seq<char>>::empty());
        assert(split(s, '`') =~= seq![s]);
    } else {
        assert(s =~= Seq::<char>::empty());
        assert(split(s, '`') =~= seq![s]);
    }
}

proof fn lemma_dropped_chars(s: Seq<char>, k: CharClass)
    ensures
        drop_front(s, k).len() > 0 ==> exists|i: int|
            0 <= i < s.len() && #[trigger] s[i] == drop_front(s, k)[0],
    decreases s.len(),
{
    if s.len() > 0 && in_class(k, s[0]) {
        lemma_dropped_chars(s.skip(1), k);
        if drop_front(s, k).len() > 0 {
            let i = choose|i: int|
                0 <= i < s.skip(1).len() && #[trigger] s.skip(1)[i] == drop_front(s.skip(1), k)[0];
            assert(s[i + 1] == s.skip(1)[i]);
        }
    } else if s.len() > 0 {
        assert(s[0] == drop_front(s, k)[0]);
    }
}

/// Text without any marks is shown as it is, in one piece.
pub proof fn law_plain_text(text: Seq<char>, base: Color)
    requires
        unmarked(text),
    ensures
        markdown(text, base) == seq![in_color(text, base)],
{
    reveal_strlit("```");
    reveal_strlit("~~~");
    let t = drop_front(text, CharClass::White);
    lemma_dropped_chars(text, CharClass::White);
    assert(!is_fence(t)) by {
        if begins_with(t, "```"@) {
            assert(t[0] == "```"@[0]);
        }
        if begins_with(t, "~~~"@) {
            assert(t[0] == "~~~"@[0]);
        }
    }
    assert(!is_header(t));
    lemma_unmarked_split(text);
    let segments = split(text, '`');
    assert(text.take(0) =~= Seq::<char>::empty());
    lemma_unmarked_emphasis(text, 0, base);
    assert(segments.drop_last() =~= Seq::<Seq<char>>::empty());
    assert(segments.last() == text);
    assert(code_and_emphasis(segments.drop_last(), base) =~= Seq::<SpanView>::empty());
    assert(code_and_emphasis(segments, base) =~= flushed(text, base));
}

// ---------------------------------------------------------------------------
// Lines
// ---------------------------------------------------------------------------

/// A line of the scrollback.
#[derive(Debug, PartialEq, Eq)]
pub struct UILine {
    pub spans: Vec<Span>,
}

impl View for UILine {
    type V = Seq<SpanView>;

    open spec fn view(&self) -> Seq<SpanView> {
        span_views(self.spans@)
    }
}

pub open spec fn plain_line(text: Seq<char>, color: Color) -> Seq<SpanView> {
    seq![in_color(text, color)]
}

/// All the text of a line.
pub open spec fn line_text(spans: Seq<SpanView>) -> Seq<char>
    decreases spans.len(),
{
    if spans.len() == 0 {
        Seq::empty()
    } else {
        line_text(spans.drop_last()) + spans.last().content
    }
}

impl UILine {
    /// A line in one colour.
    pub fn plain(text: impl IntoText, color: Color) -> (r: Self)
        ensures
            r@ == plain_line(text.text(), color),
    {
        let span = colored(text.into_text(), color);
        let r = UILine { spans: vec![span] };
        assert(r@ =~= seq![span@]);
        r
    }

    /// A line of Markdown.
    pub fn markdown(text: &str) -> (r: Self)
        ensures
            r@ == markdown(text@, Color::Text),
    {
        UILine { spans: markdown_spans(text, Color::Text) }
    }

    /// All the text of the line.
    pub fn text(&self) -> (r: String)
        ensures
            r@ == line_text(self@),
    {
        let ghost all = self@;
        let mut out = String::new();
        let mut i: usize = 0;
        assert(all.take(0) =~= Seq::empty());
        while i < self.spans.len()
            invariant
                i <= self.spans@.len(),
                all == span_views(self.spans@),
                out@ == line_text(all.take(i as int)),
            decreases self.spans@.len() - i,
        {
            proof {
                assert(all.take(i + 1).drop_last() =~= all.take(i as int));
                assert(all.take(i + 1).last() == self.spans@[i as int]@);
            }
            out.append(self.spans[i].content.as_str());
            i += 1;
        }
        assert(all.take(i as int) =~= all);
        out
    }
}

/// The lines of a text as Markdown, one below the other.
pub open spec fn markdown_block(pieces: Seq<Seq<char>>) -> Seq<SpanView>
    decreases pieces.len(),
{
    if pieces.len() == 0 {
        Seq::empty()
    } else if pieces.len() == 1 {
        markdown(pieces[0], Color::Text)
    } else {
        markdown_block(pieces.drop_last()).push(
            SpanView {
                content: "\n"@,
                style: Style { fg: None, bold: false, italic: false },
            },
        ) + markdown(pieces.last(), Color::Text)
    }
}

/// Text that is cut short, with a sign that it was.
pub open spec fn shortened(s: Seq<char>, n: nat) -> Seq<char> {
    if s.len() > n {
        s.take(n as int) + "…"@
    } else {
        s
    }
}

/// The sign and the colour for the progress of a plan.
pub open spec fn progress_sign(status: Seq<char>) -> (Seq<char>, Color) {
    if status == "start"@ {
        ("▶"@, Color::Accent)
    } else if status == "ok"@ {
        ("✓"@, Color::Good)
    } else if status == "fail"@ {
        ("✗"@, Color::Bad)
    } else if status == "reject"@ {
        ("⛔"@, Color::Bad)
    } else {
        ("•"@, Color::Muted)
    }
}

/// The line for an event; `None` if the event is not shown as a line.
pub open spec fn event_line(ev: FrontendEventView) -> Option<Seq<SpanView>> {
    match ev {
        FrontendEventView::AgentMessage { content } => Some(markdown_block(lines_of(content))),
        FrontendEventView::ToolExecuting { tool_name, arguments } => Some(
            plain_line(
                "  🔧 "@ + tool_name + " "@ + shortened(replaced(arguments, '\n', ' '), 90),
                Color::Muted,
            ),
        ),
        FrontendEventView::ToolResult { tool_name, result } => Some(
            plain_line(
                "  ✅ "@ + tool_name + ": "@ + at_most(replaced(result, '\n', ' '), 80),
                Color::Good,
            ),
        ),
        FrontendEventView::SafetyReviewRequired { tool_name, reason } => Some(
            plain_line("  ⚠️  SAFETY: "@ + tool_name + " — "@ + reason, Color::Warn),
        ),
        FrontendEventView::ContextBranched { branch_name, source_branch } => Some(
            plain_line("  🌿 ветка "@ + source_branch + " → "@ + branch_name, Color::Accent),
        ),
        FrontendEventView::ModelInfo { model_name } => Some(
            plain_line("  модель: "@ + model_name, Color::Muted),
        ),
        FrontendEventView::PlanProgress { node, status } => {
            let (sign, color) = progress_sign(status);
            Some(plain_line("  "@ + sign + " "@ + node, color))
        },
        FrontendEventView::Ping => None,
        FrontendEventView::AgentActivity { text } => None,
    }
}

pub open spec fn opt_line(o: Option<UILine>) -> Option<Seq<SpanView>> {
    match o {
        Some(l) => Some(l@),
        None => None,
    }
}

/// A text between two others.
fn three(a: &str, b: &str, c: &str, d: &str) -> (r: String)
    ensures
        r@ == a@ + b@ + c@ + d@,
{
    let mut s = a.to_string();
    s.append(b);
    s.append(c);
    s.append(d);
    s
}

fn markdown_lines(content: &str) -> (r: UILine)
    ensures
        r@ == markdown_block(lines_of(content@)),
{
    let pieces = lines(content);
    let ghost all = texts(pieces@);
    let mut spans: Vec<Span> = Vec::new();
    let mut i: usize = 0;
    assert(all.take(0) =~= Seq::empty());
    assert(span_views(spans@) =~= Seq::empty());
    while i < pieces.len()
        invariant
            i <= pieces@.len(),
            all == texts(pieces@),
            span_views(spans@) == markdown_block(all.take(i as int)),
        decreases pieces@.len() - i,
    {
        let ghost before = spans@;
        proof {
            let next = all.take(i + 1);
            assert(next.drop_last() =~= all.take(i as int));
            assert(next.last() == pieces@[i as int]@);
            assert(next.len() == 1 ==> next[0] == pieces@[i as int]@);
        }
        if i > 0 {
            spans.push(
                Span {
                    content: "\n".to_string(),
                    style: Style { fg: None, bold: false, italic: false },
                },
            );
        }
        let ghost broken = spans@;
        let mut more = markdown_spans(pieces[i].as_str(), Color::Text);
        let ghost added = more@;
        spans.append(&mut more);
        proof {
            assert(span_views(spans@) =~= span_views(broken) + span_views(added));
            if i > 0 {
                assert(span_views(broken) =~= span_views(before).push(broken.last()@));
            } else {
                assert(span_views(spans@) =~= span_views(added));
            }
        }
        i += 1;
    }
    assert(all.take(i as int) =~= all);
    UILine { spans }
}

/// The line for an event.
pub fn format_event(ev: &FrontendEvent) -> (r: Option<UILine>)
    ensures
        opt_line(r) == event_line(ev@),
{
    match ev {
        FrontendEvent::AgentMessage { content } => Some(markdown_lines(content.as_str())),
        FrontendEvent::ToolExecuting { tool_name, arguments } => {
            let flat = replace_char(arguments.as_str(), '\n', ' ');
            let chars = chars_of(flat.as_str());
            let args = if chars.len() > 90 {
                let mut s = text_range(&chars, 0, 90);
                assert(s@ =~= flat@.take(90));
                s.append("…");
                s
            } else {
                flat
            };
            Some(
                UILine::plain(
                    three("  🔧 ", tool_name.as_str(), " ", args.as_str()),
                    Color::Muted,
                ),
            )
        },
        FrontendEvent::ToolResult { tool_name, result } => {
            let flat = replace_char(result.as_str(), '\n', ' ');
            let head = take_chars(flat.as_str(), 80);
            Some(
                UILine::plain(
                    three("  ✅ ", tool_name.as_str(), ": ", head.as_str()),
                    Color::Good,
                ),
            )
        },
        FrontendEvent::SafetyReviewRequired { tool_name, reason } => Some(
            UILine::plain(
                three("  ⚠️  SAFETY: ", tool_name.as_str(), " — ", reason.as_str()),
                Color::Warn,
            ),
        ),
        FrontendEvent::ContextBranched { branch_name, source_branch } => Some(
            UILine::plain(
                three("  🌿 ветка ", source_branch.as_str(), " → ", branch_name.as_str()),
                Color::Accent,
            ),
        ),
        FrontendEvent::ModelInfo { model_name } => {
            let mut s = "  модель: ".to_string();
            s.append(model_name.as_str());
            Some(UILine::plain(s, Color::Muted))
        },
        FrontendEvent::PlanProgress { node, status } => {
            let (sign, color) = if same(status.as_str(), "start") {
                ("▶", Color::Accent)
            } else if same(status.as_str(), "ok") {
                ("✓", Color::Good)
            } else if same(status.as_str(), "fail") {
                ("✗", Color::Bad)
            } else if same(status.as_str(), "reject") {
                ("⛔", Color::Bad)
            } else {
                ("•", Color::Muted)
            };
            Some(UILine::plain(three("  ", sign, " ", node.as_str()), color))
        },
        FrontendEvent::Ping => None,
        FrontendEvent::AgentActivity { text } => None,
    }
}

/// A tool's arguments are shown on one line, whatever they hold: the text of
/// the line has no line break that the name of the tool does not bring in.
pub proof fn law_tool_line_has_no_break(tool_name: Seq<char>, arguments: Seq<char>)
    requires
        !tool_name.contains('\n'),
    ensures
        event_line(FrontendEventView::ToolExecuting { tool_name, arguments }) matches Some(l)
            && !line_text(l).contains('\n'),
{
    reveal_strlit("  🔧 ");
    reveal_strlit(" ");
    reveal_strlit("…");
    let flat = replaced(arguments, '\n', ' ');
    let args = shortened(flat, 90);
    let text = "  🔧 "@ + tool_name + " "@ + args;
    let l = plain_line(text, Color::Muted);
    assert(l.drop_last() =~= Seq::<SpanView>::empty());
    assert(line_text(l.drop_last()) =~= Seq::<char>::empty());
    assert(line_text(l) =~= text);
    assert forall|i: int| 0 <= i < args.len() implies args[i] != '\n' by {
        if i < flat.len() && (flat.len() <= 90 || i < 90) {
            assert(args[i] == flat[i]);
        }
    }
    if text.contains('\n') {
        let i = text.index_of('\n');
        let a = "  🔧 "@.len();
        let b = a + tool_name.len();
        if i < a {
        } else if i < b {
            assert(tool_name[i - a] == '\n');
        } else if i >= b + 1 {
            assert(args[i - b - 1] == '\n');
        }
    }
}

// ---------------------------------------------------------------------------
// Commands
// ---------------------------------------------------------------------------

/// The first white space from `i` on; the length if there is none.
pub open spec fn white_from(s: Seq<char>, i: nat) -> nat
    decreases s.len() - i,
{
    if i < s.len() && !is_white(s[i as int]) {
        white_from(s, i + 1)
    } else {
        i
    }
}

/// A command and what follows it.
pub open spec fn command_parts(text: Seq<char>) -> (Seq<char>, Seq<char>) {
    let k = white_from(text, 0) as int;
    if k < text.len() {
        (text.take(k), trimmed(text.skip(k + 1)))
    } else {
        (text, Seq::empty())
    }
}

fn find_command(text: &str) -> (r: (String, String))
    ensures
        (r.0@, r.1@) == command_parts(text@),
{
    let chars = chars_of(text);
    let mut k: usize = 0;
    while k < chars.len() && !white(chars[k])
        invariant
            k <= chars@.len(),
            chars@ == text@,
            white_from(text@, 0) == white_from(text@, k as nat),
        decreases chars@.len() - k,
    {
        k += 1;
    }
    if k < chars.len() {
        let cmd = text_range(&chars, 0, k);
        let rest = text_range(&chars, k + 1, chars.len());
        assert(cmd@ =~= text@.take(k as int));
        assert(rest@ =~= text@.skip(k + 1));
        (cmd, trim(rest.as_str()))
    } else {
        (text.to_string(), String::new())
    }
}

pub open spec fn line_views(v: Seq<UILine>) -> Seq<Seq<SpanView>> {
    v.map_values(|l: UILine| l@)
}

/// The help.
pub open spec fn help_lines() -> Seq<Seq<SpanView>> {
    seq![
        plain_line("  Команды:"@, Color::Accent),
        plain_line("  <текст> — обычный запрос к модели (Enter отправляет)"@, Color::Text),
        plain_line("  /plan <file.luck> — скомпилировать и ИСПОЛНИТЬ план"@, Color::Text),
        plain_line("      пример: /plan examples/demo.luck"@, Color::Muted),
        plain_line("  /tools — список зарегистрированных тулов"@, Color::Text),
        plain_line("  /branch — список веток контекста"@, Color::Text),
        plain_line("  /branch <name> — переключиться на ветку"@, Color::Text),
        plain_line("  /clear — очистить экран"@, Color::Text),
        plain_line("  /quit — выход (или Ctrl+C)"@, Color::Text),
        plain_line("  ↑/↓ — история, PageUp/PageDown — скролл"@, Color::Muted),
    ]
}

fn help() -> (r: Vec<UILine>)
    ensures
        line_views(r@) == help_lines(),
{
    let r: Vec<UILine> = vec![
        UILine::plain("  Команды:", Color::Accent),
        UILine::plain("  <текст> — обычный запрос к модели (Enter отправляет)", Color::Text),
        UILine::plain("  /plan <file.luck> — скомпилировать и ИСПОЛНИТЬ план", Color::Text),
        UILine::plain("      пример: /plan examples/demo.luck", Color::Muted),
        UILine::plain("  /tools — список зарегистрированных тулов", Color::Text),
        UILine::plain("  /branch — список веток контекста", Color::Text),
        UILine::plain("  /branch <name> — переключиться на ветку", Color::Text),
        UILine::plain("  /clear — очистить экран", Color::Text),
        UILine::plain("  /quit — выход (или Ctrl+C)", Color::Text),
        UILine::plain("  ↑/↓ — история, PageUp/PageDown — скролл", Color::Muted),
    ];
    assert(line_views(r@) =~= help_lines());
    r
}

/// The lines for the names of the tools.
pub open spec fn tool_lines(tools: Seq<Seq<char>>) -> Seq<Seq<SpanView>> {
    if tools.len() == 0 {
        seq![plain_line("  (тулов нет)"@, Color::Muted)]
    } else {
        tools.map_values(|t: Seq<char>| plain_line("  • "@ + t, Color::Text))
    }
}

fn list_tools(tools: &Vec<String>) -> (r: Vec<UILine>)
    ensures
        line_views(r@) == tool_lines(texts(tools@)),
{
    let mut out: Vec<UILine> = Vec::new();
    if tools.len() == 0 {
        out.push(UILine::plain("  (тулов нет)", Color::Muted));
        assert(line_views(out@) =~= tool_lines(texts(tools@)));
        return out;
    }
    let mut i: usize = 0;
    while i < tools.len()
        invariant
            i <= tools@.len(),
            out@.len() == i,
            forall|j: int|
                0 <= j < i ==> (#[trigger] out@[j])@ == plain_line(
                    "  • "@ + tools@[j]@,
                    Color::Text,
                ),
        decreases tools@.len() - i,
    {
        let mut s = "  • ".to_string();
        s.append(tools[i].as_str());
        out.push(UILine::plain(s, Color::Text));
        i += 1;
    }
    assert(line_views(out@) =~= tool_lines(texts(tools@)));
    out
}

// ---------------------------------------------------------------------------
// The state of the screen
// ---------------------------------------------------------------------------

/// A key.
#[derive(Debug, Clone, Copy, PartialEq, Eq, Structural)]
pub enum Key {
    Char { c: char, ctrl: bool },
    Backspace,
    Enter,
    Esc,
    PageUp,
    PageDown,
    Up,
    Down,
    Other,
}

/// What a key leads to, outside the screen.
#[derive(Debug, PartialEq, Eq)]
pub enum Reaction {
    Nothing,
    /// Leave.
    Quit,
    /// Break the current request off.
    Abort,
    /// Hand a text to the agent.
    Prompt(String),
    /// Show the branches and switch to this one, unless it is empty.
    Branches(String),
    /// Run the plan in this file.
    Plan(String),
}

pub enum ReactionView {
    Nothing,
    Quit,
    Abort,
    Prompt(Seq<char>),
    Branches(Seq<char>),
    Plan(Seq<char>),
}

impl View for Reaction {
    type V = ReactionView;

    open spec fn view(&self) -> ReactionView {
        match *self {
            Reaction::Nothing => ReactionView::Nothing,
            Reaction::Quit => ReactionView::Quit,
            Reaction::Abort => ReactionView::Abort,
            Reaction::Prompt(s) => ReactionView::Prompt(s@),
            Reaction::Branches(s) => ReactionView::Branches(s@),
            Reaction::Plan(s) => ReactionView::Plan(s@),
        }
    }
}

/// The state of the screen.
pub struct App {
    pub lines: Vec<UILine>,
    pub input: String,
    pub scroll: u16,
    pub status: String,
    pub branch: String,
    pub running: bool,
    pub model: String,
    pub tools: Vec<String>,
    /// What has been entered.
    pub history: Vec<String>,
    /// The place in the history; its length means a new text.
    pub hist_idx: usize,
    /// When Ctrl+C was last pressed, in milliseconds.
    pub interrupted_at: Option<u64>,
}

#[verifier::ext_equal]
pub struct AppView {
    pub lines: Seq<Seq<SpanView>>,
    pub input: Seq<char>,
    pub scroll: u16,
    pub status: Seq<char>,
    pub branch: Seq<char>,
    pub running: bool,
    pub model: Seq<char>,
    pub tools: Seq<Seq<char>>,
    pub history: Seq<Seq<char>>,
    pub hist_idx: int,
    pub interrupted_at: Option<u64>,
}

impl View for App {
    type V = AppView;

    open spec fn view(&self) -> AppView {
        AppView {
            lines: line_views(self.lines@),
            input: self.input@,
            scroll: self.scroll,
            status: self.status@,
            branch: self.branch@,
            running: self.running,
            model: self.model@,
            tools: texts(self.tools@),
            history: texts(self.history@),
            hist_idx: self.hist_idx as int,
            interrupted_at: self.interrupted_at,
        }
    }
}

/// How soon a second Ctrl+C has to follow the first to leave, in milliseconds.
pub open spec fn double_press_ms() -> int {
    1500
}

impl AppView {
    pub open spec fn with_line(self, line: Seq<SpanView>) -> AppView {
        AppView { lines: self.lines.push(line), ..self }
    }

    pub open spec fn with_lines(self, lines: Seq<Seq<SpanView>>) -> AppView {
        AppView { lines: self.lines + lines, ..self }
    }

    /// A command that begins with a slash.
    pub open spec fn commanded(self, text: Seq<char>) -> (AppView, ReactionView) {
        let (cmd, arg) = command_parts(text);
        if cmd == "/help"@ {
            (self.with_lines(help_lines()), ReactionView::Nothing)
        } else if cmd == "/tools"@ {
            (self.with_lines(tool_lines(self.tools)), ReactionView::Nothing)
        } else if cmd == "/branch"@ {
            (self, ReactionView::Branches(arg))
        } else if cmd == "/clear"@ {
            (AppView { lines: Seq::empty(), scroll: 0, ..self }, ReactionView::Nothing)
        } else if cmd == "/plan"@ {
            if arg.len() == 0 {
                (
                    self.with_line(
                        plain_line(
                            "  /plan <file.luck> — скомпилировать и исполнить план"@,
                            Color::Muted,
                        ),
                    ),
                    ReactionView::Nothing,
                )
            } else {
                (self, ReactionView::Plan(arg))
            }
        } else if cmd == "/quit"@ {
            (self, ReactionView::Quit)
        } else {
            (
                self.with_line(plain_line("  ✗ неизвестная команда: "@ + cmd, Color::Bad)),
                ReactionView::Nothing,
            )
        }
    }

    /// A text has been entered.
    pub open spec fn entered(self) -> (AppView, ReactionView) {
        let text = trimmed(self.input);
        if text.len() == 0 {
            (self, ReactionView::Nothing)
        } else {
            let taken = AppView {
                history: self.history.push(text),
                hist_idx: self.history.len() as int + 1,
                input: Seq::empty(),
                ..self.with_line(plain_line("❯ "@ + text, Color::Accent))
            };
            if text[0] == '/' {
                taken.commanded(text)
            } else {
                (
                    AppView { running: true, status: self.model + " · работает…"@, ..taken },
                    ReactionView::Prompt(text),
                )
            }
        }
    }

    /// A key has been pressed.
    pub open spec fn pressed(self, key: Key, now: u64) -> (AppView, ReactionView) {
        match key {
            Key::Char { c, ctrl } => if ctrl && c == 'c' {
                if self.interrupted_at matches Some(t) && now - t < double_press_ms() {
                    (self, ReactionView::Quit)
                } else {
                    (AppView { interrupted_at: Some(now), ..self }, ReactionView::Abort)
                }
            } else {
                (AppView { input: self.input.push(c), ..self }, ReactionView::Nothing)
            },
            Key::Backspace => (
                AppView {
                    input: if self.input.len() == 0 {
                        self.input
                    } else {
                        self.input.drop_last()
                    },
                    ..self
                },
                ReactionView::Nothing,
            ),
            Key::Enter => self.entered(),
            Key::Esc => (self, ReactionView::Abort),
            Key::PageUp => (
                AppView {
                    scroll: if self.scroll > u16::MAX - 10 {
                        u16::MAX
                    } else {
                        (self.scroll + 10) as u16
                    },
                    ..self
                },
                ReactionView::Nothing,
            ),
            Key::PageDown => (
                AppView {
                    scroll: if self.scroll < 10 {
                        0
                    } else {
                        (self.scroll - 10) as u16
                    },
                    ..self
                },
                ReactionView::Nothing,
            ),
            Key::Up => {
                let i = if self.hist_idx > 0 {
                    self.hist_idx - 1
                } else {
                    0
                };
                (
                    AppView {
                        hist_idx: i,
                        input: if i < self.history.len() {
                            self.history[i]
                        } else {
                            self.input
                        },
                        ..self
                    },
                    ReactionView::Nothing,
                )
            },
            Key::Down => {
                let i = if self.hist_idx < self.history.len() {
                    self.hist_idx + 1
                } else {
                    self.hist_idx
                };
                (
                    AppView {
                        hist_idx: i,
                        input: if i < self.history.len() {
                            self.history[i]
                        } else {
                            Seq::empty()
                        },
                        ..self
                    },
                    ReactionView::Nothing,
                )
            },
            Key::Other => (self, ReactionView::Nothing),
        }
    }

    /// The agent or a plan has finished, with an answer or an error.
    pub open spec fn finished(self, answer: Seq<char>, error: Seq<char>) -> AppView {
        let idle = AppView {
            running: false,
            status: self.model + " · ветка "@ + self.branch,
            ..self
        };
        let told = if answer.len() == 0 {
            idle
        } else {
            idle.with_line(plain_line("  🤖"@, Color::Accent)).with_line(
                markdown(answer, Color::Text),
            )
        };
        if error.len() > 0 {
            told.with_line(plain_line("  ✗ "@ + error, Color::Bad))
        } else if answer.len() == 0 {
            told.with_line(plain_line("  ✓ готово"@, Color::Good))
        } else {
            told
        }
    }

    /// An event of the agent; `seconds` is how long it has been at work.
    pub open spec fn told(self, ev: FrontendEventView, seconds: nat) -> AppView {
        match (event_line(ev), ev) {
            (Some(line), _) => self.with_line(line),
            (None, FrontendEventView::AgentActivity { text }) => AppView {
                status: "думает… "@ + decimal(seconds) + "s · "@ + text,
                ..self
            },
            (None, _) => self,
        }
    }
}

impl App {
    /// The place in the history exists.
    pub open spec fn wf(&self) -> bool {
        self.hist_idx <= self.history@.len()
    }

    pub fn new(model: &str, branch: &str, tools: Vec<String>) -> (r: Self)
        ensures
            r.wf(),
            r@ == (AppView {
                lines: seq![
                    plain_line(
                        "AI Agent TUI (стиль grok-build). /help — команды, Enter — отправить, Ctrl+C — выход."@,
                        Color::Muted,
                    ),
                ],
                input: Seq::empty(),
                scroll: 0,
                status: model@ + " · ветка "@ + branch@ + " · тулы "@ + decimal(
                    tools@.len(),
                ),
                branch: branch@,
                running: false,
                model: model@,
                tools: texts(tools@),
                history: Seq::empty(),
                hist_idx: 0,
                interrupted_at: None,
            }),
    {
        let mut status = model.to_string();
        status.append(" · ветка ");
        status.append(branch);
        status.append(" · тулы ");
        status.append(show_usize(tools.len()).as_str());
        let lines: Vec<UILine> = vec![
            UILine::plain(
                "AI Agent TUI (стиль grok-build). /help — команды, Enter — отправить, Ctrl+C — выход.",
                Color::Muted,
            ),
        ];
        let history: Vec<String> = Vec::new();
        assert(texts(history@) =~= Seq::empty());
        assert(line_views(lines@) =~= seq![lines@[0]@]);
        App {
            lines,
            input: String::new(),
            scroll: 0,
            status,
            branch: branch.to_string(),
            running: false,
            model: model.to_string(),
            tools,
            history,
            hist_idx: 0,
            interrupted_at: None,
        }
    }

    /// Add a line.
    pub fn push(&mut self, line: UILine)
        ensures
            final(self)@ == old(self)@.with_line(line@),
            final(self).history == old(self).history,
            final(self).hist_idx == old(self).hist_idx,
    {
        let ghost before = self.lines@;
        self.lines.push(line);
        assert(line_views(self.lines@) =~= line_views(before).push(line@));
    }

    fn push_all(&mut self, lines: Vec<UILine>)
        ensures
            final(self)@ == old(self)@.with_lines(line_views(lines@)),
            final(self).history == old(self).history,
            final(self).hist_idx == old(self).hist_idx,
    {
        let ghost before = self.lines@;
        let ghost added = lines@;
        let mut more = lines;
        self.lines.append(&mut more);
        assert(line_views(self.lines@) =~= line_views(before) + line_views(added));
    }

    /// Add the line for a text of the user.
    pub fn push_user(&mut self, text: &str)
        ensures
            final(self)@ == old(self)@.with_line(plain_line("❯ "@ + text@, Color::Accent)),
            final(self).history == old(self).history,
            final(self).hist_idx == old(self).hist_idx,
    {
        let mut s = "❯ ".to_string();
        s.append(text);
        self.push(UILine::plain(s, Color::Accent));
    }

    fn command(&mut self, text: &str) -> (r: Reaction)
        requires
            old(self).wf(),
        ensures
            final(self).wf(),
            (final(self)@, r@) == old(self)@.commanded(text@),
    {
        let (cmd, arg) = find_command(text);
        let name = cmd.as_str();
        if same(name, "/help") {
            self.push_all(help());
            Reaction::Nothing
        } else if same(name, "/tools") {
            let lines = list_tools(&self.tools);
            self.push_all(lines);
            Reaction::Nothing
        } else if same(name, "/branch") {
            Reaction::Branches(arg)
        } else if same(name, "/clear") {
            self.lines = Vec::new();
            self.scroll = 0;
            assert(line_views(self.lines@) =~= Seq::empty());
            Reaction::Nothing
        } else if same(name, "/plan") {
            if arg.as_str().is_empty() {
                self.push(
                    UILine::plain(
                        "  /plan <file.luck> — скомпилировать и исполнить план",
                        Color::Muted,
                    ),
                );
                Reaction::Nothing
            } else {
                Reaction::Plan(arg)
            }
        } else if same(name, "/quit") {
            Reaction::Quit
        } else {
            let mut s = "  ✗ неизвестная команда: ".to_string();
            s.append(name);
            self.push(UILine::plain(s, Color::Bad));
            Reaction::Nothing
        }
    }

    fn enter(&mut self) -> (r: Reaction)
        requires
            old(self).wf(),
            old(self).history@.len() < usize::MAX,
        ensures
            final(self).wf(),
            (final(self)@, r@) == old(self)@.entered(),
    {
        let text = trim(self.input.as_str());
        if text.as_str().is_empty() {
            return Reaction::Nothing;
        }
        let ghost start = self@;
        let ghost before = self.history@;
        self.history.push(text.clone());
        self.hist_idx = self.history.len();
        assert(texts(self.history@) =~= texts(before).push(text@));
        self.push_user(text.as_str());
        self.input = String::new();
        let slash = text.as_str().get_char(0) == '/';
        if slash {
            self.command(text.as_str())
        } else {
            self.running = true;
            let mut status = self.model.clone();
            status.append(" · работает…");
            self.status = status;
            Reaction::Prompt(text)
        }
    }

    /// React to a key; `now` is the time in milliseconds.
    pub fn key(&mut self, key: Key, now: u64) -> (r: Reaction)
        requires
            old(self).wf(),
            old(self).history@.len() < usize::MAX,
        ensures
            final(self).wf(),
            (final(self)@, r@) == old(self)@.pressed(key, now),
    {
        match key {
            Key::Char { c, ctrl } => {
                if ctrl && c == 'c' {
                    match self.interrupted_at {
                        Some(t) => {
                            if now < t || now - t < 1500 {
                                return Reaction::Quit;
                            }
                        },
                        None => {},
                    }
                    self.interrupted_at = Some(now);
                    Reaction::Abort
                } else {
                    self.input.push(c);
                    Reaction::Nothing
                }
            },
            Key::Backspace => {
                let chars = chars_of(self.input.as_str());
                if chars.len() > 0 {
                    let shorter = text_range(&chars, 0, chars.len() - 1);
                    assert(shorter@ =~= self.input@.drop_last());
                    self.input = shorter;
                }
                Reaction::Nothing
            },
            Key::Enter => self.enter(),
            Key::Esc => Reaction::Abort,
            Key::PageUp => {
                self.scroll = self.scroll.saturating_add(10);
                Reaction::Nothing
            },
            Key::PageDown => {
                self.scroll = self.scroll.saturating_sub(10);
                Reaction::Nothing
            },
            Key::Up => {
                if self.hist_idx > 0 {
                    self.hist_idx = self.hist_idx - 1;
                }
                if self.hist_idx < self.history.len() {
                    assert(texts(self.history@)[self.hist_idx as int] == self.history@[self.hist_idx as int]@);
                    self.input = self.history[self.hist_idx].clone();
                }
                Reaction::Nothing
            },
            Key::Down => {
                if self.hist_idx < self.history.len() {
                    self.hist_idx = self.hist_idx + 1;
                }
                if self.hist_idx < self.history.len() {
                    assert(texts(self.history@)[self.hist_idx as int] == self.history@[self.hist_idx as int]@);
                    self.input = self.history[self.hist_idx].clone();
                } else {
                    self.input = String::new();
                }
                Reaction::Nothing
            },
            Key::Other => Reaction::Nothing,
        }
    }

    /// The agent or a plan has finished, with an answer or an error.
    pub fn finish(&mut self, answer: &str, error: &str)
        ensures
            final(self)@ == old(self)@.finished(answer@, error@),
    {
        self.running = false;
        let mut status = self.model.clone();
        status.append(" · ветка ");
        status.append(self.branch.as_str());
        self.status = status;
        if !answer.is_empty() {
            self.push(UILine::plain("  🤖", Color::Accent));
            self.push(UILine::markdown(answer));
        }
        if !error.is_empty() {
            let mut s = "  ✗ ".to_string();
            s.append(error);
            self.push(UILine::plain(s, Color::Bad));
        } else if answer.is_empty() {
            self.push(UILine::plain("  ✓ готово", Color::Good));
        }
    }

    /// Show an event of the agent; `seconds` is how long it has been at work.
    pub fn event(&mut self, ev: &FrontendEvent, seconds: u64)
        ensures
            final(self)@ == old(self)@.told(ev@, seconds as nat),
    {
        match format_event(ev) {
            Some(line) => self.push(line),
            None => match ev {
                FrontendEvent::AgentActivity { text } => {
                    let mut s = "думает… ".to_string();
                    s.append(show(seconds as u128).as_str());
                    s.append("s · ");
                    s.append(text.as_str());
                    self.status = s;
                },
                _ => {},
            },
        }
    }
}

// ---------------------------------------------------------------------------
// Branches and plans
// ---------------------------------------------------------------------------

/// The line for a branch: its name, the number of messages of the current
/// branch, and a sign at the branch that is shown.
pub open spec fn branch_line(b: BranchView, count: nat, shown: Seq<char>) -> Seq<SpanView> {
    plain_line(
        "  • "@ + b.name + " ("@ + decimal(count) + " сообщ.)"@ + if b.name == shown {
            " ◀"@
        } else {
            ""@
        },
        Color::Text,
    )
}

pub open spec fn branch_lines(list: Seq<BranchView>, count: nat, shown: Seq<char>) -> Seq<
    Seq<SpanView>,
> {
    list.map_values(|b: BranchView| branch_line(b, count, shown))
}

impl AppView {
    /// After the switch to a branch, or the attempt.
    pub open spec fn switched(self, before: ContextView, after: ContextView, name: Seq<char>) -> AppView {
        if name.len() == 0 {
            self.with_line(plain_line("  /branch <name> — переключиться"@, Color::Muted))
        } else if before.has_name(name) {
            AppView {
                branch: after.here().name,
                status: self.model + " · ветка "@ + after.here().name,
                ..self
            }.with_line(plain_line("  🌿 переключено на «"@ + name + "»"@, Color::Good))
        } else {
            self.with_line(
                plain_line("  ✗ "@ + ("branch '"@ + name + "' not found"@), Color::Bad),
            )
        }
    }
}

impl App {
    /// Show the branches and switch to the one with the given name, unless it
    /// is empty. More than one branch of that name counts as a bug of the
    /// caller.
    pub fn branches(&mut self, context: &mut ContextManager, name: &str)
        requires
            old(context).wf(),
            old(context)@.name_unique(name@),
        ensures
            final(context).wf(),
            final(context)@.branches == old(context)@.branches,
            if name@.len() > 0 && old(context)@.has_name(name@) {
                old(context)@.named(final(context)@.current, name@)
            } else {
                final(context)@ == old(context)@
            },
            exists|list: Seq<BranchView>|
                lists_branches(list, old(context)@.branches) && sorted_by_name(list)
                    && final(self)@ == old(self)@.with_lines(
                    #[trigger] branch_lines(
                        list,
                        old(context)@.messages().len(),
                        old(self)@.branch,
                    ),
                ).switched(old(context)@, final(context)@, name@),
    {
        let ghost start = self@;
        let ghost before = context@;
        let list = context.list();
        let count: usize = context.current_messages().len();
        assert(count == before.messages().len());
        let ghost views = branch_views(list@);
        let mut out: Vec<UILine> = Vec::new();
        let mut i: usize = 0;
        while i < list.len()
            invariant
                i <= list@.len(),
                out@.len() == i,
                self@ == start,
                forall|j: int|
                    0 <= j < i ==> (#[trigger] out@[j])@ == branch_line(
                        list@[j]@,
                        count as nat,
                        start.branch,
                    ),
            decreases list@.len() - i,
        {
            let b = list[i];
            let mut s = "  • ".to_string();
            s.append(b.name.as_str());
            s.append(" (");
            s.append(show_usize(count).as_str());
            s.append(" сообщ.)");
            if same(b.name.as_str(), self.branch.as_str()) {
                s.append(" ◀");
            } else {
                s.append("");
            }
            out.push(UILine::plain(s, Color::Text));
            i += 1;
        }
        assert(line_views(out@) =~= branch_lines(views, count as nat, start.branch));
        self.push_all(out);
        let ghost listed = start.with_lines(
            branch_lines(views, before.messages().len(), start.branch),
        );
        assert(self@ == listed);
        if name.is_empty() {
            self.push(UILine::plain("  /branch <name> — переключиться", Color::Muted));
            assert(self@ == listed.switched(before, context@, name@));
            return ;
        }
        match context.switch_by_name(name) {
            Ok(()) => {
                let shown = context.current_branch().name.clone();
                let mut status = self.model.clone();
                status.append(" · ветка ");
                status.append(shown.as_str());
                self.branch = shown;
                self.status = status;
                assert(before.named(context@.current, name@));
                let mut s = "  🌿 переключено на «".to_string();
                s.append(name);
                s.append("»");
                self.push(UILine::plain(s, Color::Good));
                assert(self@ == listed.switched(before, context@, name@));
            },
            Err(e) => {
                let mut s = "  ✗ ".to_string();
                s.append(e.as_str());
                self.push(UILine::plain(s, Color::Bad));
                assert(self@ == listed.switched(before, context@, name@));
            },
        }
    }
}

/// The progress of a plan.
#[derive(Debug, PartialEq, Eq)]
pub enum PlanEvent {
    NodeStart { id: String },
    NodeDone { id: String, ok: bool },
    Rejected { reason: String },
    Completed,
}

/// The line for the progress of a plan.
pub open spec fn plan_line(ev: PlanEvent) -> Seq<SpanView> {
    match ev {
        PlanEvent::NodeStart { id } => plain_line("  ▶ "@ + id@, Color::Accent),
        PlanEvent::NodeDone { id, ok } => if ok {
            plain_line("  ✓ "@ + id@, Color::Good)
        } else {
            plain_line("  ✗ "@ + id@, Color::Bad)
        },
        PlanEvent::Rejected { reason } => plain_line("  ⛔ "@ + reason@, Color::Bad),
        PlanEvent::Completed => plain_line("  🏁 план завершён"@, Color::Good),
    }
}

/// The line for the progress of a plan.
pub fn format_plan_event(ev: &PlanEvent) -> (r: UILine)
    ensures
        r@ == plan_line(*ev),
{
    match ev {
        PlanEvent::NodeStart { id } => UILine::plain(
            "  ▶ ".to_string().concat(id.as_str()),
            Color::Accent,
        ),
        PlanEvent::NodeDone { id, ok } => if *ok {
            UILine::plain("  ✓ ".to_string().concat(id.as_str()), Color::Good)
        } else {
            UILine::plain("  ✗ ".to_string().concat(id.as_str()), Color::Bad)
        },
        PlanEvent::Rejected { reason } => UILine::plain(
            "  ⛔ ".to_string().concat(reason.as_str()),
            Color::Bad,
        ),
        PlanEvent::Completed => UILine::plain("  🏁 план завершён", Color::Good),
    }
}

// ---------------------------------------------------------------------------
// Laws of the screen
// ---------------------------------------------------------------------------

/// Going up and down in the history brings the text of one place back: after
/// Up, Up and Down the input is what it was after the first Up.
pub proof fn law_history(a: AppView, now: u64)
    requires
        2 <= a.hist_idx <= a.history.len(),
    ensures
        ({
            let once = a.pressed(Key::Up, now).0;
            let twice = once.pressed(Key::Up, now).0;
            let back = twice.pressed(Key::Down, now).0;
            &&& once.input == a.history[a.hist_idx - 1]
            &&& twice.input == a.history[a.hist_idx - 2]
            &&& back == once
        }),
{
}

/// A single Ctrl+C and Esc break the current request off and nothing else; a
/// second Ctrl+C within a second and a half leaves, a later one does not.
pub proof fn law_interrupt(a: AppView, first: u64, second: u64)
    requires
        first <= second,
        a.interrupted_at is None,
    ensures
        ({
            let ctrl_c = Key::Char { c: 'c', ctrl: true };
            let (b, reaction) = a.pressed(ctrl_c, first);
            &&& reaction is Abort
            &&& b == (AppView { interrupted_at: Some(first), ..a })
            &&& b.pressed(ctrl_c, second).1 is Quit <==> second - first < 1500
            &&& a.pressed(Key::Esc, first) == (a, ReactionView::Abort)
        }),
{
}

/// A text that is typed and deleted again leaves the screen as it was.
pub proof fn law_backspace(a: AppView, c: char, now: u64)
    ensures
        a.pressed(Key::Char { c, ctrl: false }, now).0.pressed(Key::Backspace, now).0 == a,
{
    assert(a.input.push(c).drop_last() =~= a.input);
}

// ---------------------------------------------------------------------------
// Layout
// ---------------------------------------------------------------------------

/// The first line that is shown: as many lines from the end as fit between the
/// borders, and `scroll` lines further up.
pub fn visible_start(count: usize, height: u16, scroll: u16) -> (r: usize)
    ensures
        r <= count,
        r == {
            let fit = if height < 2 {
                0
            } else {
                height - 2
            };
            if count < fit + scroll {
                0
            } else {
                count - fit - scroll
            }
        },
{
    let fit: usize = (height as usize).saturating_sub(2);
    count.saturating_sub(fit).saturating_sub(scroll as usize)
}

/// How far the cursor stands behind the left border: behind the input, which
/// is counted modulo 65536, but inside the frame.
pub fn cursor_offset(input: &str, width: u16) -> (r: u16)
    ensures
        ({
            let typed = input@.len() % 65536;
            let room = if width < 2 {
                0
            } else {
                width - 2
            };
            r == if typed < room {
                typed
            } else {
                room as nat
            }
        }),
{
    let chars = chars_of(input);
    let typed: u16 = (chars.len() % 65536) as u16;
    let room: u16 = width.saturating_sub(2);
    if typed < room {
        typed
    } else {
        room
    }
}

// ---------------------------------------------------------------------------
// Laws of styled text
// ---------------------------------------------------------------------------

/// A piece of text has one colour and is plain, bold or italic; a plain line
/// is one such piece. What a line says is what its pieces say, in order.
pub proof fn law_styles(content: Seq<char>, color: Color, spans: Seq<SpanView>, span: Span, line: UILine)
    ensures
        in_color(content, color) == (SpanView {
            content,
            style: Style { fg: Some(color), bold: false, italic: false },
        }),
        in_bold(content, color) == (SpanView {
            content,
            style: Style { fg: Some(color), bold: true, italic: false },
        }),
        in_italic(content, color) == (SpanView {
            content,
            style: Style { fg: Some(color), bold: false, italic: true },
        }),
        plain_line(content, color) == seq![
            SpanView { content, style: Style { fg: Some(color), bold: false, italic: false } },
        ],
        span@.content == span.content@,
        span@.style == span.style,
        line@.len() == line.spans@.len(),
        forall|i: int| 0 <= i < line@.len() ==> #[trigger] line@[i] == line.spans@[i]@,
        line_text(Seq::empty()) == Seq::<char>::empty(),
        line_text(spans.push(span@)) == line_text(spans) + span.content@,
        line_text(plain_line(content, color)) == content,
{
    assert(spans.push(span@).drop_last() =~= spans);
    let l = plain_line(content, color);
    assert(l.drop_last() =~= Seq::<SpanView>::empty());
    assert(line_text(l.drop_last()) =~= Seq::<char>::empty());
    assert(line_text(l) =~= content);
}

/// No star from one place to another.
pub open spec fn no_star(s: Seq<char>, i: int, j: int) -> bool {
    forall|m: int| i <= m < j ==> #[trigger] s[m] != '*'
}

proof fn lemma_plain_stretch(s: Seq<char>, i: int, j: int, plain: Seq<char>, base: Color)
    requires
        0 <= i <= j <= s.len(),
        no_star(s, i, j),
    ensures
        emphasis(s, i, plain, base) == emphasis(s, j, plain + s.subrange(i, j), base),
    decreases j - i,
{
    reveal_strlit("**");
    if i < j {
        assert(!occurs_at(s, "**"@, i)) by {
            if occurs_at(s, "**"@, i) {
                assert(s.subrange(i, i + 2)[0] == "**"@[0]);
            }
        }
        assert(s[i] != '*');
        lemma_plain_stretch(s, i + 1, j, plain.push(s[i]), base);
        assert(plain.push(s[i]) + s.subrange(i + 1, j) =~= plain + s.subrange(i, j));
    } else {
        assert(plain + s.subrange(i, j) =~= plain);
    }
}

proof fn lemma_plain_tail(s: Seq<char>, i: int, base: Color)
    requires
        0 <= i <= s.len(),
        no_star(s, i, s.len() as int),
    ensures
        emphasis(s, i, Seq::empty(), base) == flushed(s.skip(i), base),
{
    let n = s.len() as int;
    lemma_plain_stretch(s, i, n, Seq::empty(), base);
    assert(Seq::<char>::empty() + s.subrange(i, n) =~= s.skip(i));
}

/// Text that is not empty is one plain piece; empty text is none.
pub proof fn law_collected_text(plain: Seq<char>, base: Color)
    ensures
        plain.len() == 0 ==> flushed(plain, base).len() == 0,
        plain.len() > 0 ==> flushed(plain, base) == seq![
            SpanView {
                content: plain,
                style: Style { fg: Some(base), bold: false, italic: false },
            },
        ],
{
}

/// What stands between two pairs of stars is bold, what stands before and
/// behind is plain. Without the closing pair the rest is plain, with its stars.
pub proof fn law_bold(a: Seq<char>, b: Seq<char>, c: Seq<char>, base: Color)
    requires
        !a.contains('*'),
        !b.contains('*'),
        !c.contains('*'),
    ensures
        emphasis(a + seq!['*', '*'] + b + seq!['*', '*'] + c, 0, Seq::empty(), base) == flushed(
            a,
            base,
        ) + seq![
            SpanView { content: b, style: Style { fg: Some(base), bold: true, italic: false } },
        ] + flushed(c, base),
        emphasis(a + seq!['*', '*'] + b, 0, Seq::empty(), base) == flushed(a, base) + seq![
            SpanView {
                content: seq!['*', '*'] + b,
                style: Style { fg: Some(base), bold: false, italic: false },
            },
        ],
{
    reveal_strlit("**");
    let two = seq!['*', '*'];
    assert("**"@ =~= two);
    let n = a.len() as int;
    let k = n + 2 + b.len();
    assert forall|i: int| 0 <= i < a.len() implies a[i] != '*' by {
        if a[i] == '*' {
            assert(a.contains('*'));
        }
    }
    assert forall|i: int| 0 <= i < b.len() implies b[i] != '*' by {
        if b[i] == '*' {
            assert(b.contains('*'));
        }
    }
    assert forall|i: int| 0 <= i < c.len() implies c[i] != '*' by {
        if c[i] == '*' {
            assert(c.contains('*'));
        }
    }
    let s = a + two + b + two + c;
    lemma_plain_stretch(s, 0, n, Seq::empty(), base);
    assert(Seq::<char>::empty() + s.subrange(0, n) =~= a);
    assert(s.subrange(n, n + 2) =~= two);
    assert(occurs_at(s, "**"@, n));
    assert(s.subrange(k, k + 2) =~= two);
    assert forall|j: int| n + 2 <= j < k implies !occurs_at(s, "**"@, j) by {
        if occurs_at(s, "**"@, j) {
            assert(s.subrange(j, j + 2)[0] == two[0]);
            assert(s[j] == b[j - n - 2]);
        }
    }
    assert(first_occurrence(s, "**"@, n + 2, k));
    lemma_next_at(s, "**"@, n + 2, k);
    assert(s.subrange(n + 2, k) =~= b);
    assert forall|m: int| k + 2 <= m < s.len() implies #[trigger] s[m] != '*' by {
        assert(s[m] == c[m - k - 2]);
    }
    lemma_plain_tail(s, k + 2, base);
    assert(s.skip(k + 2) =~= c);
    let t = a + two + b;
    lemma_plain_stretch(t, 0, n, Seq::empty(), base);
    assert(Seq::<char>::empty() + t.subrange(0, n) =~= a);
    assert(t.subrange(n, n + 2) =~= two);
    assert(occurs_at(t, "**"@, n));
    assert forall|j: int| n + 2 <= j implies !occurs_at(t, "**"@, j) by {
        if occurs_at(t, "**"@, j) {
            assert(t.subrange(j, j + 2)[0] == two[0]);
            assert(t[j] == b[j - n - 2]);
        }
    }
    lemma_no_next(t, "**"@, n + 2);
    assert(t.skip(n) =~= two + b);
}

proof fn lemma_open_star(a: Seq<char>, b: Seq<char>, base: Color)
    requires
        no_star(a, 0, a.len() as int),
        no_star(b, 0, b.len() as int),
        b.len() > 0,
    ensures
        emphasis(a + seq!['*'] + b, 0, Seq::empty(), base) == flushed(a, base) + seq![
            in_color(seq!['*'] + b, base),
        ],
{
    reveal_strlit("**");
    reveal_strlit("*");
    let one = seq!['*'];
    assert("*"@ =~= one);
    let n = a.len() as int;
    let t = a + one + b;
    lemma_plain_stretch(t, 0, n, Seq::empty(), base);
    assert(Seq::<char>::empty() + t.subrange(0, n) =~= a);
    assert(t[n] == '*');
    assert(t[n + 1] == b[0]);
    assert(!occurs_at(t, "**"@, n)) by {
        if occurs_at(t, "**"@, n) {
            assert(t.subrange(n, n + 2)[1] == "**"@[1]);
        }
    }
    assert forall|j: int| n + 1 <= j implies !occurs_at(t, "*"@, j) by {
        if occurs_at(t, "*"@, j) {
            assert(t.subrange(j, j + 1)[0] == one[0]);
            assert(t[j] == b[j - n - 1]);
        }
    }
    lemma_no_next(t, "*"@, n + 1);
    assert forall|m: int| n + 1 <= m < t.len() implies #[trigger] t[m] != '*' by {
        assert(t[m] == b[m - n - 1]);
    }
    let end = t.len() as int;
    lemma_plain_stretch(t, n + 1, end, "*"@, base);
    assert("*"@ + t.subrange(n + 1, end) =~= one + b);
}

proof fn lemma_closed_star(a: Seq<char>, b: Seq<char>, c: Seq<char>, base: Color)
    requires
        no_star(a, 0, a.len() as int),
        no_star(b, 0, b.len() as int),
        no_star(c, 0, c.len() as int),
        b.len() > 0,
    ensures
        emphasis(a + seq!['*'] + b + seq!['*'] + c, 0, Seq::empty(), base) == flushed(a, base)
            + seq![in_italic(b, base)] + flushed(c, base),
{
    reveal_strlit("**");
    reveal_strlit("*");
    let one = seq!['*'];
    assert("*"@ =~= one);
    let n = a.len() as int;
    let k = n + 1 + b.len();
    let s = a + one + b + one + c;
    assert(s.len() == k + 1 + c.len());
    assert forall|m: int| 0 <= m < n implies #[trigger] s[m] != '*' by {
        assert(s[m] == a[m]);
    }
    lemma_plain_stretch(s, 0, n, Seq::empty(), base);
    assert(Seq::<char>::empty() + s.subrange(0, n) =~= a);
    assert(s[n] == '*');
    assert(s[n + 1] == b[0]);
    assert(!occurs_at(s, "**"@, n)) by {
        if occurs_at(s, "**"@, n) {
            assert(s.subrange(n, n + 2)[1] == "**"@[1]);
        }
    }
    assert(next_at(s, "*"@, n + 1) == Some(k)) by {
        assert(s.subrange(k, k + 1) =~= one);
        assert forall|j: int| n + 1 <= j < k implies !occurs_at(s, "*"@, j) by {
            if occurs_at(s, "*"@, j) {
                assert(s.subrange(j, j + 1)[0] == one[0]);
                assert(s[j] == b[j - n - 1]);
            }
        }
        assert(first_occurrence(s, "*"@, n + 1, k));
        lemma_next_at(s, "*"@, n + 1, k);
    }
    assert(s.subrange(n + 1, k) =~= b);
    let rest = emphasis(s, k + 1, Seq::empty(), base);
    assert(emphasis(s, n, a, base) == flushed(a, base) + seq![in_italic(b, base)] + rest);
    assert forall|m: int| k + 1 <= m < s.len() implies #[trigger] s[m] != '*' by {
        assert(s[m] == c[m - k - 1]);
    }
    lemma_plain_tail(s, k + 1, base);
    assert(s.skip(k + 1) =~= c);
}

proof fn lemma_no_star(s: Seq<char>)
    requires
        !s.contains('*'),
    ensures
        no_star(s, 0, s.len() as int),
{
    assert forall|i: int| 0 <= i < s.len() implies #[trigger] s[i] != '*' by {
        if s[i] == '*' {
            assert(s.contains('*'));
        }
    }
}

/// What stands between two single stars is italic, what stands before and
/// behind is plain. A star that is not closed stands at the beginning of what
/// follows it.
pub proof fn law_italic(a: Seq<char>, b: Seq<char>, c: Seq<char>, base: Color)
    requires
        !a.contains('*'),
        !b.contains('*'),
        !c.contains('*'),
        b.len() > 0,
    ensures
        emphasis(a + seq!['*'] + b + seq!['*'] + c, 0, Seq::empty(), base) == flushed(a, base)
            + seq![
            SpanView { content: b, style: Style { fg: Some(base), bold: false, italic: true } },
        ] + flushed(c, base),
        emphasis(a + seq!['*'] + b, 0, Seq::empty(), base) == flushed(a, base) + seq![
            SpanView {
                content: seq!['*'] + b,
                style: Style { fg: Some(base), bold: false, italic: false },
            },
        ],
{
    lemma_no_star(a);
    lemma_no_star(b);
    lemma_no_star(c);
    lemma_closed_star(a, b, c, base);
    lemma_open_star(a, b, base);
}

/// Backquotes enclose code: the pieces between them are by turns text, whose
/// stars count, and code, which is shown bold as it is.
pub proof fn law_code(pieces: Seq<Seq<char>>, text: Seq<char>, code: Seq<char>, base: Color)
    requires
        pieces.len() % 2 == 0,
    ensures
        code_and_emphasis(Seq::empty(), base).len() == 0,
        code_and_emphasis(pieces.push(text), base) == code_and_emphasis(pieces, base) + emphasis(
            text,
            0,
            Seq::empty(),
            base,
        ),
        code_and_emphasis(pieces.push(text).push(code), base) == code_and_emphasis(
            pieces.push(text),
            base,
        ).push(
            SpanView {
                content: code,
                style: Style { fg: Some(Color::Accent), bold: true, italic: false },
            },
        ),
{
    assert(pieces.push(text).drop_last() =~= pieces);
    assert(pieces.push(text).push(code).drop_last() =~= pieces.push(text));
    let all = code_and_emphasis(pieces.push(text), base);
    let span = in_bold(code, Color::Accent);
    assert(all + seq![span] =~= all.push(span));
}

proof fn lemma_hashes(n: nat, rest: Seq<char>)
    requires
        rest.len() > 0 ==> rest[0] != '#',
    ensures
        header_level(Seq::new(n, |i: int| '#') + rest) == n,
    decreases n,
{
    let s = Seq::new(n, |i: int| '#') + rest;
    if n > 0 {
        let m = (n - 1) as nat;
        assert(s.skip(1) =~= Seq::new(m, |i: int| '#') + rest);
        lemma_hashes(m, rest);
    } else {
        assert(s =~= rest);
    }
}

/// A line that begins with three backquotes or three tildes, blanks aside, is
/// muted as it is. A line that begins with hashes and a blank is a heading: its
/// hashes, a blank and the trimmed rest, bold. Without the blank it is text.
pub proof fn law_lines_of_markdown(text: Seq<char>, n: nat, body: Seq<char>, base: Color)
    requires
        n > 0,
        body.len() > 0,
    ensures
        ({
            let t = drop_front(text, CharClass::White);
            let hashes = Seq::new(n, |i: int| '#');
            &&& t.len() >= 3 && t[0] == t[1] == t[2] && (t[0] == '`' || t[0] == '~') ==> markdown(
                text,
                base,
            ) == seq![
                SpanView {
                    content: text,
                    style: Style { fg: Some(Color::Muted), bold: false, italic: false },
                },
            ]
            &&& t == hashes + seq![' '] + body ==> markdown(text, base) == seq![
                SpanView {
                    content: hashes + seq![' '] + trimmed(seq![' '] + body),
                    style: Style { fg: Some(Color::Accent), bold: true, italic: false },
                },
            ]
            &&& t == hashes + body && body[0] != ' ' && body[0] != '#' ==> markdown(text, base)
                == if code_and_emphasis(split(text, '`'), base).len() == 0 {
                seq![
                    SpanView {
                        content: text,
                        style: Style { fg: Some(base), bold: false, italic: false },
                    },
                ]
            } else {
                code_and_emphasis(split(text, '`'), base)
            }
            &&& t.len() > 0 && t[0] != '#' && t[0] != '`' && t[0] != '~' && code_and_emphasis(
                split(text, '`'),
                base,
            ).len() > 0 ==> markdown(text, base) == code_and_emphasis(split(text, '`'), base)
            &&& t.len() == 0 && code_and_emphasis(split(text, '`'), base).len() > 0 ==> markdown(
                text,
                base,
            ) == code_and_emphasis(split(text, '`'), base)
        }),
{
    reveal_strlit("```");
    reveal_strlit("~~~");
    reveal_strlit(" ");
    let t = drop_front(text, CharClass::White);
    let hashes = Seq::new(n, |i: int| '#');
    if t.len() >= 3 && t[0] == t[1] == t[2] {
        if t[0] == '`' {
            assert(t.subrange(0, 3) =~= "```"@);
        }
        if t[0] == '~' {
            assert(t.subrange(0, 3) =~= "~~~"@);
        }
    }
    if begins_with(t, "```"@) {
        assert(t.subrange(0, 3)[0] == t[0]);
    }
    if begins_with(t, "~~~"@) {
        assert(t.subrange(0, 3)[0] == t[0]);
    }
    if t == hashes + seq![' '] + body {
        assert(t =~= hashes + (seq![' '] + body));
        lemma_hashes(n, seq![' '] + body);
        assert(t[n as int] == ' ');
        assert(t[0] == '#');
        assert(!is_fence(t));
        assert(t.skip(n as int) =~= seq![' '] + body);
        assert(repeated('#', n) =~= hashes);
        assert(" "@ =~= seq![' ']);
        assert(markdown(text, base)[0].content =~= hashes + seq![' '] + trimmed(
            seq![' '] + body,
        ));
    }
    if t == hashes + body && body[0] != ' ' && body[0] != '#' {
        lemma_hashes(n, body);
        assert(t[n as int] == body[0]);
        assert(t[0] == '#');
        assert(!is_fence(t));
        assert(!is_header(t));
    }
}

/// The lines of a message stand one below the other, with a line break between
/// two of them.
pub proof fn law_message_block(pieces: Seq<Seq<char>>, piece: Seq<char>)
    ensures
        markdown_block(Seq::empty()).len() == 0,
        markdown_block(seq![piece]) == markdown(piece, Color::Text),
        pieces.len() > 0 ==> markdown_block(pieces.push(piece)) == markdown_block(pieces) + seq![
            SpanView {
                content: seq!['\n'],
                style: Style { fg: None, bold: false, italic: false },
            },
        ] + markdown(piece, Color::Text),
{
    reveal_strlit("\n");
    assert("\n"@ =~= seq!['\n']);
    assert(pieces.push(piece).drop_last() =~= pieces);
    if pieces.len() > 0 {
        let span = SpanView {
            content: "\n"@,
            style: Style { fg: None, bold: false, italic: false },
        };
        assert(markdown_block(pieces).push(span) =~= markdown_block(pieces) + seq![span]);
    }
}

// ---------------------------------------------------------------------------
// Laws of lines
// ---------------------------------------------------------------------------

/// A text of at most `n` characters is shown whole; of a longer one the first
/// `n` are shown and a sign that there is more.
pub proof fn law_shortened(s: Seq<char>, rest: Seq<char>)
    ensures
        shortened(s, s.len()) == s,
        shortened(s, s.len() + rest.len()) == s,
        rest.len() > 0 ==> shortened(s + rest, s.len()) == s + seq!['…'],
{
    reveal_strlit("…");
    assert("…"@ =~= seq!['…']);
    assert((s + rest).take(s.len() as int) =~= s);
}

/// Each event has its line and its colour; a ping and an activity have none.
pub proof fn law_event_lines(a: Seq<char>, b: Seq<char>)
    ensures
        event_line(FrontendEventView::AgentMessage { content: a }) == Some(
            markdown_block(lines_of(a)),
        ),
        event_line(FrontendEventView::ToolExecuting { tool_name: a, arguments: b }) == Some(
            plain_line(
                "  🔧 "@ + a + " "@ + shortened(replaced(b, '\n', ' '), 90),
                Color::Muted,
            ),
        ),
        event_line(FrontendEventView::ToolResult { tool_name: a, result: b }) == Some(
            plain_line(
                "  ✅ "@ + a + ": "@ + if b.len() > 80 {
                    replaced(b.take(80), '\n', ' ')
                } else {
                    replaced(b, '\n', ' ')
                },
                Color::Good,
            ),
        ),
        event_line(FrontendEventView::SafetyReviewRequired { tool_name: a, reason: b }) == Some(
            plain_line("  ⚠️  SAFETY: "@ + a + " — "@ + b, Color::Warn),
        ),
        event_line(FrontendEventView::ContextBranched { branch_name: a, source_branch: b })
            == Some(plain_line("  🌿 ветка "@ + b + " → "@ + a, Color::Accent)),
        event_line(FrontendEventView::ModelInfo { model_name: a }) == Some(
            plain_line("  модель: "@ + a, Color::Muted),
        ),
        event_line(FrontendEventView::Ping) is None,
        event_line(FrontendEventView::AgentActivity { text: a }) is None,
{
    if b.len() > 80 {
        assert(at_most(replaced(b, '\n', ' '), 80) =~= replaced(b.take(80), '\n', ' '));
    }
}

/// A node of a plan that starts, succeeds, fails or is rejected has its own
/// sign; whatever else is said of it has a dot.
pub proof fn law_progress(node: Seq<char>, status: Seq<char>)
    ensures
        event_line(FrontendEventView::PlanProgress { node, status: "start"@ }) == Some(
            plain_line("  "@ + "▶"@ + " "@ + node, Color::Accent),
        ),
        event_line(FrontendEventView::PlanProgress { node, status: "ok"@ }) == Some(
            plain_line("  "@ + "✓"@ + " "@ + node, Color::Good),
        ),
        event_line(FrontendEventView::PlanProgress { node, status: "fail"@ }) == Some(
            plain_line("  "@ + "✗"@ + " "@ + node, Color::Bad),
        ),
        event_line(FrontendEventView::PlanProgress { node, status: "reject"@ }) == Some(
            plain_line("  "@ + "⛔"@ + " "@ + node, Color::Bad),
        ),
        status != "start"@ && status != "ok"@ && status != "fail"@ && status != "reject"@
            ==> event_line(FrontendEventView::PlanProgress { node, status }) == Some(
            plain_line("  "@ + "•"@ + " "@ + node, Color::Muted),
        ),
{
    reveal_strlit("start");
    reveal_strlit("ok");
    reveal_strlit("fail");
    reveal_strlit("reject");
    assert("start"@.len() == 5 && "ok"@.len() == 2 && "fail"@.len() == 4 && "reject"@.len() == 6);
}

/// The lines for the progress of a plan.
pub proof fn law_plan_lines(id: String)
    ensures
        plan_line(PlanEvent::NodeStart { id }) == plain_line("  ▶ "@ + id@, Color::Accent),
        plan_line(PlanEvent::NodeDone { id, ok: true }) == plain_line("  ✓ "@ + id@, Color::Good),
        plan_line(PlanEvent::NodeDone { id, ok: false }) == plain_line("  ✗ "@ + id@, Color::Bad),
        plan_line(PlanEvent::Rejected { reason: id }) == plain_line("  ⛔ "@ + id@, Color::Bad),
        plan_line(PlanEvent::Completed) == plain_line("  🏁 план завершён"@, Color::Good),
{
}

// ---------------------------------------------------------------------------
// Laws of commands
// ---------------------------------------------------------------------------

proof fn lemma_white_from(s: Seq<char>, i: nat, k: nat)
    requires
        i <= k <= s.len(),
        forall|j: int| i <= j < k ==> !is_white(#[trigger] s[j]),
        k < s.len() ==> is_white(s[k as int]),
    ensures
        white_from(s, i) == k,
    decreases k - i,
{
    if i < k {
        assert(!is_white(s[i as int]));
        lemma_white_from(s, i + 1, k);
    }
}

/// A command ends at the first white space; its argument is the rest, trimmed.
pub proof fn law_command(cmd: Seq<char>, space: char, rest: Seq<char>)
    requires
        forall|i: int| 0 <= i < cmd.len() ==> !is_white(#[trigger] cmd[i]),
        is_white(space),
    ensures
        command_parts(cmd) == (cmd, Seq::<char>::empty()),
        command_parts(cmd.push(space) + rest) == (cmd, trimmed(rest)),
{
    lemma_white_from(cmd, 0, cmd.len());
    let s = cmd.push(space) + rest;
    assert forall|j: int| 0 <= j < cmd.len() implies !is_white(#[trigger] s[j]) by {
        assert(s[j] == cmd[j]);
    }
    assert(s[cmd.len() as int] == space);
    lemma_white_from(s, 0, cmd.len());
    assert(s.take(cmd.len() as int) =~= cmd);
    assert(s.skip(cmd.len() as int + 1) =~= rest);
}

/// What each command does: the help and the tools are listed below what is
/// there, `/clear` empties the screen and scrolls to its end, `/branch`,
/// `/plan` with a file and `/quit` are left to the caller, and an unknown
/// command is named in a line. No command changes anything else.
pub proof fn law_commands(a: AppView, text: Seq<char>, cmd: Seq<char>, arg: Seq<char>)
    requires
        command_parts(text) == (cmd, arg),
    ensures
        cmd == "/help"@ ==> a.commanded(text) == (
            AppView { lines: a.lines + help_lines(), ..a },
            ReactionView::Nothing,
        ),
        cmd == "/tools"@ ==> a.commanded(text) == (
            AppView { lines: a.lines + tool_lines(a.tools), ..a },
            ReactionView::Nothing,
        ),
        cmd == "/branch"@ ==> a.commanded(text) == (a, ReactionView::Branches(arg)),
        cmd == "/clear"@ ==> a.commanded(text) == (
            AppView { lines: Seq::empty(), scroll: 0, ..a },
            ReactionView::Nothing,
        ),
        cmd == "/plan"@ && arg.len() > 0 ==> a.commanded(text) == (a, ReactionView::Plan(arg)),
        cmd == "/plan"@ && arg.len() == 0 ==> a.commanded(text) == (
            AppView {
                lines: a.lines.push(
                    plain_line(
                        "  /plan <file.luck> — скомпилировать и исполнить план"@,
                        Color::Muted,
                    ),
                ),
                ..a
            },
            ReactionView::Nothing,
        ),
        cmd == "/quit"@ ==> a.commanded(text) == (a, ReactionView::Quit),
        cmd != "/help"@ && cmd != "/tools"@ && cmd != "/branch"@ && cmd != "/clear"@ && cmd
            != "/plan"@ && cmd != "/quit"@ ==> a.commanded(text) == (
            AppView {
                lines: a.lines.push(
                    plain_line("  ✗ неизвестная команда: "@ + cmd, Color::Bad),
                ),
                ..a
            },
            ReactionView::Nothing,
        ),
{
    reveal_strlit("/help");
    reveal_strlit("/tools");
    reveal_strlit("/branch");
    reveal_strlit("/clear");
    reveal_strlit("/plan");
    reveal_strlit("/quit");
    assert("/help"@[1] == 'h' && "/tools"@[1] == 't' && "/branch"@[1] == 'b' && "/clear"@[1] == 'c'
        && "/plan"@[1] == 'p' && "/quit"@[1] == 'q');
}

/// The help names every command, one line each.
pub proof fn law_help()
    ensures
        help_lines() == seq![
            plain_line("  Команды:"@, Color::Accent),
            plain_line("  <текст> — обычный запрос к модели (Enter отправляет)"@, Color::Text),
            plain_line("  /plan <file.luck> — скомпилировать и ИСПОЛНИТЬ план"@, Color::Text),
            plain_line("      пример: /plan examples/demo.luck"@, Color::Muted),
            plain_line("  /tools — список зарегистрированных тулов"@, Color::Text),
            plain_line("  /branch — список веток контекста"@, Color::Text),
            plain_line("  /branch <name> — переключиться на ветку"@, Color::Text),
            plain_line("  /clear — очистить экран"@, Color::Text),
            plain_line("  /quit — выход (или Ctrl+C)"@, Color::Text),
            plain_line("  ↑/↓ — история, PageUp/PageDown — скролл"@, Color::Muted),
        ],
{
}

/// Every tool has a line, in the order of the tools; without tools one line
/// says so.
pub proof fn law_tool_lines(tools: Seq<Seq<char>>, i: int)
    ensures
        tool_lines(Seq::empty()) == seq![plain_line("  (тулов нет)"@, Color::Muted)],
        tools.len() > 0 ==> tool_lines(tools).len() == tools.len(),
        0 <= i < tools.len() ==> tool_lines(tools)[i] == plain_line(
            "  • "@ + tools[i],
            Color::Text,
        ),
{
}

/// Nothing but white space is not entered. Any other text is trimmed, shown,
/// put at the end of the history and taken out of the input; a text that begins
/// with a slash is a command, any other goes to the agent, which is then at
/// work.
pub proof fn law_entering(a: AppView, text: Seq<char>, now: u64)
    requires
        text == trimmed(a.input),
    ensures
        ({
            let (b, reaction) = a.pressed(Key::Enter, now);
            let taken = AppView {
                lines: a.lines.push(plain_line("❯ "@ + text, Color::Accent)),
                input: Seq::empty(),
                history: a.history.push(text),
                hist_idx: a.history.len() as int + 1,
                ..a
            };
            &&& text.len() == 0 ==> b == a && reaction is Nothing
            &&& text.len() > 0 && text[0] == '/' ==> (b, reaction) == taken.commanded(text)
            &&& text.len() > 0 && text[0] != '/' ==> reaction == ReactionView::Prompt(text) && b
                == (AppView { running: true, status: a.model + " · работает…"@, ..taken })
        }),
{
}

/// What the keys do. A letter goes to the end of the input, backspace takes the
/// last one away, the page keys scroll by ten lines and stop at the ends, and
/// other keys do nothing. None of them sets anything off.
pub proof fn law_keys(a: AppView, c: char, ctrl: bool, now: u64)
    requires
        !ctrl || c != 'c',
    ensures
        a.pressed(Key::Char { c, ctrl }, now) == (
            AppView { input: a.input.push(c), ..a },
            ReactionView::Nothing,
        ),
        a.input.len() == 0 ==> a.pressed(Key::Backspace, now) == (a, ReactionView::Nothing),
        a.input.len() > 0 ==> a.pressed(Key::Backspace, now) == (
            AppView { input: a.input.take(a.input.len() - 1), ..a },
            ReactionView::Nothing,
        ),
        a.pressed(Key::Other, now) == (a, ReactionView::Nothing),
        a.scroll + 10 <= 65535 ==> a.pressed(Key::PageUp, now) == (
            AppView { scroll: (a.scroll + 10) as u16, ..a },
            ReactionView::Nothing,
        ),
        a.scroll + 10 > 65535 ==> a.pressed(Key::PageUp, now) == (
            AppView { scroll: 65535, ..a },
            ReactionView::Nothing,
        ),
        a.scroll >= 10 ==> a.pressed(Key::PageDown, now) == (
            AppView { scroll: (a.scroll - 10) as u16, ..a },
            ReactionView::Nothing,
        ),
        a.scroll < 10 ==> a.pressed(Key::PageDown, now) == (
            AppView { scroll: 0, ..a },
            ReactionView::Nothing,
        ),
{
    if a.input.len() > 0 {
        assert(a.input.drop_last() =~= a.input.take(a.input.len() - 1));
    }
}

/// The ends of the history: Up stays at the oldest text, Down behind the newest
/// one empties the input, and with no history the input stays as it is on Up.
pub proof fn law_ends_of_the_history(a: AppView, now: u64)
    requires
        0 <= a.hist_idx <= a.history.len(),
    ensures
        a.hist_idx == 0 && a.history.len() > 0 ==> a.pressed(Key::Up, now) == (
            AppView { input: a.history[0], ..a },
            ReactionView::Nothing,
        ),
        a.history.len() == 0 ==> a.pressed(Key::Up, now) == (a, ReactionView::Nothing),
        a.hist_idx > 0 ==> a.pressed(Key::Up, now) == (
            AppView { hist_idx: a.hist_idx - 1, input: a.history[a.hist_idx - 1], ..a },
            ReactionView::Nothing,
        ),
        a.hist_idx + 1 < a.history.len() ==> a.pressed(Key::Down, now) == (
            AppView { hist_idx: a.hist_idx + 1, input: a.history[a.hist_idx + 1], ..a },
            ReactionView::Nothing,
        ),
        a.hist_idx + 1 >= a.history.len() ==> a.pressed(Key::Down, now) == (
            AppView { hist_idx: a.history.len() as int, input: Seq::empty(), ..a },
            ReactionView::Nothing,
        ),
{
}

/// Ctrl+C leaves if the one before was less than a second and a half ago, and
/// otherwise breaks off the current request and is remembered.
pub proof fn law_second_interrupt(a: AppView, before: u64, now: u64)
    requires
        a.interrupted_at == Some(before),
    ensures
        ({
            let ctrl_c = Key::Char { c: 'c', ctrl: true };
            &&& now < before + 1500 ==> a.pressed(ctrl_c, now) == (a, ReactionView::Quit)
            &&& now >= before + 1500 ==> a.pressed(ctrl_c, now) == (
                AppView { interrupted_at: Some(now), ..a },
                ReactionView::Abort,
            )
        }),
{
}

// ---------------------------------------------------------------------------
// Laws of the agent's work on the screen
// ---------------------------------------------------------------------------

/// What is shown when the agent has finished: the answer, if there is one, below
/// its sign; the error, if there is one; and that it is done, if there is
/// neither. The agent is no longer at work.
pub proof fn law_finished(a: AppView, answer: Seq<char>, error: Seq<char>)
    ensures
        ({
            let b = a.finished(answer, error);
            let idle = AppView {
                running: false,
                status: a.model + " · ветка "@ + a.branch,
                lines: b.lines,
                ..a
            };
            let robot = plain_line("  🤖"@, Color::Accent);
            let told = markdown(answer, Color::Text);
            let failed = plain_line("  ✗ "@ + error, Color::Bad);
            &&& b == idle
            &&& answer.len() > 0 && error.len() == 0 ==> b.lines == a.lines + seq![robot, told]
            &&& answer.len() > 0 && error.len() > 0 ==> b.lines == a.lines + seq![
                robot,
                told,
                failed,
            ]
            &&& answer.len() == 0 && error.len() > 0 ==> b.lines == a.lines + seq![failed]
            &&& answer.len() == 0 && error.len() == 0 ==> b.lines == a.lines + seq![
                plain_line("  ✓ готово"@, Color::Good),
            ]
        }),
{
    let b = a.finished(answer, error);
    let robot = plain_line("  🤖"@, Color::Accent);
    let told = markdown(answer, Color::Text);
    let failed = plain_line("  ✗ "@ + error, Color::Bad);
    let done = plain_line("  ✓ готово"@, Color::Good);
    if answer.len() > 0 && error.len() == 0 {
        assert(b.lines =~= a.lines + seq![robot, told]);
    } else if answer.len() > 0 {
        assert(b.lines =~= a.lines + seq![robot, told, failed]);
    } else if error.len() > 0 {
        assert(b.lines =~= a.lines + seq![failed]);
    } else {
        assert(b.lines =~= a.lines + seq![done]);
    }
}

/// An event with a line adds it and changes nothing else; an activity is told in
/// the status, with the time it has taken; a ping changes nothing.
pub proof fn law_told(a: AppView, ev: FrontendEventView, text: Seq<char>, seconds: nat)
    ensures
        event_line(ev) matches Some(line) ==> a.told(ev, seconds) == (AppView {
            lines: a.lines.push(line),
            ..a
        }),
        a.told(FrontendEventView::AgentActivity { text }, seconds) == (AppView {
            status: "думает… "@ + decimal(seconds) + "s · "@ + text,
            ..a
        }),
        a.told(FrontendEventView::Ping, seconds) == a,
{
}

/// Every branch has a line with its name and the number of messages; the branch
/// that is shown, and no other, has a sign.
pub proof fn law_branch_lines(list: Seq<BranchView>, i: int, count: nat, shown: Seq<char>)
    requires
        0 <= i < list.len(),
    ensures
        branch_lines(list, count, shown).len() == list.len(),
        list[i].name == shown ==> branch_lines(list, count, shown)[i] == plain_line(
            "  • "@ + shown + " ("@ + decimal(count) + " сообщ.)"@ + " ◀"@,
            Color::Text,
        ),
        list[i].name != shown ==> branch_lines(list, count, shown)[i] == plain_line(
            "  • "@ + list[i].name + " ("@ + decimal(count) + " сообщ.)"@,
            Color::Text,
        ),
{
    reveal_strlit("");
    assert(""@ =~= Seq::<char>::empty());
    let front = "  • "@ + list[i].name + " ("@ + decimal(count) + " сообщ.)"@;
    assert(front + ""@ =~= front);
}

/// A switch shows the new branch, a name that no branch has is reported, and
/// without a name the command is explained.
pub proof fn law_switched(a: AppView, before: ContextView, after: ContextView, name: Seq<char>)
    ensures
        name.len() == 0 ==> a.switched(before, after, name) == (AppView {
            lines: a.lines.push(plain_line("  /branch <name> — переключиться"@, Color::Muted)),
            ..a
        }),
        name.len() > 0 && before.has_name(name) ==> a.switched(before, after, name) == (AppView {
            lines: a.lines.push(
                plain_line("  🌿 переключено на «"@ + name + "»"@, Color::Good),
            ),
            branch: after.here().name,
            status: a.model + " · ветка "@ + after.here().name,
            ..a
        }),
        name.len() > 0 && !before.has_name(name) ==> a.switched(before, after, name) == (AppView {
            lines: a.lines.push(
                plain_line("  ✗ "@ + ("branch '"@ + name + "' not found"@), Color::Bad),
            ),
            ..a
        }),
{
}

/// What is seen of the screen is what it holds.
pub proof fn law_screen_view(app: App, i: int, text: String)
    ensures
        app@.lines.len() == app.lines@.len(),
        0 <= i < app.lines@.len() ==> app@.lines[i] == app.lines@[i]@,
        app@.input == app.input@,
        app@.scroll == app.scroll,
        app@.status == app.status@,
        app@.branch == app.branch@,
        app@.running == app.running,
        app@.model == app.model@,
        app@.tools == texts(app.tools@),
        app@.history == texts(app.history@),
        app@.hist_idx == app.hist_idx,
        app@.interrupted_at == app.interrupted_at,
        (Reaction::Prompt(text))@ == ReactionView::Prompt(text@),
        (Reaction::Branches(text))@ == ReactionView::Branches(text@),
        (Reaction::Plan(text))@ == ReactionView::Plan(text@),
        Reaction::Nothing@ is Nothing,
        Reaction::Quit@ is Quit,
        Reaction::Abort@ is Abort,
        app.wf() <==> app.hist_idx <= app.history@.len(),
{
}

} // verus!
