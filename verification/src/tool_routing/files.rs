//! Finding files by a pattern, and text in files.

use vstd::prelude::*;
use crate::text::{
    chars_of, contains, contains_text, decimal, first_at, join, joined, lemma_first_at, lemma_text_le_total,
    lemma_text_le_transitive, lines, lines_of, occurs_at, ordered, show_usize, stands_at, text_le,
    text_range, texts, trim, trimmed,
};

verus! {

// ---------------------------------------------------------------------------
// Patterns of paths
// ---------------------------------------------------------------------------

/// Whether a path fits a pattern: `?` stands for one character and `*` for any
/// number of them, but for neither across a `/`; `**/` stands for any number
/// of directories, and any other `**` for any text. Every other character
/// stands for itself.
pub open spec fn globs(pattern: Seq<char>, path: Seq<char>) -> bool
    decreases pattern.len(), path.len(),
{
    let step = path.len() > 0 && path[0] != '/';
    if pattern.len() == 0 {
        path.len() == 0
    } else if any_directories(pattern) {
        let slash = first_at(path, '/');
        ||| globs(pattern.skip(3), path)
        ||| 0 <= slash < path.len() && globs(pattern, path.skip(slash + 1))
    } else if any_text(pattern) {
        globs(pattern.skip(2), path) || (path.len() > 0 && globs(pattern, path.skip(1)))
    } else if pattern[0] == '*' {
        globs(pattern.skip(1), path) || (step && globs(pattern, path.skip(1)))
    } else if pattern[0] == '?' {
        step && globs(pattern.skip(1), path.skip(1))
    } else {
        path.len() > 0 && path[0] == pattern[0] && globs(pattern.skip(1), path.skip(1))
    }
}

/// The pattern begins with `**`.
pub open spec fn any_text(pattern: Seq<char>) -> bool {
    pattern.len() >= 2 && pattern[0] == '*' && pattern[1] == '*'
}

/// The pattern begins with `**/`.
pub open spec fn any_directories(pattern: Seq<char>) -> bool {
    any_text(pattern) && pattern.len() >= 3 && pattern[2] == '/'
}

/// How much of the path follows the first `/` at or behind `j`.
spec fn behind_slash(path: Seq<char>, j: int) -> Option<int> {
    let rest = path.skip(j);
    let k = first_at(rest, '/');
    if 0 <= k < rest.len() {
        Some(rest.len() - k - 1)
    } else {
        None
    }
}

/// For every end of the path, by its length, whether it fits the pattern from
/// `i` on.
spec fn is_row(pattern: Seq<char>, i: int, path: Seq<char>, row: Seq<bool>) -> bool {
    &&& row.len() == path.len() + 1
    &&& forall|l: int|
        0 <= l <= path.len() ==> #[trigger] row[l] == globs(
            pattern.skip(i),
            path.skip(path.len() - l),
        )
}

proof fn lemma_ends(path: Seq<char>, l: int)
    requires
        0 < l <= path.len(),
    ensures
        ({
            let rest = path.skip(path.len() - l);
            &&& rest.len() == l
            &&& rest[0] == path[path.len() - l]
            &&& rest.skip(1) == path.skip(path.len() - (l - 1))
            &&& behind_slash(path, path.len() - l) == if rest[0] == '/' {
                Some(l - 1)
            } else {
                behind_slash(path, path.len() - (l - 1))
            }
        }),
{
    let rest = path.skip(path.len() - l);
    assert(rest.skip(1) =~= path.skip(path.len() - (l - 1)));
    lemma_first_at(rest, '/');
    lemma_first_at(rest.skip(1), '/');
}

proof fn lemma_behind_slash(path: Seq<char>, l: int)
    requires
        0 <= l <= path.len(),
    ensures
        behind_slash(path, path.len() - l) matches Some(x) ==> {
            let rest = path.skip(path.len() - l);
            &&& 0 <= x < l
            &&& rest.skip(first_at(rest, '/') + 1) == path.skip(path.len() - x)
        },
{
    let rest = path.skip(path.len() - l);
    if let Some(x) = behind_slash(path, path.len() - l) {
        assert(rest.skip(first_at(rest, '/') + 1) =~= path.skip(path.len() - x));
    }
}

fn glob_row(pattern: &Vec<char>, i: usize, path: &Vec<char>, rows: &Vec<Vec<bool>>) -> (r: Vec<
    bool,
>)
    requires
        i < pattern@.len(),
        rows@.len() == pattern@.len() - i,
        forall|k: int|
            0 <= k < rows@.len() ==> is_row(
                pattern@,
                pattern@.len() - k,
                path@,
                (#[trigger] rows@[k])@,
            ),
    ensures
        is_row(pattern@, i as int, path@, r@),
{
    let m: usize = path.len();
    let n: usize = pattern.len();
    let count: usize = rows.len();
    let head = pattern[i];
    let double = head == '*' && n - i >= 2 && pattern[i + 1] == '*';
    let directories = double && n - i >= 3 && pattern[i + 2] == '/';
    let ghost here = pattern@.skip(i as int);
    proof {
        assert(here.skip(1) =~= pattern@.skip(i + 1));
        assert(count >= 2 ==> here.skip(2) =~= pattern@.skip(i + 2));
        assert(count >= 3 ==> here.skip(3) =~= pattern@.skip(i + 3));
    }
    let mut row: Vec<bool> = Vec::new();
    let mut after: Option<usize> = None;
    while row.len() <= m
        invariant
            row@.len() <= m + 1,
            m == path@.len(),
            count == rows@.len(),
            count == pattern@.len() - i,
            i < pattern@.len(),
            here == pattern@.skip(i as int),
            head == here[0],
            double == any_text(here),
            directories == any_directories(here),
            here.skip(1) == pattern@.skip(i + 1),
            count >= 2 ==> here.skip(2) == pattern@.skip(i + 2),
            count >= 3 ==> here.skip(3) == pattern@.skip(i + 3),
            forall|k: int|
                0 <= k < count ==> is_row(
                    pattern@,
                    pattern@.len() - k,
                    path@,
                    (#[trigger] rows@[k])@,
                ),
            forall|x: int|
                0 <= x < row@.len() ==> #[trigger] row@[x] == globs(
                    here,
                    path@.skip(path@.len() - x),
                ),
            row@.len() == 0 ==> after is None,
            row@.len() > 0 ==> match after {
                Some(x) => behind_slash(path@, path@.len() - (row@.len() - 1)) == Some(x as int),
                None => behind_slash(path@, path@.len() - (row@.len() - 1)) is None,
            },
        decreases m + 1 - row@.len(),
    {
        let l: usize = row.len();
        let ghost rest = path@.skip(path@.len() - l);
        proof {
            if l > 0 {
                lemma_ends(path@, l as int);
            }
            lemma_behind_slash(path@, l as int);
        }
        if l > 0 && path[m - l] == '/' {
            after = Some(l - 1);
        }
        let next = &rows[count - 1];
        assert(is_row(pattern@, i + 1, path@, rows@[count - 1]@));
        let cell = if directories {
            assert(is_row(pattern@, i + 3, path@, rows@[count - 3]@));
            rows[count - 3][l] || match after {
                Some(x) => row[x],
                None => false,
            }
        } else if double {
            assert(is_row(pattern@, i + 2, path@, rows@[count - 2]@));
            rows[count - 2][l] || (l > 0 && row[l - 1])
        } else if head == '*' {
            next[l] || (l > 0 && path[m - l] != '/' && row[l - 1])
        } else if head == '?' {
            l > 0 && path[m - l] != '/' && next[l - 1]
        } else {
            l > 0 && path[m - l] == head && next[l - 1]
        };
        assert(cell == globs(here, rest));
        row.push(cell);
    }
    row
}

/// Whether a path fits a pattern.
pub fn fits(pattern: &str, path: &str) -> (r: bool)
    ensures
        r == globs(pattern@, path@),
{
    let p = chars_of(pattern);
    let s = chars_of(path);
    let n: usize = p.len();
    let m: usize = s.len();
    let mut first: Vec<bool> = Vec::new();
    while first.len() <= m
        invariant
            first@.len() <= m + 1,
            m == s@.len(),
            n == p@.len(),
            forall|x: int|
                0 <= x < first@.len() ==> #[trigger] first@[x] == globs(
                    p@.skip(n as int),
                    s@.skip(m - x),
                ),
        decreases m + 1 - first@.len(),
    {
        let empty = first.len() == 0;
        first.push(empty);
    }
    let mut rows: Vec<Vec<bool>> = Vec::new();
    rows.push(first);
    let mut i: usize = n;
    while i > 0
        invariant
            i <= n,
            n == p@.len(),
            m == s@.len(),
            rows@.len() == n - i + 1,
            forall|k: int|
                0 <= k < rows@.len() ==> is_row(p@, n - k, s@, (#[trigger] rows@[k])@),
        decreases i,
    {
        i -= 1;
        let row = glob_row(&p, i, &s, &rows);
        rows.push(row);
    }
    assert(is_row(p@, n - n, s@, rows@[n as int]@));
    assert(p@.skip(0) =~= p@);
    assert(s@.skip(0) =~= s@);
    rows[n][m]
}

/// How far the directories go at the front of a pattern that hold no wildcard.
pub open spec fn root_len(pattern: Seq<char>, i: nat, last: nat) -> nat
    decreases pattern.len() - i,
{
    if i >= pattern.len() || pattern[i as int] == '*' || pattern[i as int] == '?' {
        last
    } else if pattern[i as int] == '/' {
        root_len(pattern, i + 1, i + 1)
    } else {
        root_len(pattern, i + 1, last)
    }
}

/// The directory below which everything lies that fits a pattern, with the `/`
/// behind it; empty for the current directory.
pub open spec fn glob_root(pattern: Seq<char>) -> Seq<char> {
    pattern.take(root_len(pattern, 0, 0) as int)
}

/// The directory below which everything lies that fits a pattern.
pub fn root_of(pattern: &str) -> (r: String)
    ensures
        r@ == glob_root(pattern@),
{
    let v = chars_of(pattern);
    let mut last: usize = 0;
    let mut i: usize = 0;
    while i < v.len() && v[i] != '*' && v[i] != '?'
        invariant
            last <= i <= v@.len(),
            root_len(v@, 0, 0) == root_len(v@, i as nat, last as nat),
        decreases v@.len() - i,
    {
        if v[i] == '/' {
            last = i + 1;
        }
        i += 1;
    }
    assert(v@.subrange(0, last as int) =~= v@.take(last as int));
    text_range(&v, 0, last)
}

/// A path fits a pattern only if it lies below the root of the pattern.
pub proof fn law_root(pattern: Seq<char>, path: Seq<char>)
    requires
        globs(pattern, path),
    ensures
        glob_root(pattern).len() <= path.len(),
        path.take(glob_root(pattern).len() as int) == glob_root(pattern),
{
    assert(path.take(0) =~= pattern.take(0));
    assert(pattern.skip(0) =~= pattern);
    assert(path.skip(0) =~= path);
    lemma_root(pattern, path, 0, 0);
}

proof fn lemma_root(pattern: Seq<char>, path: Seq<char>, i: nat, last: nat)
    requires
        last <= i <= pattern.len(),
        i <= path.len(),
        path.take(i as int) == pattern.take(i as int),
        globs(pattern.skip(i as int), path.skip(i as int)),
    ensures
        last <= root_len(pattern, i, last) <= pattern.len(),
        root_len(pattern, i, last) <= path.len(),
        path.take(root_len(pattern, i, last) as int) == pattern.take(
            root_len(pattern, i, last) as int,
        ),
    decreases pattern.len() - i,
{
    if i >= pattern.len() || pattern[i as int] == '*' || pattern[i as int] == '?' {
        assert(path.take(last as int) =~= path.take(i as int).take(last as int));
        assert(pattern.take(last as int) =~= pattern.take(i as int).take(last as int));
    } else {
        let p = pattern.skip(i as int);
        let s = path.skip(i as int);
        assert(p[0] == pattern[i as int]);
        assert(s[0] == path[i as int]);
        assert(p.skip(1) =~= pattern.skip((i + 1) as int));
        assert(s.skip(1) =~= path.skip((i + 1) as int));
        assert(path.take((i + 1) as int) =~= path.take(i as int).push(path[i as int]));
        assert(pattern.take((i + 1) as int) =~= pattern.take(i as int).push(pattern[i as int]));
        if pattern[i as int] == '/' {
            lemma_root(pattern, path, i + 1, i + 1);
        } else {
            lemma_root(pattern, path, i + 1, last);
        }
    }
}

/// A pattern without wildcards fits itself and nothing else.
pub proof fn law_plain_pattern(pattern: Seq<char>, path: Seq<char>)
    requires
        forall|i: int|
            0 <= i < pattern.len() ==> (#[trigger] pattern[i]) != '*' && pattern[i] != '?',
    ensures
        globs(pattern, path) <==> pattern == path,
    decreases pattern.len(),
{
    if pattern.len() == 0 {
        assert(path.len() == 0 ==> pattern =~= path);
    } else {
        let p = pattern.skip(1);
        assert(forall|i: int| 0 <= i < p.len() ==> #[trigger] p[i] == pattern[i + 1]);
        assert(pattern[0] != '*');
        law_plain_pattern(p, path.skip(1));
        if path.len() > 0 && path[0] == pattern[0] && p == path.skip(1) {
            assert(pattern =~= seq![pattern[0]] + p);
            assert(path =~= seq![path[0]] + path.skip(1));
        }
    }
}

// ---------------------------------------------------------------------------
// The files that fit
// ---------------------------------------------------------------------------

/// The paths that fit a pattern, in the order they come.
pub open spec fn fitting(pattern: Seq<char>, paths: Seq<Seq<char>>) -> Seq<Seq<char>>
    decreases paths.len(),
{
    if paths.len() == 0 {
        Seq::empty()
    } else if globs(pattern, paths.last()) {
        fitting(pattern, paths.drop_last()).push(paths.last())
    } else {
        fitting(pattern, paths.drop_last())
    }
}

pub open spec fn in_order(list: Seq<Seq<char>>) -> bool {
    forall|i: int, j: int|
        0 <= i <= j < list.len() ==> text_le(#[trigger] list[i], #[trigger] list[j])
}

proof fn lemma_inserted(list: Seq<Seq<char>>, p: int, s: Seq<char>)
    requires
        in_order(list),
        0 <= p <= list.len(),
        forall|k: int| 0 <= k < p ==> text_le(#[trigger] list[k], s),
        p < list.len() ==> !text_le(list[p], s),
    ensures
        in_order(list.insert(p, s)),
{
    let all = list.insert(p, s);
    assert forall|i: int, j: int| 0 <= i <= j < all.len() implies text_le(
        #[trigger] all[i],
        #[trigger] all[j],
    ) by {
        lemma_text_le_total(s, s);
        let x = if i < p { i } else { i - 1 };
        let y = if j < p { j } else { j - 1 };
        if i == p && j > p {
            assert(all[j] == list[y]);
            lemma_text_le_total(list[p], s);
            lemma_text_le_transitive(s, list[p], list[y]);
        } else if i != p && j != p {
            assert(all[i] == list[x] && all[j] == list[y]);
        }
    }
}

/// The paths that fit a pattern, in lexical order.
pub fn select_files(pattern: &str, paths: &Vec<String>) -> (r: Vec<String>)
    ensures
        in_order(texts(r@)),
        texts(r@).to_multiset() == fitting(pattern@, texts(paths@)).to_multiset(),
{
    let ghost all = texts(paths@);
    let mut out: Vec<String> = Vec::new();
    let mut i: usize = 0;
    assert(all.take(0) =~= Seq::empty());
    assert(texts(out@) =~= Seq::empty());
    while i < paths.len()
        invariant
            i <= paths@.len(),
            all == texts(paths@),
            in_order(texts(out@)),
            texts(out@).to_multiset() == fitting(pattern@, all.take(i as int)).to_multiset(),
        decreases paths@.len() - i,
    {
        proof {
            let next = all.take(i + 1);
            assert(next.drop_last() =~= all.take(i as int));
            assert(next.last() == paths@[i as int]@);
        }
        if fits(pattern, paths[i].as_str()) {
            let mut p: usize = 0;
            while p < out.len() && ordered(out[p].as_str(), paths[i].as_str())
                invariant
                    p <= out@.len(),
                    i < paths@.len(),
                    forall|k: int|
                        0 <= k < p ==> text_le((#[trigger] out@[k])@, paths@[i as int]@),
                decreases out@.len() - p,
            {
                p += 1;
            }
            let ghost before = texts(out@);
            let ghost o0 = out@;
            let path = paths[i].clone();
            proof {
                assert forall|k: int| 0 <= k < p implies text_le(#[trigger] before[k], path@) by {
                    assert(before[k] == o0[k]@);
                }
                lemma_inserted(before, p as int, path@);
            }
            out.insert(p, path);
            proof {
                assert(texts(out@) =~= before.insert(p as int, path@));
                vstd::seq_lib::to_multiset_insert(before, p as int, path@);
                vstd::seq_lib::to_multiset_build(fitting(pattern@, all.take(i as int)), path@);
            }
        }
        i += 1;
    }
    assert(all.take(i as int) =~= all);
    out
}

// ---------------------------------------------------------------------------
// Text in files
// ---------------------------------------------------------------------------

/// The ends of the names of the files that are searched.
pub open spec fn searched_ends() -> Seq<Seq<char>> {
    seq![
        ".rs"@,
        ".toml"@,
        ".md"@,
        ".json"@,
        ".yaml"@,
        ".yml"@,
        ".txt"@,
        ".js"@,
        ".ts"@,
        ".py"@,
        ".html"@,
        ".css"@,
    ]
}

pub open spec fn ends_with(s: Seq<char>, end: Seq<char>) -> bool {
    occurs_at(s, end, s.len() - end.len())
}

/// Whether a file is searched for text.
pub open spec fn searched(path: Seq<char>) -> bool {
    exists|i: int|
        0 <= i < searched_ends().len() && ends_with(path, #[trigger] searched_ends()[i])
}

/// Whether a file is searched for text.
pub fn is_searched(path: &str) -> (r: bool)
    ensures
        r == searched(path@),
{
    let ends = [
        ".rs", ".toml", ".md", ".json", ".yaml", ".yml", ".txt", ".js", ".ts", ".py", ".html", ".css",
    ];
    let v = chars_of(path);
    let mut i: usize = 0;
    while i < 12
        invariant
            i <= 12,
            v@ == path@,
            ends@.len() == 12,
            forall|k: int| 0 <= k < 12 ==> (#[trigger] ends@[k])@ == searched_ends()[k],
            forall|k: int| 0 <= k < i ==> !ends_with(path@, #[trigger] searched_ends()[k]),
        decreases 12 - i,
    {
        let end = chars_of(ends[i]);
        assert(end@ == searched_ends()[i as int]);
        if end.len() <= v.len() && stands_at(&v, &end, v.len() - end.len()) {
            return true;
        }
        i += 1;
    }
    false
}

/// A file with its text.
#[derive(Debug)]
pub struct TextFile {
    pub path: String,
    pub text: String,
}

pub struct TextFileView {
    pub path: Seq<char>,
    pub text: Seq<char>,
}

impl View for TextFile {
    type V = TextFileView;

    open spec fn view(&self) -> TextFileView {
        TextFileView { path: self.path@, text: self.text@ }
    }
}

pub open spec fn file_views(v: Seq<TextFile>) -> Seq<TextFileView> {
    v.map_values(|f: TextFile| f@)
}

/// One line for every line that holds the text: the file, the number of the
/// line, and the line without blanks around it.
pub open spec fn found_in(path: Seq<char>, list: Seq<Seq<char>>, what: Seq<char>) -> Seq<Seq<char>>
    decreases list.len(),
{
    if list.len() == 0 {
        Seq::empty()
    } else {
        let before = found_in(path, list.drop_last(), what);
        if contains_text(list.last(), what) {
            before.push(path + ":"@ + decimal(list.len()) + ": "@ + trimmed(list.last()))
        } else {
            before
        }
    }
}

/// What is found in several files, one after the other; other files than those
/// that are searched do not count.
pub open spec fn found(files: Seq<TextFileView>, what: Seq<char>) -> Seq<Seq<char>>
    decreases files.len(),
{
    if files.len() == 0 {
        Seq::empty()
    } else {
        let before = found(files.drop_last(), what);
        let f = files.last();
        if searched(f.path) {
            before + found_in(f.path, lines_of(f.text), what)
        } else {
            before
        }
    }
}

fn search_lines(path: &str, text: &str, what: &str) -> (r: Vec<String>)
    ensures
        texts(r@) == found_in(path@, lines_of(text@), what@),
{
    let list = lines(text);
    let ghost all = texts(list@);
    let mut out: Vec<String> = Vec::new();
    let mut i: usize = 0;
    assert(all.take(0) =~= Seq::empty());
    assert(texts(out@) =~= Seq::empty());
    while i < list.len()
        invariant
            i <= list@.len(),
            all == texts(list@),
            texts(out@) == found_in(path@, all.take(i as int), what@),
        decreases list@.len() - i,
    {
        proof {
            let next = all.take(i + 1);
            assert(next.drop_last() =~= all.take(i as int));
            assert(next.last() == list@[i as int]@);
        }
        if contains(list[i].as_str(), what) {
            let ghost before = out@;
            let mut s = path.to_string();
            s.append(":");
            s.append(show_usize(i + 1).as_str());
            s.append(": ");
            s.append(trim(list[i].as_str()).as_str());
            let ghost line = s@;
            out.push(s);
            assert(texts(out@) =~= texts(before).push(line));
        }
        i += 1;
    }
    assert(all.take(i as int) =~= all);
    out
}

/// What is found in several files, one line each.
pub fn search_files(files: &Vec<TextFile>, what: &str) -> (r: String)
    ensures
        r@ == joined(found(file_views(files@), what@), "\n"@),
{
    let ghost all = file_views(files@);
    let mut out: Vec<String> = Vec::new();
    let mut i: usize = 0;
    assert(all.take(0) =~= Seq::empty());
    assert(texts(out@) =~= Seq::empty());
    while i < files.len()
        invariant
            i <= files@.len(),
            all == file_views(files@),
            texts(out@) == found(all.take(i as int), what@),
        decreases files@.len() - i,
    {
        proof {
            let next = all.take(i + 1);
            assert(next.drop_last() =~= all.take(i as int));
            assert(next.last() == files@[i as int]@);
        }
        if is_searched(files[i].path.as_str()) {
            let ghost before = out@;
            let mut more = search_lines(
                files[i].path.as_str(),
                files[i].text.as_str(),
                what,
            );
            let ghost added = more@;
            out.append(&mut more);
            assert(texts(out@) =~= texts(before) + texts(added));
        }
        i += 1;
    }
    assert(all.take(i as int) =~= all);
    join(&out, "\n")
}

// ---------------------------------------------------------------------------
// What a pattern means
// ---------------------------------------------------------------------------

/// No directory ends within the first `k` characters.
pub open spec fn within_directory(path: Seq<char>, k: int) -> bool {
    forall|i: int| 0 <= i < k ==> #[trigger] path[i] != '/'
}

/// The pattern fits what is left of the path behind `k` characters, and those
/// stay within one directory.
pub open spec fn fits_behind(rest: Seq<char>, path: Seq<char>, k: int) -> bool {
    0 <= k <= path.len() && within_directory(path, k) && globs(rest, path.skip(k))
}

/// A star stands for any characters but a slash, and for any number of them:
/// the pattern fits exactly if the rest of it fits behind some of them.
pub proof fn law_star(rest: Seq<char>, path: Seq<char>)
    requires
        rest.len() == 0 || rest[0] != '*',
    ensures
        globs(seq!['*'] + rest, path) <==> exists|k: int| #[trigger] fits_behind(rest, path, k),
    decreases path.len(),
{
    let p = seq!['*'] + rest;
    assert(p.skip(1) =~= rest);
    assert(p[0] == '*');
    assert(p.len() >= 2 ==> p[1] == rest[0]);
    assert(path.skip(0) =~= path);
    if globs(rest, path) {
        assert(fits_behind(rest, path, 0));
    }
    if path.len() > 0 {
        let t = path.skip(1);
        law_star(rest, t);
        if path[0] != '/' && globs(p, t) {
            let k = choose|k: int| #[trigger] fits_behind(rest, t, k);
            assert(path.skip(k + 1) =~= t.skip(k));
            assert forall|i: int| 0 <= i < k + 1 implies #[trigger] path[i] != '/' by {
                if i > 0 {
                    assert(t[i - 1] == path[i]);
                }
            }
            assert(fits_behind(rest, path, k + 1));
        }
        if exists|k: int| #[trigger] fits_behind(rest, path, k) {
            let k = choose|k: int| #[trigger] fits_behind(rest, path, k);
            if k > 0 {
                assert(path.skip(k) =~= t.skip(k - 1));
                assert forall|i: int| 0 <= i < k - 1 implies #[trigger] t[i] != '/' by {
                    assert(t[i] == path[i + 1]);
                }
                assert(fits_behind(rest, t, k - 1));
            }
        }
    } else if exists|k: int| #[trigger] fits_behind(rest, path, k) {
        let k = choose|k: int| #[trigger] fits_behind(rest, path, k);
        assert(k == 0);
    }
}

/// A question mark stands for exactly one character other than a slash, and a
/// character that is no wildcard for itself.
pub proof fn law_one_character(c: char, rest: Seq<char>, path: Seq<char>)
    requires
        c != '*',
    ensures
        globs(Seq::empty(), path) <==> path.len() == 0,
        c == '?' ==> (globs(seq![c] + rest, path) <==> path.len() > 0 && path[0] != '/' && globs(
            rest,
            path.skip(1),
        )),
        c != '?' ==> (globs(seq![c] + rest, path) <==> path.len() > 0 && path[0] == c && globs(
            rest,
            path.skip(1),
        )),
{
    let p = seq![c] + rest;
    assert(p[0] == c);
    assert(p.skip(1) =~= rest);
}

/// Two stars stand for any text at all, slashes among it.
pub proof fn law_two_stars(rest: Seq<char>, path: Seq<char>)
    requires
        rest.len() == 0 || rest[0] != '/',
    ensures
        globs(seq!['*', '*'] + rest, path) <==> exists|k: int|
            0 <= k <= path.len() && #[trigger] globs(rest, path.skip(k)),
    decreases path.len(),
{
    let p = seq!['*', '*'] + rest;
    assert(p[0] == '*' && p[1] == '*');
    assert(p.skip(2) =~= rest);
    assert(p.len() >= 3 ==> p[2] == rest[0]);
    assert(path.skip(0) =~= path);
    if globs(rest, path) {
        assert(globs(rest, path.skip(0)));
    }
    if path.len() > 0 {
        let t = path.skip(1);
        law_two_stars(rest, t);
        if globs(p, t) {
            let k = choose|k: int| 0 <= k <= t.len() && #[trigger] globs(rest, t.skip(k));
            assert(path.skip(k + 1) =~= t.skip(k));
            assert(globs(rest, path.skip(k + 1)));
        }
        if exists|k: int| 0 <= k <= path.len() && #[trigger] globs(rest, path.skip(k)) {
            let k = choose|k: int| 0 <= k <= path.len() && #[trigger] globs(rest, path.skip(k));
            if k > 0 {
                assert(path.skip(k) =~= t.skip(k - 1));
                assert(globs(rest, t.skip(k - 1)));
            }
        }
    } else if exists|k: int| 0 <= k <= path.len() && #[trigger] globs(rest, path.skip(k)) {
        let k = choose|k: int| 0 <= k <= path.len() && #[trigger] globs(rest, path.skip(k));
        assert(k == 0);
    }
}

/// The pattern fits what is left of the path behind a slash.
pub open spec fn fits_below(rest: Seq<char>, path: Seq<char>, k: int) -> bool {
    0 < k <= path.len() && path[k - 1] == '/' && globs(rest, path.skip(k))
}

/// Two stars and a slash stand for any number of directories: the rest fits
/// the whole path, or what is left of it behind some slash.
pub proof fn law_any_directories(rest: Seq<char>, path: Seq<char>)
    ensures
        globs(seq!['*', '*', '/'] + rest, path) <==> globs(rest, path) || exists|k: int| #[trigger]
            fits_below(rest, path, k),
    decreases path.len(),
{
    let p = seq!['*', '*', '/'] + rest;
    assert(p[0] == '*' && p[1] == '*' && p[2] == '/');
    assert(p.skip(3) =~= rest);
    let s = first_at(path, '/');
    lemma_first_at(path, '/');
    if s < path.len() {
        let t = path.skip(s + 1);
        law_any_directories(rest, t);
        if globs(p, t) {
            if globs(rest, t) {
                assert(fits_below(rest, path, s + 1));
            } else {
                let k = choose|k: int| #[trigger] fits_below(rest, t, k);
                assert(path.skip(s + 1 + k) =~= t.skip(k));
                assert(path[s + k] == t[k - 1]);
                assert(fits_below(rest, path, s + 1 + k));
            }
        }
        if exists|k: int| #[trigger] fits_below(rest, path, k) {
            let k = choose|k: int| #[trigger] fits_below(rest, path, k);
            assert(k - 1 >= s);
            if k == s + 1 {
                assert(globs(rest, t));
            } else {
                assert(t.skip(k - s - 1) =~= path.skip(k));
                assert(t[k - s - 2] == path[k - 1]);
                assert(fits_below(rest, t, k - s - 1));
            }
        }
    } else if exists|k: int| #[trigger] fits_below(rest, path, k) {
        let k = choose|k: int| #[trigger] fits_below(rest, path, k);
        assert(path[k - 1] != '/');
    }
}

/// No wildcard stands in the text.
pub open spec fn is_plain(s: Seq<char>) -> bool {
    forall|i: int| 0 <= i < s.len() ==> (#[trigger] s[i]) != '*' && s[i] != '?'
}

/// The path is `a`, something within a directory, and `b`.
pub open spec fn is_between(a: Seq<char>, x: Seq<char>, b: Seq<char>, path: Seq<char>) -> bool {
    !x.contains('/') && path == a + x + b
}

/// A pattern with one star between two plain texts fits exactly the paths that
/// begin with the first one, end with the second one, and have anything but a
/// slash between them.
pub proof fn law_star_between(a: Seq<char>, b: Seq<char>, path: Seq<char>)
    requires
        is_plain(a),
        is_plain(b),
    ensures
        globs(a + seq!['*'] + b, path) <==> exists|x: Seq<char>| #[trigger]
            is_between(a, x, b, path),
    decreases a.len(),
{
    let p = a + seq!['*'] + b;
    if a.len() == 0 {
        assert(p =~= seq!['*'] + b);
        law_star(b, path);
        if globs(p, path) {
            let k = choose|k: int| #[trigger] fits_behind(b, path, k);
            law_plain_pattern(b, path.skip(k));
            let x = path.take(k);
            assert(path =~= a + x + b);
            assert(!x.contains('/')) by {
                if x.contains('/') {
                    let i = x.index_of('/');
                    assert(path[i] == '/');
                }
            }
            assert(is_between(a, x, b, path));
        }
        if exists|x: Seq<char>| #[trigger] is_between(a, x, b, path) {
            let x = choose|x: Seq<char>| #[trigger] is_between(a, x, b, path);
            let k = x.len() as int;
            assert(path.skip(k) =~= b);
            law_plain_pattern(b, b);
            assert forall|i: int| 0 <= i < k implies #[trigger] path[i] != '/' by {
                assert(path[i] == x[i]);
                if x[i] == '/' {
                    assert(x.contains('/'));
                }
            }
            assert(fits_behind(b, path, k));
        }
    } else {
        let c = a[0];
        let t = a.skip(1);
        assert(c != '*' && c != '?');
        assert forall|i: int| 0 <= i < t.len() implies (#[trigger] t[i]) != '*' && t[i] != '?' by {
            assert(t[i] == a[i + 1]);
        }
        assert(p =~= seq![c] + (t + seq!['*'] + b));
        law_one_character(c, t + seq!['*'] + b, path);
        if path.len() > 0 {
            law_star_between(t, b, path.skip(1));
            if path[0] == c && globs(t + seq!['*'] + b, path.skip(1)) {
                let x = choose|x: Seq<char>| #[trigger] is_between(t, x, b, path.skip(1));
                assert(path =~= seq![c] + path.skip(1));
                assert(path =~= a + x + b);
                assert(is_between(a, x, b, path));
            }
        }
        if exists|x: Seq<char>| #[trigger] is_between(a, x, b, path) {
            let x = choose|x: Seq<char>| #[trigger] is_between(a, x, b, path);
            assert(path[0] == a[0]);
            assert(path.skip(1) =~= t + x + b);
            assert(is_between(t, x, b, path.skip(1)));
        }
    }
}

/// The root of a pattern is the longest row of directories at its front
/// without a wildcard.
pub proof fn law_root_is_longest(dir: Seq<char>, tail: Seq<char>)
    requires
        is_plain(dir),
        dir.len() == 0 || dir.last() == '/',
        forall|i: int|
            0 <= i < tail.len() && #[trigger] tail[i] == '/' ==> exists|j: int|
                0 <= j < i && (#[trigger] tail[j] == '*' || tail[j] == '?'),
    ensures
        glob_root(dir + tail) == dir,
{
    lemma_root_dir(dir, tail, 0, 0);
    assert((dir + tail).take(dir.len() as int) =~= dir);
}

proof fn lemma_root_dir(dir: Seq<char>, tail: Seq<char>, i: nat, last: nat)
    requires
        is_plain(dir),
        dir.len() == 0 || dir.last() == '/',
        forall|i: int|
            0 <= i < tail.len() && #[trigger] tail[i] == '/' ==> exists|j: int|
                0 <= j < i && (#[trigger] tail[j] == '*' || tail[j] == '?'),
        i <= dir.len() + tail.len(),
        i >= dir.len() ==> last == dir.len(),
        i >= dir.len() ==> forall|j: int|
            dir.len() <= j < i ==> #[trigger] (dir + tail)[j] != '*' && (dir + tail)[j] != '?',
    ensures
        root_len(dir + tail, i, last) == dir.len(),
    decreases dir.len() + tail.len() - i,
{
    let p = dir + tail;
    if i < p.len() {
        if i < dir.len() {
            assert(p[i as int] == dir[i as int]);
            if p[i as int] == '/' {
                lemma_root_dir(dir, tail, i + 1, i + 1);
            } else {
                lemma_root_dir(dir, tail, i + 1, last);
            }
        } else if p[i as int] != '*' && p[i as int] != '?' {
            let k = i - dir.len();
            assert(p[i as int] == tail[k]);
            if p[i as int] == '/' {
                let j = choose|j: int|
                    0 <= j < k && (#[trigger] tail[j] == '*' || tail[j] == '?');
                assert(p[dir.len() + j] == tail[j]);
            } else {
                lemma_root_dir(dir, tail, i + 1, last);
            }
        }
    }
}

/// A listing that is in order and holds the fitting paths holds exactly the
/// paths that fit, and none stands before a smaller one.
pub proof fn law_listing(pattern: Seq<char>, paths: Seq<Seq<char>>, list: Seq<Seq<char>>)
    requires
        in_order(list),
        list.to_multiset() == fitting(pattern, paths).to_multiset(),
    ensures
        forall|p: Seq<char>| #[trigger]
            list.contains(p) <==> paths.contains(p) && globs(pattern, p),
        forall|i: int, j: int|
            0 <= i < j < list.len() ==> text_le(#[trigger] list[i], #[trigger] list[j]),
{
    let fit = fitting(pattern, paths);
    assert forall|p: Seq<char>| #[trigger] list.contains(p) <==> paths.contains(p) && globs(
        pattern,
        p,
    ) by {
        lemma_fitting(pattern, paths, p);
        vstd::seq_lib::to_multiset_contains(list, p);
        vstd::seq_lib::to_multiset_contains(fit, p);
    }
}

proof fn lemma_fitting(pattern: Seq<char>, paths: Seq<Seq<char>>, p: Seq<char>)
    ensures
        fitting(pattern, paths).contains(p) <==> paths.contains(p) && globs(pattern, p),
    decreases paths.len(),
{
    if paths.len() > 0 {
        let before = paths.drop_last();
        let last = paths.last();
        lemma_fitting(pattern, before, p);
        let fit = fitting(pattern, before);
        assert(paths[paths.len() - 1] == last);
        if before.contains(p) {
            let i = before.index_of(p);
            assert(paths[i] == p);
        }
        if paths.contains(p) {
            let i = paths.index_of(p);
            if i < before.len() {
                assert(before[i] == p);
            }
        }
        if globs(pattern, last) {
            let all = fit.push(last);
            assert(all[fit.len() as int] == last);
            if fit.contains(p) {
                let i = fit.index_of(p);
                assert(all[i] == p);
            }
            if all.contains(p) {
                let i = all.index_of(p);
                if i < fit.len() {
                    assert(fit[i] == p);
                }
            }
        }
    }
}

/// A path that fits is counted as often as it comes.
pub proof fn law_fitting_counts(pattern: Seq<char>, paths: Seq<Seq<char>>, path: Seq<char>)
    ensures
        fitting(pattern, Seq::empty()) == Seq::<Seq<char>>::empty(),
        globs(pattern, path) ==> fitting(pattern, paths.push(path)) == fitting(
            pattern,
            paths,
        ).push(path),
        !globs(pattern, path) ==> fitting(pattern, paths.push(path)) == fitting(pattern, paths),
{
    assert(paths.push(path).drop_last() =~= paths);
}

// ---------------------------------------------------------------------------
// What a search finds
// ---------------------------------------------------------------------------

/// Which files are searched, by the ends of their names.
pub proof fn law_searched(path: Seq<char>)
    ensures
        searched(path) <==> {
            ||| ends_with(path, ".rs"@)
            ||| ends_with(path, ".toml"@)
            ||| ends_with(path, ".md"@)
            ||| ends_with(path, ".json"@)
            ||| ends_with(path, ".yaml"@)
            ||| ends_with(path, ".yml"@)
            ||| ends_with(path, ".txt"@)
            ||| ends_with(path, ".js"@)
            ||| ends_with(path, ".ts"@)
            ||| ends_with(path, ".py"@)
            ||| ends_with(path, ".html"@)
            ||| ends_with(path, ".css"@)
        },
{
    let e = searched_ends();
    assert(e[0] == ".rs"@ && e[1] == ".toml"@ && e[2] == ".md"@ && e[3] == ".json"@);
    assert(e[4] == ".yaml"@ && e[5] == ".yml"@ && e[6] == ".txt"@ && e[7] == ".js"@);
    assert(e[8] == ".ts"@ && e[9] == ".py"@ && e[10] == ".html"@ && e[11] == ".css"@);
}

/// A text ends with another one exactly if that is what stands behind some
/// beginning of it.
pub proof fn law_ends_with(front: Seq<char>, s: Seq<char>, end: Seq<char>)
    ensures
        ends_with(front + end, end),
        ends_with(s, end) ==> s.len() >= end.len() && s == s.take(s.len() - end.len()) + end,
{
    assert((front + end).subrange(front.len() as int, (front + end).len() as int) =~= end);
    if ends_with(s, end) {
        assert(s =~= s.take(s.len() - end.len()) + end);
    }
}

/// Every line that holds the text is found, with its number counted from one,
/// and no other line is; files that are not searched find nothing.
pub proof fn law_search(
    path: Seq<char>,
    list: Seq<Seq<char>>,
    line: Seq<char>,
    files: Seq<TextFileView>,
    file: TextFileView,
    what: Seq<char>,
)
    ensures
        found_in(path, Seq::empty(), what) == Seq::<Seq<char>>::empty(),
        contains_text(line, what) ==> found_in(path, list.push(line), what) == found_in(
            path,
            list,
            what,
        ).push(path + ":"@ + decimal(list.len() + 1) + ": "@ + trimmed(line)),
        !contains_text(line, what) ==> found_in(path, list.push(line), what) == found_in(
            path,
            list,
            what,
        ),
        found(Seq::empty(), what) == Seq::<Seq<char>>::empty(),
        searched(file.path) ==> found(files.push(file), what) == found(files, what) + found_in(
            file.path,
            lines_of(file.text),
            what,
        ),
        !searched(file.path) ==> found(files.push(file), what) == found(files, what),
{
    assert(list.push(line).drop_last() =~= list);
    assert(files.push(file).drop_last() =~= files);
}

/// What is seen of a file is its path and its text.
pub proof fn law_file_views(files: Seq<TextFile>, i: int)
    ensures
        file_views(files).len() == files.len(),
        0 <= i < files.len() ==> file_views(files)[i].path == files[i].path@,
        0 <= i < files.len() ==> file_views(files)[i].text == files[i].text@,
{
}

} // verus!
