//! Text as sequences of characters.
//!
//! Every function here is stated over `Seq<char>`, the view of `str` and
//! `String`.

use vstd::prelude::*;
use vstd::string::*;

verus! {

/// `String::push`: the character goes behind the text, nothing else changes.
pub assume_specification[ String::push ](s: &mut String, c: char)
    ensures
        final(s)@ == old(s)@.push(c),
;

// ---------------------------------------------------------------------------
// Conversions
// ---------------------------------------------------------------------------

/// A value that can become an owned text.
pub trait IntoText: Sized {
    spec fn text(&self) -> Seq<char>;

    fn into_text(self) -> (r: String)
        ensures
            r@ == self.text(),
    ;
}

impl IntoText for String {
    open spec fn text(&self) -> Seq<char> {
        self@
    }

    fn into_text(self) -> (r: String) {
        self
    }
}

impl IntoText for &String {
    open spec fn text(&self) -> Seq<char> {
        (*self)@
    }

    fn into_text(self) -> (r: String) {
        self.clone()
    }
}

impl IntoText for &str {
    open spec fn text(&self) -> Seq<char> {
        (*self)@
    }

    fn into_text(self) -> (r: String) {
        self.to_string()
    }
}

/// The view of an optional text.
pub open spec fn opt_text(o: Option<String>) -> Option<Seq<char>> {
    match o {
        Some(s) => Some(s@),
        None => None,
    }
}

/// The views of a sequence of texts.
pub open spec fn texts(v: Seq<String>) -> Seq<Seq<char>> {
    v.map_values(|s: String| s@)
}

/// The view of a result whose both sides are texts.
pub open spec fn text_result(r: Result<String, String>) -> Result<Seq<char>, Seq<char>> {
    match r {
        Ok(s) => Ok(s@),
        Err(e) => Err(e@),
    }
}

/// A copy of an optional text.
pub fn copy_opt(o: &Option<String>) -> (r: Option<String>)
    ensures
        opt_text(r) == opt_text(*o),
{
    match o {
        Some(s) => Some(s.clone()),
        None => None,
    }
}

/// A copy of a list of texts.
pub fn copy_texts(v: &Vec<String>) -> (r: Vec<String>)
    ensures
        texts(r@) == texts(v@),
{
    let mut out: Vec<String> = Vec::new();
    let mut i: usize = 0;
    while i < v.len()
        invariant
            i <= v@.len(),
            out@.len() == i,
            forall|j: int| 0 <= j < i ==> (#[trigger] out@[j])@ == v@[j]@,
        decreases v@.len() - i,
    {
        out.push(v[i].clone());
        i += 1;
    }
    assert(texts(out@) =~= texts(v@));
    out
}

/// The characters of a text.
pub fn chars_of(s: &str) -> (r: Vec<char>)
    ensures
        r@ == s@,
{
    let mut v: Vec<char> = Vec::new();
    for c in it: s.chars()
        invariant
            v@ == it.seq().take(it.index() as int),
            it.seq() == s@,
    {
        v.push(c);
    }
    v
}

/// The text made of the characters from `from` up to `to`.
pub fn text_range(v: &Vec<char>, from: usize, to: usize) -> (r: String)
    requires
        from <= to <= v@.len(),
    ensures
        r@ == v@.subrange(from as int, to as int),
{
    let mut s = String::new();
    let mut i: usize = from;
    while i < to
        invariant
            from <= i <= to <= v@.len(),
            s@ == v@.subrange(from as int, i as int),
        decreases to - i,
    {
        s.push(v[i]);
        i += 1;
    }
    s
}

/// Whether two texts hold the same characters.
pub fn same(a: &str, b: &str) -> (r: bool)
    ensures
        r == (a@ == b@),
{
    a.to_string() == b.to_string()
}

/// Whether two optional texts are equal.
pub fn same_opt(a: &Option<String>, b: &Option<String>) -> (r: bool)
    ensures
        r == (opt_text(*a) == opt_text(*b)),
{
    match (a, b) {
        (Some(x), Some(y)) => *x == *y,
        (None, None) => true,
        _ => false,
    }
}

// ---------------------------------------------------------------------------
// Searching
// ---------------------------------------------------------------------------

/// `needle` stands in `hay` at position `i`.
pub open spec fn occurs_at(hay: Seq<char>, needle: Seq<char>, i: int) -> bool {
    &&& 0 <= i
    &&& i + needle.len() <= hay.len()
    &&& hay.subrange(i, i + needle.len()) == needle
}

/// `needle` stands somewhere in `hay`.
pub open spec fn contains_text(hay: Seq<char>, needle: Seq<char>) -> bool {
    exists|i: int| occurs_at(hay, needle, i)
}

/// `hay` begins with `needle`.
pub open spec fn begins_with(hay: Seq<char>, needle: Seq<char>) -> bool {
    occurs_at(hay, needle, 0)
}

/// `i` is the first position at or behind `from` where `needle` stands.
pub open spec fn first_occurrence(hay: Seq<char>, needle: Seq<char>, from: int, i: int) -> bool {
    &&& from <= i
    &&& occurs_at(hay, needle, i)
    &&& forall|j: int| from <= j < i ==> !occurs_at(hay, needle, j)
}

/// Whether `needle` stands in `hay` at `i`.
pub fn stands_at(hay: &Vec<char>, needle: &Vec<char>, i: usize) -> (r: bool)
    ensures
        r == occurs_at(hay@, needle@, i as int),
{
    if i > hay.len() || needle.len() > hay.len() - i {
        return false;
    }
    let end: usize = hay.len();
    let mut k: usize = 0;
    while k < needle.len()
        invariant
            k <= needle@.len(),
            end == hay@.len(),
            i + needle@.len() <= end,
            forall|j: int| 0 <= j < k ==> hay@[i + j] == needle@[j],
        decreases needle@.len() - k,
    {
        if hay[i + k] != needle[k] {
            assert(hay@.subrange(i as int, i + needle@.len())[k as int] != needle@[k as int]);
            return false;
        }
        k += 1;
    }
    assert(hay@.subrange(i as int, i + needle@.len()) =~= needle@);
    true
}

/// The first position at or behind `from` where `needle` stands.
pub fn find_from(hay: &Vec<char>, needle: &Vec<char>, from: usize) -> (r: Option<usize>)
    ensures
        match r {
            Some(i) => first_occurrence(hay@, needle@, from as int, i as int),
            None => forall|j: int| from <= j ==> !occurs_at(hay@, needle@, j),
        },
{
    if from > hay.len() {
        return None;
    }
    let mut i: usize = from;
    loop
        invariant
            from <= i <= hay@.len(),
            forall|j: int| from <= j < i ==> !occurs_at(hay@, needle@, j),
        decreases hay@.len() - i,
    {
        if stands_at(hay, needle, i) {
            return Some(i);
        }
        if i == hay.len() {
            return None;
        }
        i += 1;
    }
}

/// Whether `needle` stands somewhere in `hay`.
pub fn contains(hay: &str, needle: &str) -> (r: bool)
    ensures
        r == contains_text(hay@, needle@),
{
    let h = chars_of(hay);
    let n = chars_of(needle);
    match find_from(&h, &n, 0) {
        Some(i) => {
            assert(occurs_at(hay@, needle@, i as int));
            true
        },
        None => {
            assert(forall|j: int| occurs_at(hay@, needle@, j) ==> 0 <= j);
            false
        },
    }
}

/// Whether `hay` begins with `needle`.
pub fn starts_with(hay: &str, needle: &str) -> (r: bool)
    ensures
        r == begins_with(hay@, needle@),
{
    stands_at(&chars_of(hay), &chars_of(needle), 0)
}

/// Whether a list of texts holds `item`.
pub fn list_contains(v: &Vec<String>, item: &str) -> (r: bool)
    ensures
        r == texts(v@).contains(item@),
{
    let mut i: usize = 0;
    while i < v.len()
        invariant
            i <= v@.len(),
            forall|j: int| 0 <= j < i ==> (#[trigger] v@[j])@ != item@,
        decreases v@.len() - i,
    {
        if same(v[i].as_str(), item) {
            assert(texts(v@)[i as int] == item@);
            return true;
        }
        i += 1;
    }
    assert(forall|j: int| 0 <= j < texts(v@).len() ==> #[trigger] texts(v@)[j] == v@[j]@);
    false
}

/// The position of the first `c`, or the length where there is none.
pub open spec fn first_at(s: Seq<char>, c: char) -> int
    decreases s.len(),
{
    if s.len() == 0 || s[0] == c {
        0
    } else {
        1 + first_at(s.skip(1), c)
    }
}

pub proof fn lemma_first_at(s: Seq<char>, c: char)
    ensures
        0 <= first_at(s, c) <= s.len(),
        first_at(s, c) < s.len() ==> s[first_at(s, c)] == c,
        forall|j: int| 0 <= j < first_at(s, c) ==> s[j] != c,
    decreases s.len(),
{
    if s.len() != 0 && s[0] != c {
        lemma_first_at(s.skip(1), c);
        let k = first_at(s.skip(1), c);
        assert forall|j: int| 0 <= j < k + 1 implies s[j] != c by {
            if j > 0 {
                assert(s.skip(1)[j - 1] == s[j]);
            }
        }
        if k + 1 < s.len() {
            assert(s.skip(1)[k] == s[k + 1]);
        }
    }
}

pub proof fn lemma_first_at_unique(s: Seq<char>, c: char, i: int)
    requires
        0 <= i <= s.len(),
        forall|j: int| 0 <= j < i ==> s[j] != c,
        i == s.len() || s[i] == c,
    ensures
        first_at(s, c) == i,
{
    lemma_first_at(s, c);
}

/// The position of the first `c`, or the length where there is none.
pub fn find_char(v: &Vec<char>, c: char) -> (r: usize)
    ensures
        r == first_at(v@, c),
        r <= v@.len(),
{
    let mut i: usize = 0;
    while i < v.len()
        invariant
            i <= v@.len(),
            forall|j: int| 0 <= j < i ==> v@[j] != c,
        decreases v@.len() - i,
    {
        if v[i] == c {
            proof {
                lemma_first_at_unique(v@, c, i as int);
            }
            return i;
        }
        i += 1;
    }
    proof {
        lemma_first_at_unique(v@, c, i as int);
    }
    i
}

// ---------------------------------------------------------------------------
// Trimming
// ---------------------------------------------------------------------------

/// The characters with the Unicode property White_Space.
pub open spec fn is_white(c: char) -> bool {
    let n = c as u32;
    ||| 0x9 <= n <= 0xd
    ||| n == 0x20
    ||| n == 0x85
    ||| n == 0xa0
    ||| n == 0x1680
    ||| 0x2000 <= n <= 0x200a
    ||| n == 0x2028
    ||| n == 0x2029
    ||| n == 0x202f
    ||| n == 0x205f
    ||| n == 0x3000
}

/// A set of characters that can be trimmed off a text.
#[derive(Clone, Copy)]
pub enum CharClass {
    /// White space.
    White,
    /// Square brackets and both kinds of straight quotes.
    Quote,
    /// The slash.
    Slash,
}

pub open spec fn in_class(k: CharClass, c: char) -> bool {
    match k {
        CharClass::White => is_white(c),
        CharClass::Quote => c == '[' || c == ']' || c == '"' || c == '\'',
        CharClass::Slash => c == '/',
    }
}

/// `s` without its leading characters of the class.
pub open spec fn drop_front(s: Seq<char>, k: CharClass) -> Seq<char>
    decreases s.len(),
{
    if s.len() > 0 && in_class(k, s[0]) {
        drop_front(s.skip(1), k)
    } else {
        s
    }
}

/// `s` without its trailing characters of the class.
pub open spec fn drop_back(s: Seq<char>, k: CharClass) -> Seq<char>
    decreases s.len(),
{
    if s.len() > 0 && in_class(k, s.last()) {
        drop_back(s.drop_last(), k)
    } else {
        s
    }
}

/// `s` without the characters of the class at both of its ends.
pub open spec fn strip(s: Seq<char>, k: CharClass) -> Seq<char> {
    drop_back(drop_front(s, k), k)
}

/// `s` without the white space at both of its ends.
pub open spec fn trimmed(s: Seq<char>) -> Seq<char> {
    strip(s, CharClass::White)
}

pub fn white(c: char) -> (r: bool)
    ensures
        r == is_white(c),
{
    let n: u32 = c as u32;
    (0x9 <= n && n <= 0xd) || n == 0x20 || n == 0x85 || n == 0xa0 || n == 0x1680 || (0x2000 <= n
        && n <= 0x200a) || n == 0x2028 || n == 0x2029 || n == 0x202f || n == 0x205f || n == 0x3000
}

pub fn has_class(k: CharClass, c: char) -> (r: bool)
    ensures
        r == in_class(k, c),
{
    match k {
        CharClass::White => white(c),
        CharClass::Quote => c == '[' || c == ']' || c == '"' || c == '\'',
        CharClass::Slash => c == '/',
    }
}

/// Where `drop_front` begins.
pub fn front_of(v: &Vec<char>, k: CharClass) -> (r: usize)
    ensures
        r <= v@.len(),
        v@.skip(r as int) == drop_front(v@, k),
{
    let mut i: usize = 0;
    assert(v@.skip(0) =~= v@);
    while i < v.len() && has_class(k, v[i])
        invariant
            i <= v@.len(),
            drop_front(v@.skip(i as int), k) == drop_front(v@, k),
        decreases v@.len() - i,
    {
        assert(v@.skip(i as int).skip(1) =~= v@.skip(i + 1));
        i += 1;
    }
    i
}

/// Where `drop_back` of what stands behind `from` ends.
pub fn back_of(v: &Vec<char>, from: usize, k: CharClass) -> (r: usize)
    requires
        from <= v@.len(),
    ensures
        from <= r <= v@.len(),
        v@.subrange(from as int, r as int) == drop_back(v@.skip(from as int), k),
{
    let mut i: usize = v.len();
    assert(v@.subrange(from as int, i as int) =~= v@.skip(from as int));
    while i > from && has_class(k, v[i - 1])
        invariant
            from <= i <= v@.len(),
            drop_back(v@.subrange(from as int, i as int), k) == drop_back(
                v@.skip(from as int),
                k,
            ),
        decreases i,
    {
        assert(v@.subrange(from as int, i as int).drop_last() =~= v@.subrange(
            from as int,
            i - 1,
        ));
        i -= 1;
    }
    i
}

/// `s` without the characters of the class at both of its ends.
pub fn strip_class(s: &str, k: CharClass) -> (r: String)
    ensures
        r@ == strip(s@, k),
{
    let v = chars_of(s);
    let a = front_of(&v, k);
    let b = back_of(&v, a, k);
    text_range(&v, a, b)
}

/// `s` without the white space at both of its ends.
pub fn trim(s: &str) -> (r: String)
    ensures
        r@ == trimmed(s@),
{
    strip_class(s, CharClass::White)
}

/// `s` without its leading characters of the class.
pub fn trim_front(s: &str, k: CharClass) -> (r: String)
    ensures
        r@ == drop_front(s@, k),
{
    let v = chars_of(s);
    let a = front_of(&v, k);
    assert(v@.subrange(a as int, v@.len() as int) =~= v@.skip(a as int));
    text_range(&v, a, v.len())
}

/// `s` without its trailing characters of the class.
pub fn trim_back(s: &str, k: CharClass) -> (r: String)
    ensures
        r@ == drop_back(s@, k),
{
    let v = chars_of(s);
    let b = back_of(&v, 0, k);
    assert(v@.skip(0) =~= v@);
    text_range(&v, 0, b)
}

// ---------------------------------------------------------------------------
// Splitting and joining
// ---------------------------------------------------------------------------

/// The pieces of `s` between the separators; one piece where there is none.
pub open spec fn split(s: Seq<char>, sep: char) -> Seq<Seq<char>>
    decreases s.len(),
{
    if s.len() == 0 {
        seq![Seq::<char>::empty()]
    } else {
        let before = split(s.drop_last(), sep);
        if s.last() == sep {
            before.push(Seq::<char>::empty())
        } else {
            before.drop_last().push(before.last().push(s.last()))
        }
    }
}

pub proof fn lemma_split_nonempty(s: Seq<char>, sep: char)
    ensures
        split(s, sep).len() > 0,
    decreases s.len(),
{
    if s.len() > 0 {
        lemma_split_nonempty(s.drop_last(), sep);
    }
}

/// The pieces of `s` between the separators.
pub fn split_on(s: &str, sep: char) -> (r: Vec<String>)
    ensures
        texts(r@) == split(s@, sep),
        r@.len() > 0,
{
    let v = chars_of(s);
    let mut done: Vec<String> = Vec::new();
    let mut piece = String::new();
    let mut i: usize = 0;
    assert(v@.take(0) =~= Seq::<char>::empty());
    assert(texts(done@).push(piece@) =~= split(v@.take(0), sep));
    while i < v.len()
        invariant
            i <= v@.len(),
            v@ == s@,
            texts(done@).push(piece@) == split(v@.take(i as int), sep),
        decreases v@.len() - i,
    {
        let ghost before = split(v@.take(i as int), sep);
        let ghost d0 = done@;
        let ghost p0 = piece@;
        assert(v@.take(i + 1).drop_last() =~= v@.take(i as int));
        assert(before.drop_last() =~= texts(done@));
        if v[i] == sep {
            done.push(piece);
            piece = String::new();
            assert(texts(done@) =~= texts(d0).push(p0));
        } else {
            piece.push(v[i]);
        }
        assert(texts(done@).push(piece@) =~= split(v@.take(i + 1), sep));
        i += 1;
    }
    assert(v@.take(v@.len() as int) =~= s@);
    let ghost d0 = done@;
    let ghost p0 = piece@;
    done.push(piece);
    assert(texts(done@) =~= texts(d0).push(p0));
    done
}

/// The lines of `s`: what stands between the line feeds, without the carriage
/// return before a line feed, and without an empty rest.
pub open spec fn lines_of(s: Seq<char>) -> Seq<Seq<char>> {
    let pieces = split(s, '\n');
    let ended = pieces.drop_last().map_values(|p: Seq<char>| without_return(p));
    if pieces.last().len() == 0 {
        ended
    } else {
        ended.push(pieces.last())
    }
}

pub open spec fn without_return(p: Seq<char>) -> Seq<char> {
    if p.len() > 0 && p.last() == '\r' {
        p.drop_last()
    } else {
        p
    }
}

/// The lines of `s`.
pub fn lines(s: &str) -> (r: Vec<String>)
    ensures
        texts(r@) == lines_of(s@),
{
    let pieces = split_on(s, '\n');
    let last: usize = pieces.len() - 1;
    let mut out: Vec<String> = Vec::new();
    let ghost want = split(s@, '\n').drop_last().map_values(|p: Seq<char>| without_return(p));
    let mut i: usize = 0;
    while i < last
        invariant
            i <= last,
            last == pieces@.len() - 1,
            texts(pieces@) == split(s@, '\n'),
            want == split(s@, '\n').drop_last().map_values(|p: Seq<char>| without_return(p)),
            texts(out@) =~= want.take(i as int),
        decreases last - i,
    {
        let v = chars_of(pieces[i].as_str());
        let n: usize = v.len();
        assert(texts(pieces@)[i as int] == v@);
        let ghost o0 = out@;
        if n > 0 && v[n - 1] == '\r' {
            out.push(text_range(&v, 0, n - 1));
            assert(v@.subrange(0, n - 1) =~= v@.drop_last());
        } else {
            out.push(text_range(&v, 0, n));
            assert(v@.subrange(0, n as int) =~= v@);
        }
        assert(out@.drop_last() =~= o0);
        assert(want[i as int] == without_return(v@));
        assert(texts(out@) =~= texts(o0).push(out@.last()@));
        assert(want.take(i + 1) =~= want.take(i as int).push(want[i as int]));
        i += 1;
    }
    assert(want.take(last as int) =~= want);
    assert(texts(pieces@)[last as int] == pieces@[last as int]@);
    if !pieces[last].as_str().is_empty() {
        let ghost o0 = out@;
        out.push(pieces[last].clone());
        assert(texts(out@) =~= texts(o0).push(pieces@[last as int]@));
    }
    out
}

/// The words of `s`: the non-empty runs between white space.
pub open spec fn words_of(s: Seq<char>) -> Seq<Seq<char>>
    decreases s.len(),
{
    if s.len() == 0 {
        Seq::empty()
    } else {
        let before = words_of(s.drop_last());
        if is_white(s.last()) {
            before
        } else if s.len() == 1 || is_white(s[s.len() - 2]) {
            before.push(seq![s.last()])
        } else {
            before.drop_last().push(before.last().push(s.last()))
        }
    }
}

/// The last word of `s`: a run without white space that white space or an end
/// of the text bounds on either side, with no word behind it.
pub open spec fn last_word(s: Seq<char>) -> Option<Seq<char>> {
    if words_of(s).len() == 0 {
        None
    } else {
        Some(words_of(s).last())
    }
}

pub proof fn lemma_words_last(s: Seq<char>, a: int)
    requires
        0 <= a < s.len(),
        forall|j: int| a <= j < s.len() ==> !is_white(s[j]),
        a == 0 || is_white(s[a - 1]),
    ensures
        words_of(s).len() > 0,
        words_of(s).last() == s.skip(a),
    decreases s.len(),
{
    if s.len() == a + 1 {
        assert(s.skip(a) =~= seq![s.last()]);
    } else {
        let t = s.drop_last();
        assert forall|j: int| a <= j < t.len() implies !is_white(t[j]) by {
            assert(t[j] == s[j]);
        }
        lemma_words_last(t, a);
        assert(!is_white(s[s.len() - 2]));
        assert(t.skip(a).push(s.last()) =~= s.skip(a));
    }
}

pub proof fn lemma_words_trailing(s: Seq<char>, b: int)
    requires
        0 <= b <= s.len(),
        forall|j: int| b <= j < s.len() ==> is_white(s[j]),
    ensures
        words_of(s) == words_of(s.take(b)),
    decreases s.len(),
{
    if b == s.len() {
        assert(s.take(b) =~= s);
    } else {
        lemma_words_trailing(s.drop_last(), b);
        assert(s.drop_last().take(b) =~= s.take(b));
    }
}

/// The last word of `s`.
pub fn find_last_word(s: &str) -> (r: Option<String>)
    ensures
        opt_text(r) == last_word(s@),
{
    let v = chars_of(s);
    let mut b: usize = v.len();
    while b > 0 && white(v[b - 1])
        invariant
            b <= v@.len(),
            forall|j: int| b <= j < v@.len() ==> is_white(v@[j]),
        decreases b,
    {
        b -= 1;
    }
    proof {
        lemma_words_trailing(v@, b as int);
    }
    if b == 0 {
        assert(v@.take(0) =~= Seq::<char>::empty());
        return None;
    }
    let mut a: usize = b;
    while a > 0 && !white(v[a - 1])
        invariant
            a <= b <= v@.len(),
            forall|j: int| a <= j < b ==> !is_white(v@[j]),
        decreases a,
    {
        a -= 1;
    }
    proof {
        let t = v@.take(b as int);
        assert forall|j: int| a <= j < t.len() implies !is_white(t[j]) by {
            assert(t[j] == v@[j]);
        }
        lemma_words_last(t, a as int);
        assert(t.skip(a as int) =~= v@.subrange(a as int, b as int));
    }
    Some(text_range(&v, a, b))
}

/// The parts one behind the other with `sep` between them.
pub open spec fn joined(parts: Seq<Seq<char>>, sep: Seq<char>) -> Seq<char>
    decreases parts.len(),
{
    if parts.len() == 0 {
        Seq::empty()
    } else if parts.len() == 1 {
        parts[0]
    } else {
        joined(parts.drop_last(), sep) + sep + parts.last()
    }
}

/// The parts one behind the other with `sep` between them.
pub fn join(parts: &Vec<String>, sep: &str) -> (r: String)
    ensures
        r@ == joined(texts(parts@), sep@),
{
    let mut out = String::new();
    let mut i: usize = 0;
    assert(texts(parts@).take(0) =~= Seq::<Seq<char>>::empty());
    while i < parts.len()
        invariant
            i <= parts@.len(),
            out@ == joined(texts(parts@).take(i as int), sep@),
        decreases parts@.len() - i,
    {
        let ghost all = texts(parts@);
        assert(all.take(i + 1).drop_last() =~= all.take(i as int));
        if i > 0 {
            out.append(sep);
        } else {
            assert(Seq::<char>::empty() + all[0] =~= all[0]);
        }
        out.append(parts[i].as_str());
        i += 1;
    }
    assert(texts(parts@).take(parts@.len() as int) =~= texts(parts@));
    out
}

// ---------------------------------------------------------------------------
// Pieces and replacements
// ---------------------------------------------------------------------------

/// The first `n` characters, or all of them where there are fewer.
pub open spec fn at_most(s: Seq<char>, n: nat) -> Seq<char> {
    if s.len() <= n {
        s
    } else {
        s.take(n as int)
    }
}

/// The first `n` characters of `s`.
pub fn take_chars(s: &str, n: usize) -> (r: String)
    ensures
        r@ == at_most(s@, n as nat),
{
    let v = chars_of(s);
    if v.len() <= n {
        s.to_string()
    } else {
        assert(v@.subrange(0, n as int) =~= v@.take(n as int));
        text_range(&v, 0, n)
    }
}

/// `s` with every `from` turned into `to`.
pub open spec fn replaced(s: Seq<char>, from: char, to: char) -> Seq<char> {
    s.map_values(|c: char| if c == from { to } else { c })
}

/// `s` with every `from` turned into `to`.
pub fn replace_char(s: &str, from: char, to: char) -> (r: String)
    ensures
        r@ == replaced(s@, from, to),
{
    let v = chars_of(s);
    let mut out = String::new();
    let mut i: usize = 0;
    while i < v.len()
        invariant
            i <= v@.len(),
            v@ == s@,
            out@ =~= replaced(s@, from, to).take(i as int),
        decreases v@.len() - i,
    {
        let c = if v[i] == from { to } else { v[i] };
        out.push(c);
        i += 1;
    }
    out
}

/// `c` written `n` times.
pub open spec fn repeated(c: char, n: nat) -> Seq<char> {
    Seq::new(n, |i: int| c)
}

/// `c` written `n` times.
pub fn repeat_char(c: char, n: usize) -> (r: String)
    ensures
        r@ == repeated(c, n as nat),
{
    let mut out = String::new();
    let mut i: usize = 0;
    while i < n
        invariant
            i <= n,
            out@ =~= repeated(c, i as nat),
        decreases n - i,
    {
        out.push(c);
        i += 1;
    }
    out
}

/// What stands before the first `sep`, and what stands behind it where there
/// is one.
pub open spec fn cut_once(s: Seq<char>, sep: char) -> (Seq<char>, Option<Seq<char>>) {
    let i = first_at(s, sep);
    if i < s.len() {
        (s.take(i), Some(s.skip(i + 1)))
    } else {
        (s, None)
    }
}

/// What stands before the first `sep`, and what stands behind it.
pub fn cut(s: &str, sep: char) -> (r: (String, Option<String>))
    ensures
        r.0@ == cut_once(s@, sep).0,
        opt_text(r.1) == cut_once(s@, sep).1,
{
    let v = chars_of(s);
    let i = find_char(&v, sep);
    if i < v.len() {
        assert(v@.subrange(0, i as int) =~= v@.take(i as int));
        assert(v@.subrange(i + 1, v@.len() as int) =~= v@.skip(i + 1));
        (text_range(&v, 0, i), Some(text_range(&v, i + 1, v.len())))
    } else {
        (s.to_string(), None)
    }
}

// ---------------------------------------------------------------------------
// UTF-8 lengths
// ---------------------------------------------------------------------------

/// The number of bytes of a character in UTF-8.
pub open spec fn utf8_width(c: char) -> nat {
    let n = c as u32;
    if n < 0x80 {
        1
    } else if n < 0x800 {
        2
    } else if n < 0x10000 {
        3
    } else {
        4
    }
}

/// The number of bytes of a text in UTF-8.
pub open spec fn byte_len(s: Seq<char>) -> nat
    decreases s.len(),
{
    if s.len() == 0 {
        0
    } else {
        byte_len(s.drop_last()) + utf8_width(s.last())
    }
}

/// The first `k` characters of `s` take exactly `n` bytes.
pub open spec fn ends_at_byte(s: Seq<char>, n: nat, k: int) -> bool {
    0 <= k <= s.len() && byte_len(s.take(k)) == n
}

/// Byte `n` of `s` stands between two characters, or behind the last one.
pub open spec fn is_boundary(s: Seq<char>, n: nat) -> bool {
    exists|k: int| ends_at_byte(s, n, k)
}

/// `s` can be cut behind its first `n` bytes: it is no longer, or byte `n`
/// stands between two characters.
pub open spec fn can_cut(s: Seq<char>, n: nat) -> bool {
    byte_len(s) <= n || is_boundary(s, n)
}

/// `s` cut behind its first `n` bytes; all of it where it is no longer.
pub open spec fn byte_prefix(s: Seq<char>, n: nat) -> Seq<char> {
    if byte_len(s) <= n {
        s
    } else {
        s.take(choose|k: int| ends_at_byte(s, n, k))
    }
}

pub proof fn lemma_byte_len_monotone(s: Seq<char>, i: int, j: int)
    requires
        0 <= i <= j <= s.len(),
    ensures
        byte_len(s.take(i)) + (j - i) <= byte_len(s.take(j)),
    decreases j - i,
{
    if i < j {
        lemma_byte_len_monotone(s, i, j - 1);
        assert(s.take(j).drop_last() =~= s.take(j - 1));
    }
}

/// At most one prefix takes a given number of bytes.
pub proof fn lemma_boundary_unique(s: Seq<char>, n: nat, i: int, j: int)
    requires
        ends_at_byte(s, n, i),
        ends_at_byte(s, n, j),
    ensures
        i == j,
{
    if i < j {
        lemma_byte_len_monotone(s, i, j);
    } else if j < i {
        lemma_byte_len_monotone(s, j, i);
    }
}

pub fn width_of(c: char) -> (r: usize)
    ensures
        r == utf8_width(c),
        1 <= r <= 4,
{
    let n: u32 = c as u32;
    if n < 0x80 {
        1
    } else if n < 0x800 {
        2
    } else if n < 0x10000 {
        3
    } else {
        4
    }
}

/// Where a cut behind the first `n` bytes leads.
pub enum ByteCut {
    /// The text is no longer than that.
    Whole,
    /// This many characters stand before the cut.
    At(usize),
    /// The cut would split a character.
    Split,
}

/// Finds the cut behind the first `n` bytes.
pub fn find_cut(v: &Vec<char>, n: usize) -> (r: ByteCut)
    requires
        n < usize::MAX - 4,
    ensures
        r is Whole <==> byte_len(v@) <= n,
        r is Split <==> !can_cut(v@, n as nat),
        r matches ByteCut::At(k) ==> ends_at_byte(v@, n as nat, k as int) && byte_len(v@) > n,
{
    let mut bytes: usize = 0;
    let mut i: usize = 0;
    assert(v@.take(0) =~= Seq::<char>::empty());
    while i < v.len()
        invariant
            i <= v@.len(),
            bytes <= n,
            n < usize::MAX - 4,
            bytes == byte_len(v@.take(i as int)),
        decreases v@.len() - i,
    {
        assert(v@.take(i + 1).drop_last() =~= v@.take(i as int));
        assert(v@.take(v@.len() as int) =~= v@);
        let w = width_of(v[i]);
        if bytes == n {
            proof {
                lemma_byte_len_monotone(v@, i as int, v@.len() as int);
                assert(ends_at_byte(v@, n as nat, i as int));
            }
            return ByteCut::At(i);
        }
        if bytes + w > n {
            proof {
                lemma_byte_len_monotone(v@, i + 1, v@.len() as int);
                assert forall|k: int| !ends_at_byte(v@, n as nat, k) by {
                    if 0 <= k <= v@.len() {
                        if k <= i {
                            lemma_byte_len_monotone(v@, k, i as int);
                        } else {
                            lemma_byte_len_monotone(v@, i + 1, k);
                        }
                    }
                }
            }
            return ByteCut::Split;
        }
        bytes += w;
        i += 1;
    }
    assert(v@.take(v@.len() as int) =~= v@);
    ByteCut::Whole
}

/// `s` cut behind its first `n` bytes.
pub fn cut_bytes(s: &str, n: usize) -> (r: String)
    requires
        n < usize::MAX - 4,
        can_cut(s@, n as nat),
    ensures
        r@ == byte_prefix(s@, n as nat),
{
    let v = chars_of(s);
    match find_cut(&v, n) {
        ByteCut::Whole => s.to_string(),
        ByteCut::At(k) => {
            proof {
                let c = choose|c: int| ends_at_byte(s@, n as nat, c);
                lemma_boundary_unique(s@, n as nat, k as int, c);
            }
            assert(v@.subrange(0, k as int) =~= v@.take(k as int));
            text_range(&v, 0, k)
        },
        ByteCut::Split => s.to_string(),
    }
}

/// The longest beginning of `s` that takes at most `n` bytes.
pub open spec fn within_bytes(s: Seq<char>, n: nat) -> Seq<char>
    decreases s.len(),
{
    if byte_len(s) <= n {
        s
    } else {
        within_bytes(s.drop_last(), n)
    }
}

proof fn lemma_within_bytes(s: Seq<char>, n: nat, k: int)
    requires
        0 <= k < s.len(),
        byte_len(s.take(k)) <= n,
        byte_len(s.take(k + 1)) > n,
    ensures
        within_bytes(s, n) == s.take(k),
    decreases s.len(),
{
    lemma_byte_len_monotone(s, k + 1, s.len() as int);
    assert(s.take(s.len() as int) =~= s);
    let t = s.drop_last();
    if k < t.len() {
        assert(t.take(k) =~= s.take(k));
        assert(t.take(k + 1) =~= s.take(k + 1));
        lemma_within_bytes(t, n, k);
    } else {
        assert(t =~= s.take(k));
        assert(within_bytes(t, n) == t);
    }
}

/// The longest beginning of `s` that takes at most `n` bytes.
pub fn take_bytes(s: &str, n: usize) -> (r: String)
    ensures
        r@ == within_bytes(s@, n as nat),
{
    let v = chars_of(s);
    let mut bytes: usize = 0;
    let mut i: usize = 0;
    assert(v@.take(0) =~= Seq::<char>::empty());
    while i < v.len()
        invariant
            i <= v@.len(),
            v@ == s@,
            bytes <= n,
            bytes == byte_len(v@.take(i as int)),
        decreases v@.len() - i,
    {
        assert(v@.take(i + 1).drop_last() =~= v@.take(i as int));
        let w: usize = width_of(v[i]);
        if w > n - bytes {
            proof {
                lemma_within_bytes(v@, n as nat, i as int);
                assert(v@.subrange(0, i as int) =~= v@.take(i as int));
            }
            return text_range(&v, 0, i);
        }
        bytes += w;
        i += 1;
    }
    assert(v@.take(v@.len() as int) =~= v@);
    s.to_string()
}

/// Whether `s` takes more than `n` bytes.
pub fn longer_than(s: &str, n: usize) -> (r: bool)
    requires
        n < usize::MAX - 4,
    ensures
        r == (byte_len(s@) > n),
{
    match find_cut(&chars_of(s), n) {
        ByteCut::Whole => false,
        _ => true,
    }
}

// ---------------------------------------------------------------------------
// Lexical order
// ---------------------------------------------------------------------------

/// `a` stands before `b` in the lexical order, or they are equal. The order
/// of the code points is that of the bytes in UTF-8.
pub open spec fn text_le(a: Seq<char>, b: Seq<char>) -> bool
    decreases a.len(),
{
    if a.len() == 0 {
        true
    } else if b.len() == 0 {
        false
    } else if a[0] != b[0] {
        a[0] < b[0]
    } else {
        text_le(a.skip(1), b.skip(1))
    }
}

pub proof fn lemma_text_le_total(a: Seq<char>, b: Seq<char>)
    ensures
        text_le(a, b) || text_le(b, a),
    decreases a.len(),
{
    if a.len() > 0 && b.len() > 0 && a[0] == b[0] {
        lemma_text_le_total(a.skip(1), b.skip(1));
    }
}

pub proof fn lemma_text_le_transitive(a: Seq<char>, b: Seq<char>, c: Seq<char>)
    requires
        text_le(a, b),
        text_le(b, c),
    ensures
        text_le(a, c),
    decreases a.len(),
{
    if a.len() > 0 && b.len() > 0 && c.len() > 0 && a[0] == b[0] && b[0] == c[0] {
        lemma_text_le_transitive(a.skip(1), b.skip(1), c.skip(1));
    }
}

/// Whether `a` stands before `b` in the lexical order, or equals it.
pub fn ordered(a: &str, b: &str) -> (r: bool)
    ensures
        r == text_le(a@, b@),
{
    let x = chars_of(a);
    let y = chars_of(b);
    let mut i: usize = 0;
    assert(x@.skip(0) =~= x@);
    assert(y@.skip(0) =~= y@);
    while i < x.len() && i < y.len()
        invariant
            i <= x@.len(),
            i <= y@.len(),
            x@ == a@,
            y@ == b@,
            text_le(a@, b@) == text_le(x@.skip(i as int), y@.skip(i as int)),
        decreases x@.len() - i,
    {
        if x[i] != y[i] {
            return x[i] < y[i];
        }
        assert(x@.skip(i as int).skip(1) =~= x@.skip(i + 1));
        assert(y@.skip(i as int).skip(1) =~= y@.skip(i + 1));
        i += 1;
    }
    i == x.len()
}

// ---------------------------------------------------------------------------
// Numbers
// ---------------------------------------------------------------------------

/// The character of a decimal digit.
pub open spec fn digit_char(d: nat) -> char {
    if d == 0 {
        '0'
    } else if d == 1 {
        '1'
    } else if d == 2 {
        '2'
    } else if d == 3 {
        '3'
    } else if d == 4 {
        '4'
    } else if d == 5 {
        '5'
    } else if d == 6 {
        '6'
    } else if d == 7 {
        '7'
    } else if d == 8 {
        '8'
    } else {
        '9'
    }
}

/// A number in decimal, without leading zeros.
pub open spec fn decimal(n: nat) -> Seq<char>
    decreases n,
{
    if n < 10 {
        seq![digit_char(n)]
    } else {
        decimal(n / 10).push(digit_char(n % 10))
    }
}

pub proof fn lemma_digit_char_injective(a: nat, b: nat)
    requires
        a < 10,
        b < 10,
        digit_char(a) == digit_char(b),
    ensures
        a == b,
{
}

/// Different numbers are written differently.
pub proof fn lemma_decimal_injective(a: nat, b: nat)
    requires
        decimal(a) == decimal(b),
    ensures
        a == b,
    decreases a,
{
    lemma_decimal_nonempty(a / 10);
    lemma_decimal_nonempty(b / 10);
    if a < 10 && b < 10 {
        assert(decimal(a)[0] == digit_char(a));
        assert(decimal(b)[0] == digit_char(b));
        lemma_digit_char_injective(a, b);
    } else if a < 10 {
        assert(decimal(b).len() > 1);
    } else if b < 10 {
        assert(decimal(a).len() > 1);
    } else {
        let x = decimal(a / 10);
        let y = decimal(b / 10);
        assert(decimal(a).last() == digit_char(a % 10));
        assert(decimal(b).last() == digit_char(b % 10));
        lemma_digit_char_injective(a % 10, b % 10);
        assert(x =~= decimal(a).drop_last());
        assert(y =~= decimal(b).drop_last());
        lemma_decimal_injective(a / 10, b / 10);
    }
}

pub proof fn lemma_decimal_nonempty(n: nat)
    ensures
        decimal(n).len() > 0,
    decreases n,
{
    if n >= 10 {
        lemma_decimal_nonempty(n / 10);
    }
}

pub fn digit_of(d: u128) -> (r: char)
    requires
        d < 10,
    ensures
        r == digit_char(d as nat),
{
    if d == 0 {
        '0'
    } else if d == 1 {
        '1'
    } else if d == 2 {
        '2'
    } else if d == 3 {
        '3'
    } else if d == 4 {
        '4'
    } else if d == 5 {
        '5'
    } else if d == 6 {
        '6'
    } else if d == 7 {
        '7'
    } else if d == 8 {
        '8'
    } else {
        '9'
    }
}

/// `n` in decimal.
pub fn show(n: u128) -> (r: String)
    ensures
        r@ == decimal(n as nat),
    decreases n,
{
    let mut s = if n < 10 {
        String::new()
    } else {
        show(n / 10)
    };
    s.push(digit_of(n % 10));
    s
}

/// `n` in decimal.
pub fn show_usize(n: usize) -> (r: String)
    ensures
        r@ == decimal(n as nat),
{
    show(n as u128)
}

/// An integer in decimal, with a minus sign where it is negative.
pub open spec fn signed_decimal(n: int) -> Seq<char> {
    if n < 0 {
        "-"@ + decimal((-n) as nat)
    } else {
        decimal(n as nat)
    }
}

/// `n` in decimal.
pub fn show_i64(n: i64) -> (r: String)
    ensures
        r@ == signed_decimal(n as int),
{
    if n < 0 {
        let m: i128 = -(n as i128);
        let d = show(m as u128);
        let mut s = "-".to_string();
        s.append(d.as_str());
        s
    } else {
        show(n as u128)
    }
}

/// The value of a decimal digit.
pub open spec fn digit_value(c: char) -> Option<nat> {
    if '0' <= c <= '9' {
        Some((c as u32 - 48) as nat)
    } else {
        None
    }
}

/// The number that a text of digits writes.
pub open spec fn digits_value(s: Seq<char>) -> Option<nat>
    decreases s.len(),
{
    if s.len() == 0 {
        Some(0)
    } else {
        match (digits_value(s.drop_last()), digit_value(s.last())) {
            (Some(v), Some(d)) => Some(v * 10 + d),
            _ => None,
        }
    }
}

/// The number that a non-empty text of digits writes, where it is at most
/// `max`.
pub open spec fn plain_number(s: Seq<char>, max: nat) -> Option<nat> {
    match digits_value(s) {
        Some(v) if s.len() > 0 && v <= max => Some(v),
        _ => None,
    }
}

/// The number that `s` writes: digits behind an optional plus sign, at most
/// `max`.
pub open spec fn unsigned_number(s: Seq<char>, max: nat) -> Option<nat> {
    if s.len() > 0 && s[0] == '+' {
        plain_number(s.skip(1), max)
    } else {
        plain_number(s, max)
    }
}

/// The integer of 32 bits that `s` writes: digits behind an optional sign.
pub open spec fn signed_number(s: Seq<char>) -> Option<int> {
    if s.len() > 0 && s[0] == '-' {
        match plain_number(s.skip(1), 0x8000_0000) {
            Some(v) => Some(-(v as int)),
            None => None,
        }
    } else {
        match unsigned_number(s, 0x7fff_ffff) {
            Some(v) => Some(v as int),
            None => None,
        }
    }
}

pub proof fn lemma_digits_prefix(s: Seq<char>, i: int)
    requires
        0 <= i <= s.len(),
    ensures
        digits_value(s.take(i)) is None ==> digits_value(s) is None,
        digits_value(s) is Some ==> digits_value(s.take(i)) is Some && digits_value(s.take(i))->0
            <= digits_value(s)->0,
    decreases s.len() - i,
{
    if i < s.len() {
        lemma_digits_prefix(s, i + 1);
        assert(s.take(i + 1).drop_last() =~= s.take(i));
    } else {
        assert(s.take(i) =~= s);
    }
}

/// The number that the characters behind `from` write, where it is at most
/// `max`.
pub fn read_digits(v: &Vec<char>, from: usize, max: u64) -> (r: Option<u64>)
    requires
        from <= v@.len(),
    ensures
        match r {
            Some(n) => plain_number(v@.skip(from as int), max as nat) == Some(n as nat),
            None => plain_number(v@.skip(from as int), max as nat) is None,
        },
{
    let ghost t = v@.skip(from as int);
    if from == v.len() {
        return None;
    }
    let mut n: u64 = 0;
    let mut i: usize = from;
    assert(t.take(0) =~= Seq::<char>::empty());
    while i < v.len()
        invariant
            from <= i <= v@.len(),
            t == v@.skip(from as int),
            n <= max,
            digits_value(t.take(i - from)) == Some(n as nat),
        decreases v@.len() - i,
    {
        assert(t.take(i + 1 - from).drop_last() =~= t.take(i - from));
        assert(t.take(i + 1 - from).last() == v@[i as int]);
        let c = v[i];
        if c < '0' || c > '9' {
            proof {
                lemma_digits_prefix(t, i + 1 - from);
            }
            return None;
        }
        let d: u128 = (c as u32 - 48) as u128;
        let m: u128 = n as u128 * 10 + d;
        if m > max as u128 {
            proof {
                lemma_digits_prefix(t, i + 1 - from);
            }
            return None;
        }
        n = m as u64;
        i += 1;
    }
    assert(t.take(i - from) =~= t);
    Some(n)
}

/// The number that `s` writes, at most `max`.
pub fn read_number(s: &str, max: u64) -> (r: Option<u64>)
    ensures
        match r {
            Some(n) => unsigned_number(s@, max as nat) == Some(n as nat),
            None => unsigned_number(s@, max as nat) is None,
        },
{
    let v = chars_of(s);
    if v.len() > 0 && v[0] == '+' {
        read_digits(&v, 1, max)
    } else {
        assert(v@.skip(0) =~= v@);
        read_digits(&v, 0, max)
    }
}

/// The integer of 32 bits that `s` writes.
pub fn read_i32(s: &str) -> (r: Option<i32>)
    ensures
        match r {
            Some(n) => signed_number(s@) == Some(n as int),
            None => signed_number(s@) is None,
        },
{
    let v = chars_of(s);
    if v.len() > 0 && v[0] == '-' {
        match read_digits(&v, 1, 0x8000_0000) {
            Some(n) => Some((-(n as i64)) as i32),
            None => None,
        }
    } else {
        match read_number(s, 0x7fff_ffff) {
            Some(n) => Some(n as i32),
            None => None,
        }
    }
}

// ---------------------------------------------------------------------------
// Laws
// ---------------------------------------------------------------------------

/// A text holds another one exactly if it is that one with something before
/// and behind it, and begins with it exactly if nothing stands before it.
pub proof fn law_contains(hay: Seq<char>, needle: Seq<char>)
    ensures
        contains_text(hay, needle) <==> (exists|a: Seq<char>, b: Seq<char>|
            hay == #[trigger] (a + needle + b)),
        begins_with(hay, needle) <==> (exists|b: Seq<char>| hay == #[trigger] (needle + b)),
{
    if contains_text(hay, needle) {
        let i = choose|i: int| occurs_at(hay, needle, i);
        assert(hay =~= hay.take(i) + needle + hay.skip(i + needle.len()));
    }
    if exists|a: Seq<char>, b: Seq<char>| hay == #[trigger] (a + needle + b) {
        let (a, b) = choose|a: Seq<char>, b: Seq<char>| hay == #[trigger] (a + needle + b);
        assert(hay.subrange(a.len() as int, (a.len() + needle.len()) as int) =~= needle);
        assert(occurs_at(hay, needle, a.len() as int));
    }
    if begins_with(hay, needle) {
        assert(hay =~= needle + hay.skip(needle.len() as int));
    }
    if exists|b: Seq<char>| hay == #[trigger] (needle + b) {
        let b = choose|b: Seq<char>| hay == #[trigger] (needle + b);
        assert(hay.subrange(0, needle.len() as int) =~= needle);
    }
}

/// What is trimmed: white space in the sense of Unicode, brackets and quotes,
/// or slashes.
pub proof fn law_classes(c: char)
    ensures
        in_class(CharClass::Slash, c) <==> c == '/',
        in_class(CharClass::Quote, c) <==> c == '[' || c == ']' || c == '"' || c == '\'',
        in_class(CharClass::White, c) <==> {
            let n = c as u32;
            ||| n == 9 || n == 10 || n == 11 || n == 12 || n == 13
            ||| n == 32
            ||| n == 133
            ||| n == 160
            ||| n == 5760
            ||| 8192 <= n <= 8202
            ||| n == 8232
            ||| n == 8233
            ||| n == 8239
            ||| n == 8287
            ||| n == 12288
        },
        is_white(c) <==> in_class(CharClass::White, c),
{
}

/// All characters are of the class.
pub open spec fn all_in(k: CharClass, s: Seq<char>) -> bool {
    forall|i: int| 0 <= i < s.len() ==> in_class(k, #[trigger] s[i])
}

/// Trimming takes away characters of the class at the ends and stops at the
/// first one that is not: the text is `front + rest + back` with nothing but
/// the class in front and back, and the rest neither begins nor ends with it.
pub proof fn law_trim(s: Seq<char>, k: CharClass, front: Seq<char>, rest: Seq<char>, back: Seq<char>)
    requires
        s == front + rest + back,
        all_in(k, front),
        all_in(k, back),
        rest.len() > 0 ==> !in_class(k, rest[0]) && !in_class(k, rest.last()),
    ensures
        strip(s, k) == rest,
        k is White ==> trimmed(s) == rest,
        front.len() == 0 ==> drop_back(s, k) == rest,
        back.len() == 0 ==> drop_front(s, k) == rest,
{
    if rest.len() == 0 {
        assert(all_in(k, s)) by {
            assert forall|i: int| 0 <= i < s.len() implies in_class(k, #[trigger] s[i]) by {
                if i < front.len() {
                    assert(s[i] == front[i]);
                } else {
                    assert(s[i] == back[i - front.len()]);
                }
            }
        }
        lemma_drop_all(s, k);
        lemma_drop_all_back(s, k);
        assert(rest =~= Seq::empty());
    } else {
        assert(s =~= front + (rest + back));
        assert((rest + back)[0] == rest[0]);
        lemma_drop_front(front, rest + back, k);
        lemma_drop_back(rest, back, k);
        if front.len() == 0 {
            assert(s =~= rest + back);
        }
        if back.len() == 0 {
            assert(rest + back =~= rest);
        }
    }
}

proof fn lemma_drop_front(front: Seq<char>, rest: Seq<char>, k: CharClass)
    requires
        all_in(k, front),
        rest.len() > 0,
        !in_class(k, rest[0]),
    ensures
        drop_front(front + rest, k) == rest,
    decreases front.len(),
{
    let s = front + rest;
    if front.len() == 0 {
        assert(s =~= rest);
    } else {
        assert(s[0] == front[0]);
        assert(s.skip(1) =~= front.skip(1) + rest);
        assert forall|i: int| 0 <= i < front.skip(1).len() implies in_class(
            k,
            #[trigger] front.skip(1)[i],
        ) by {
            assert(front.skip(1)[i] == front[i + 1]);
        }
        lemma_drop_front(front.skip(1), rest, k);
    }
}

proof fn lemma_drop_back(rest: Seq<char>, back: Seq<char>, k: CharClass)
    requires
        all_in(k, back),
        rest.len() > 0,
        !in_class(k, rest.last()),
    ensures
        drop_back(rest + back, k) == rest,
    decreases back.len(),
{
    let s = rest + back;
    if back.len() == 0 {
        assert(s =~= rest);
    } else {
        assert(s.last() == back[back.len() - 1]);
        assert(s.drop_last() =~= rest + back.drop_last());
        assert forall|i: int| 0 <= i < back.drop_last().len() implies in_class(
            k,
            #[trigger] back.drop_last()[i],
        ) by {
            assert(back.drop_last()[i] == back[i]);
        }
        lemma_drop_back(rest, back.drop_last(), k);
    }
}

proof fn lemma_drop_all(s: Seq<char>, k: CharClass)
    requires
        all_in(k, s),
    ensures
        drop_front(s, k) == Seq::<char>::empty(),
    decreases s.len(),
{
    if s.len() > 0 {
        assert(in_class(k, s[0]));
        assert forall|i: int| 0 <= i < s.skip(1).len() implies in_class(
            k,
            #[trigger] s.skip(1)[i],
        ) by {
            assert(s.skip(1)[i] == s[i + 1]);
        }
        lemma_drop_all(s.skip(1), k);
    } else {
        assert(s =~= Seq::empty());
    }
}

proof fn lemma_drop_all_back(s: Seq<char>, k: CharClass)
    requires
        all_in(k, s),
    ensures
        drop_back(s, k) == Seq::<char>::empty(),
    decreases s.len(),
{
    if s.len() > 0 {
        assert(in_class(k, s[s.len() - 1]));
        assert forall|i: int| 0 <= i < s.drop_last().len() implies in_class(
            k,
            #[trigger] s.drop_last()[i],
        ) by {
            assert(s.drop_last()[i] == s[i]);
        }
        lemma_drop_all_back(s.drop_last(), k);
    } else {
        assert(s =~= Seq::empty());
    }
}

/// Joining puts the separator between the parts and nowhere else.
pub proof fn law_join(parts: Seq<Seq<char>>, part: Seq<char>, sep: Seq<char>)
    ensures
        joined(Seq::empty(), sep) == Seq::<char>::empty(),
        joined(seq![part], sep) == part,
        parts.len() > 0 ==> joined(parts.push(part), sep) == joined(parts, sep) + sep + part,
{
    assert(parts.push(part).drop_last() =~= parts);
}

/// No piece holds the separator.
pub open spec fn without_sep(pieces: Seq<Seq<char>>, sep: char) -> bool {
    forall|i: int| 0 <= i < pieces.len() ==> !(#[trigger] pieces[i]).contains(sep)
}

/// Splitting undoes joining: the pieces hold no separator, and joined with it
/// they are the text again.
pub proof fn law_split(s: Seq<char>, sep: char)
    ensures
        split(s, sep).len() > 0,
        without_sep(split(s, sep), sep),
        joined(split(s, sep), seq![sep]) == s,
    decreases s.len(),
{
    if s.len() == 0 {
        assert(split(s, sep)[0] == Seq::<char>::empty());
        assert(s =~= Seq::empty());
    } else {
        let before = split(s.drop_last(), sep);
        law_split(s.drop_last(), sep);
        let all = split(s, sep);
        assert(s =~= s.drop_last().push(s.last()));
        if s.last() == sep {
            assert forall|i: int| 0 <= i < all.len() implies !(#[trigger] all[i]).contains(sep) by {
                if i < before.len() {
                    assert(all[i] == before[i]);
                }
            }
            law_join(before, Seq::empty(), seq![sep]);
            assert(s.drop_last() + seq![sep] + Seq::<char>::empty() =~= s);
        } else {
            let front = before.drop_last();
            let piece = before.last();
            let longer = piece.push(s.last());
            assert(before =~= front.push(piece));
            assert(!before[before.len() - 1].contains(sep));
            assert forall|i: int| 0 <= i < all.len() implies !(#[trigger] all[i]).contains(sep) by {
                if i < front.len() {
                    assert(all[i] == before[i]);
                } else if longer.contains(sep) {
                    let j = longer.index_of(sep);
                    assert(piece[j] == sep);
                }
            }
            law_join(front, piece, seq![sep]);
            law_join(front, longer, seq![sep]);
            if front.len() == 0 {
                assert(before =~= seq![piece]);
                assert(all =~= seq![longer]);
            } else {
                assert(joined(front, seq![sep]) + seq![sep] + longer =~= (joined(front, seq![sep])
                    + seq![sep] + piece).push(s.last()));
            }
        }
    }
}

/// A line ends at a line feed or at the end of the text. The carriage return
/// before a line feed does not belong to it, and nothing behind the last line
/// feed is no line.
pub proof fn law_lines(front: Seq<char>, last: Seq<char>)
    requires
        !last.contains('\n'),
    ensures
        last.len() == 0 ==> lines_of(last).len() == 0,
        last.len() > 0 ==> lines_of(last) == seq![last],
        lines_of(front.push('\n') + last) == split(front, '\n').map_values(
            |p: Seq<char>| if p.len() > 0 && p.last() == '\r' { p.drop_last() } else { p },
        ) + lines_of(last),
{
    lemma_split_plain(last, '\n');
    lemma_split_behind(front, last, '\n');
    let all = split(front.push('\n') + last, '\n');
    assert(all.drop_last() =~= split(front, '\n'));
    assert(all.drop_last().map_values(|p: Seq<char>| without_return(p)) =~= split(
        front,
        '\n',
    ).map_values(|p: Seq<char>| if p.len() > 0 && p.last() == '\r' { p.drop_last() } else { p }));
    let one = split(last, '\n');
    assert(one.drop_last() =~= Seq::empty());
    assert(one.drop_last().map_values(|p: Seq<char>| without_return(p)) =~= Seq::empty());
    if last.len() > 0 {
        assert(lines_of(last) =~= seq![last]);
    }
    assert(lines_of(front.push('\n') + last) =~= split(front, '\n').map_values(
        |p: Seq<char>| if p.len() > 0 && p.last() == '\r' { p.drop_last() } else { p },
    ) + lines_of(last));
}

proof fn lemma_split_plain(s: Seq<char>, sep: char)
    requires
        !s.contains(sep),
    ensures
        split(s, sep) == seq![s],
    decreases s.len(),
{
    if s.len() == 0 {
        assert(s =~= Seq::empty());
    } else {
        assert(!s.drop_last().contains(sep)) by {
            if s.drop_last().contains(sep) {
                let j = s.drop_last().index_of(sep);
                assert(s[j] == sep);
            }
        }
        assert(s[s.len() - 1] != sep);
        lemma_split_plain(s.drop_last(), sep);
        assert(s.drop_last().push(s.last()) =~= s);
        assert(split(s, sep) =~= seq![s]);
    }
}

proof fn lemma_split_behind(front: Seq<char>, last: Seq<char>, sep: char)
    requires
        !last.contains(sep),
    ensures
        split(front.push(sep) + last, sep) == split(front, sep).push(last),
    decreases last.len(),
{
    let s = front.push(sep) + last;
    if last.len() == 0 {
        assert(s =~= front.push(sep));
        assert(s.drop_last() =~= front);
        assert(last =~= Seq::empty());
    } else {
        let t = last.drop_last();
        assert(!t.contains(sep)) by {
            if t.contains(sep) {
                let j = t.index_of(sep);
                assert(last[j] == sep);
            }
        }
        assert(last[last.len() - 1] != sep);
        lemma_split_behind(front, t, sep);
        assert(s.drop_last() =~= front.push(sep) + t);
        assert(t.push(last.last()) =~= last);
        assert(split(front, sep).push(t).drop_last() =~= split(front, sep));
    }
}

/// The last word is the last run of characters that are not white space: where
/// it is followed by white space only and nothing or white space stands before
/// it.
pub proof fn law_last_word(front: Seq<char>, word: Seq<char>, back: Seq<char>)
    requires
        all_in(CharClass::White, back),
        forall|i: int| 0 <= i < word.len() ==> !is_white(#[trigger] word[i]),
        word.len() == 0 ==> front.len() == 0,
        front.len() > 0 ==> is_white(front.last()),
    ensures
        last_word(front + word + back) == if word.len() == 0 {
            None
        } else {
            Some(word)
        },
{
    let s = front + word + back;
    let b = front.len() + word.len();
    assert forall|j: int| b <= j < s.len() implies is_white(s[j]) by {
        assert(s[j] == back[j - b]);
        assert(in_class(CharClass::White, back[j - b]));
    }
    lemma_words_trailing(s, b as int);
    assert(s.take(b as int) =~= front + word);
    if word.len() > 0 {
        let t = front + word;
        assert forall|j: int| front.len() <= j < t.len() implies !is_white(t[j]) by {
            assert(t[j] == word[j - front.len()]);
        }
        if front.len() > 0 {
            assert(t[front.len() - 1] == front.last());
        }
        lemma_words_last(t, front.len() as int);
        assert(t.skip(front.len() as int) =~= word);
    } else {
        assert(front + word =~= Seq::empty());
    }
}

/// The beginning of a text, character by character.
pub proof fn law_beginning(s: Seq<char>, n: nat)
    ensures
        at_most(s, n).len() == if s.len() < n {
            s.len()
        } else {
            n
        },
        forall|i: int| 0 <= i < at_most(s, n).len() ==> #[trigger] at_most(s, n)[i] == s[i],
{
}

/// A replacement changes the characters that are meant and no others.
pub proof fn law_replace(s: Seq<char>, from: char, to: char, i: int)
    requires
        0 <= i < s.len(),
    ensures
        replaced(s, from, to).len() == s.len(),
        s[i] == from ==> replaced(s, from, to)[i] == to,
        s[i] != from ==> replaced(s, from, to)[i] == s[i],
        repeated(from, s.len()).len() == s.len(),
        repeated(from, s.len())[i] == from,
{
}

/// A cut separates what stands before the first separator from what stands
/// behind it.
pub proof fn law_cut(front: Seq<char>, sep: char, rest: Seq<char>)
    requires
        !front.contains(sep),
    ensures
        cut_once(front, sep) == (front, None::<Seq<char>>),
        cut_once(front.push(sep) + rest, sep) == (front, Some(rest)),
{
    assert forall|j: int| 0 <= j < front.len() implies front[j] != sep by {
        if front[j] == sep {
            assert(front.contains(sep));
        }
    }
    lemma_first_at_unique(front, sep, front.len() as int);
    let s = front.push(sep) + rest;
    assert forall|j: int| 0 <= j < front.len() implies s[j] != sep by {
        assert(s[j] == front[j]);
    }
    lemma_first_at_unique(s, sep, front.len() as int);
    assert(s.take(front.len() as int) =~= front);
    assert(s.skip(front.len() as int + 1) =~= rest);
}

/// The length of a text in UTF-8: one byte below U+0080, two below U+0800,
/// three below U+10000 and four from there on, and the sum for several
/// characters.
pub proof fn law_utf8(a: Seq<char>, b: Seq<char>, c: char)
    ensures
        byte_len(seq![c]) == if (c as u32) < 128 {
            1nat
        } else if (c as u32) < 2048 {
            2nat
        } else if (c as u32) < 65536 {
            3nat
        } else {
            4nat
        },
        byte_len(Seq::empty()) == 0,
        byte_len(a + b) == byte_len(a) + byte_len(b),
    decreases b.len(),
{
    assert(seq![c].drop_last() =~= Seq::empty());
    assert(byte_len(seq![c].drop_last()) == 0);
    if b.len() == 0 {
        assert(a + b =~= a);
    } else {
        law_utf8(a, b.drop_last(), c);
        assert((a + b).drop_last() =~= a + b.drop_last());
        assert((a + b).last() == b.last());
    }
}

/// A text is cut behind a number of bytes between two characters, or not at
/// all where it is no longer.
pub proof fn law_cut_bytes(a: Seq<char>, b: Seq<char>)
    ensures
        can_cut(a + b, byte_len(a)),
        byte_prefix(a + b, byte_len(a)) == a,
        byte_len(a) <= byte_len(b) ==> byte_prefix(a, byte_len(b)) == a,
{
    let s = a + b;
    let n = byte_len(a);
    let k = a.len() as int;
    assert(s.take(k) =~= a);
    assert(ends_at_byte(s, n, k));
    law_utf8(a, b, ' ');
    if byte_len(s) <= n {
        lemma_byte_len_monotone(s, k, s.len() as int);
        assert(s.take(s.len() as int) =~= s);
        assert(s =~= a);
    } else {
        let j = choose|j: int| ends_at_byte(s, n, j);
        lemma_boundary_unique(s, n, j, k);
    }
}

/// The beginning that fits into a number of bytes fits, is a beginning, and
/// with one more character it would not fit.
pub proof fn law_within_bytes(s: Seq<char>, n: nat)
    ensures
        ({
            let r = within_bytes(s, n);
            &&& r.len() <= s.len()
            &&& r == s.take(r.len() as int)
            &&& byte_len(r) <= n
            &&& r.len() < s.len() ==> byte_len(s.take(r.len() as int + 1)) > n
        }),
    decreases s.len(),
{
    if byte_len(s) <= n {
        assert(s.take(s.len() as int) =~= s);
    } else {
        let t = s.drop_last();
        law_within_bytes(t, n);
        let r = within_bytes(t, n);
        assert(s.take(r.len() as int) =~= t.take(r.len() as int));
        if r.len() < t.len() {
            assert(s.take(r.len() as int + 1) =~= t.take(r.len() as int + 1));
        } else {
            assert(s.take(r.len() as int + 1) =~= s);
        }
    }
}

/// The lexical order: a beginning stands first, and otherwise the first
/// character that differs decides.
pub proof fn law_lexical_order(front: Seq<char>, a: Seq<char>, b: Seq<char>)
    ensures
        text_le(front, front + a),
        a.len() > 0 ==> !text_le(front + a, front),
        a.len() > 0 && b.len() > 0 && a[0] < b[0] ==> text_le(front + a, front + b) && !text_le(
            front + b,
            front + a,
        ),
    decreases front.len(),
{
    if front.len() == 0 {
        assert(front + a =~= a);
        assert(front + b =~= b);
    } else {
        law_lexical_order(front.skip(1), a, b);
        assert((front + a).skip(1) =~= front.skip(1) + a);
        assert((front + b).skip(1) =~= front.skip(1) + b);
    }
}

/// A number is written with its digits, the highest first: the last digit of
/// `10 * n + d` is `d`, and before it stands `n`.
pub proof fn law_decimal(n: nat, d: nat)
    requires
        d < 10,
    ensures
        decimal(d).len() == 1,
        decimal(d)[0] as u32 == 48 + d,
        n > 0 ==> decimal(10 * n + d) == decimal(n) + decimal(d),
        signed_decimal(n as int) == decimal(n),
        n > 0 ==> signed_decimal(-(n as int)) == "-"@ + decimal(n),
{
    assert((10 * n + d) / 10 == n);
    assert((10 * n + d) % 10 == d);
    if n > 0 {
        assert(decimal(10 * n + d) =~= decimal(n) + decimal(d));
    }
}

/// Reading a number undoes writing it: what is written comes back if it is not
/// too large, with or without a plus sign, and with a minus sign as the
/// negative number.
pub proof fn law_numbers_are_read_back(n: nat, max: nat)
    ensures
        unsigned_number(decimal(n), max) == if n <= max {
            Some(n)
        } else {
            None
        },
        unsigned_number(seq!['+'] + decimal(n), max) == unsigned_number(decimal(n), max),
        n <= 2147483647 ==> signed_number(decimal(n)) == Some(n as int),
        n > 2147483647 ==> signed_number(decimal(n)) is None,
        n <= 2147483648 ==> signed_number(seq!['-'] + decimal(n)) == Some(-(n as int)),
        n > 2147483648 ==> signed_number(seq!['-'] + decimal(n)) is None,
{
    lemma_digits_of_decimal(n);
    lemma_decimal_nonempty(n);
    let d = decimal(n);
    assert(digit_value(d[0]) is Some);
    assert((seq!['+'] + d).skip(1) =~= d);
    assert((seq!['-'] + d).skip(1) =~= d);
    assert((seq!['+'] + d)[0] == '+');
    assert((seq!['-'] + d)[0] == '-');
}

proof fn lemma_digits_of_decimal(n: nat)
    ensures
        digits_value(decimal(n)) == Some(n),
        decimal(n).len() > 0 ==> digit_value(decimal(n)[0]) is Some,
    decreases n,
{
    reveal_with_fuel(digits_value, 2);
    if n < 10 {
        assert(decimal(n).drop_last() =~= Seq::empty());
        assert(digits_value(decimal(n).drop_last()) == Some(0nat));
    } else {
        lemma_digits_of_decimal(n / 10);
        lemma_decimal_nonempty(n / 10);
        assert(decimal(n).drop_last() =~= decimal(n / 10));
        assert(decimal(n)[0] == decimal(n / 10)[0]);
    }
}

/// Nothing but digits is a number: one character that is none, other than a
/// sign in front, spoils it, and so does a sign alone.
pub proof fn law_only_digits_are_numbers(s: Seq<char>, max: nat, i: int)
    requires
        0 <= i < s.len(),
        !('0' <= s[i] <= '9'),
        i > 0 || (s[0] != '+' && s[0] != '-'),
    ensures
        unsigned_number(s, max) is None,
        signed_number(s) is None,
        unsigned_number(Seq::empty(), max) is None,
        signed_number(Seq::empty()) is None,
        unsigned_number(seq!['+'], max) is None,
        signed_number(seq!['-']) is None,
{
    lemma_spoiled(s, i);
    if i > 0 {
        assert(s.skip(1)[i - 1] == s[i]);
        lemma_spoiled(s.skip(1), i - 1);
    }
    assert(seq!['+'].skip(1).len() == 0);
    assert(seq!['-'].skip(1).len() == 0);
}

proof fn lemma_spoiled(s: Seq<char>, i: int)
    requires
        0 <= i < s.len(),
        !('0' <= s[i] <= '9'),
    ensures
        digits_value(s) is None,
    decreases s.len(),
{
    if i < s.len() - 1 {
        assert(s.drop_last()[i] == s[i]);
        lemma_spoiled(s.drop_last(), i);
    }
}

/// Texts are seen as they are, whether optional, in a list or in a result.
pub proof fn law_text_views(s: String, list: Seq<String>, i: int)
    ensures
        opt_text(Some(s)) == Some(s@),
        opt_text(None) is None,
        texts(list).len() == list.len(),
        0 <= i < list.len() ==> texts(list)[i] == list[i]@,
        text_result(Ok(s)) == Ok::<Seq<char>, Seq<char>>(s@),
        text_result(Err(s)) == Err::<Seq<char>, Seq<char>>(s@),
{
}

/// A text cannot be cut inside a character: not behind a byte that stands
/// between the bytes of the same one.
pub proof fn law_no_cut_inside(a: Seq<char>, c: char, b: Seq<char>, n: nat)
    requires
        byte_len(a) < n < byte_len(a.push(c)),
    ensures
        !can_cut(a.push(c) + b, n),
        can_cut(a, n),
{
    let s = a.push(c) + b;
    let m = a.len() as int;
    assert(s.take(m) =~= a);
    assert(s.take(m + 1) =~= a.push(c));
    assert(s.take(s.len() as int) =~= s);
    lemma_byte_len_monotone(s, m + 1, s.len() as int);
    assert forall|k: int| !ends_at_byte(s, n, k) by {
        if ends_at_byte(s, n, k) {
            if k <= m {
                lemma_byte_len_monotone(s, k, m);
            } else {
                lemma_byte_len_monotone(s, m + 1, k);
            }
        }
    }
}

/// Where a text occurs there is a first place where it does, and only one.
pub proof fn law_first_place(hay: Seq<char>, needle: Seq<char>, from: int, k: int, i: int, j: int)
    requires
        from <= k,
        occurs_at(hay, needle, k),
    ensures
        exists|p: int| p <= k && first_occurrence(hay, needle, from, p),
        first_occurrence(hay, needle, from, i) ==> from <= i <= k && occurs_at(hay, needle, i),
        first_occurrence(hay, needle, from, i) && first_occurrence(hay, needle, from, j) ==> i == j,
    decreases k - from,
{
    if exists|q: int| from <= q < k && occurs_at(hay, needle, q) {
        let q = choose|q: int| from <= q < k && occurs_at(hay, needle, q);
        law_first_place(hay, needle, from, q, i, j);
    } else {
        assert(first_occurrence(hay, needle, from, k));
    }
}

} // verus!
