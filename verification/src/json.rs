//! JSON values, and reading them from text.

use vstd::prelude::*;
use crate::text::same;

verus! {

/// A JSON value. A number is kept as text; one that was read is in the form
/// that the parser writes, so that `1e3` becomes `1000.0`.
#[derive(Debug, PartialEq, Eq)]
pub enum Json {
    Null,
    Bool(bool),
    Number(String),
    Text(String),
    List(Vec<Json>),
    Object(Vec<Member>),
}

/// A member of a JSON object.
#[derive(Debug, PartialEq, Eq)]
pub struct Member {
    pub key: String,
    pub value: Json,
}

pub enum JsonView {
    Null,
    Bool(bool),
    Number(Seq<char>),
    Text(Seq<char>),
    List(Seq<JsonView>),
    Object(Seq<MemberView>),
}

pub struct MemberView {
    pub key: Seq<char>,
    pub value: JsonView,
}

pub open spec fn json_view(j: Json) -> JsonView
    decreases j,
{
    match j {
        Json::Null => JsonView::Null,
        Json::Bool(b) => JsonView::Bool(b),
        Json::Number(s) => JsonView::Number(s@),
        Json::Text(s) => JsonView::Text(s@),
        Json::List(v) => JsonView::List(
            Seq::new(
                v@.len(),
                |i: int|
                    if 0 <= i < v@.len() {
                        json_view(v@[i])
                    } else {
                        JsonView::Null
                    },
            ),
        ),
        Json::Object(v) => JsonView::Object(
            Seq::new(
                v@.len(),
                |i: int|
                    if 0 <= i < v@.len() {
                        MemberView { key: v@[i].key@, value: json_view(v@[i].value) }
                    } else {
                        MemberView { key: Seq::empty(), value: JsonView::Null }
                    },
            ),
        ),
    }
}

impl View for Json {
    type V = JsonView;

    open spec fn view(&self) -> JsonView {
        json_view(*self)
    }
}

impl View for Member {
    type V = MemberView;

    open spec fn view(&self) -> MemberView {
        MemberView { key: self.key@, value: self.value@ }
    }
}

pub open spec fn json_views(v: Seq<Json>) -> Seq<JsonView> {
    v.map_values(|j: Json| j@)
}

pub open spec fn member_views(v: Seq<Member>) -> Seq<MemberView> {
    v.map_values(|m: Member| m@)
}

proof fn lemma_views(j: Json)
    ensures
        j matches Json::List(v) ==> j@ == JsonView::List(json_views(v@)),
        j matches Json::Object(v) ==> j@ == JsonView::Object(member_views(v@)),
{
    match j {
        Json::List(v) => {
            assert(j@->List_0 =~= json_views(v@));
        },
        Json::Object(v) => {
            assert(j@->Object_0 =~= member_views(v@));
        },
        _ => {},
    }
}

impl Clone for Json {
    fn clone(&self) -> (r: Self)
        ensures
            r@ == self@,
        decreases self,
    {
        match self {
            Json::Null => Json::Null,
            Json::Bool(b) => Json::Bool(*b),
            Json::Number(s) => Json::Number(s.clone()),
            Json::Text(s) => Json::Text(s.clone()),
            Json::List(v) => {
                let mut out: Vec<Json> = Vec::new();
                let mut i: usize = 0;
                while i < v.len()
                    invariant
                        i <= v@.len(),
                        *self == Json::List(*v),
                        out@.len() == i,
                        forall|k: int| 0 <= k < i ==> (#[trigger] out@[k])@ == v@[k]@,
                    decreases v@.len() - i,
                {
                    assert(decreases_to!(*self => self->List_0@[i as int]));
                    out.push(v[i].clone());
                    i += 1;
                }
                let r = Json::List(out);
                proof {
                    lemma_views(r);
                    lemma_views(*self);
                    assert(json_views(out@) =~= json_views(v@));
                }
                r
            },
            Json::Object(v) => {
                let mut out: Vec<Member> = Vec::new();
                let mut i: usize = 0;
                while i < v.len()
                    invariant
                        i <= v@.len(),
                        *self == Json::Object(*v),
                        out@.len() == i,
                        forall|k: int| 0 <= k < i ==> (#[trigger] out@[k])@ == v@[k]@,
                    decreases v@.len() - i,
                {
                    assert(decreases_to!(*self => self->Object_0@[i as int]));
                    assert(decreases_to!(*self => self->Object_0@[i as int].value));
                    let value = v[i].value.clone();
                    out.push(Member { key: v[i].key.clone(), value });
                    i += 1;
                }
                let r = Json::Object(out);
                proof {
                    lemma_views(r);
                    lemma_views(*self);
                    assert(member_views(out@) =~= member_views(v@));
                }
                r
            },
        }
    }
}

// ---------------------------------------------------------------------------
// Building and reading values
// ---------------------------------------------------------------------------

/// The first member from `i` on with the given key.
pub open spec fn member_from(members: Seq<MemberView>, key: Seq<char>, i: nat) -> Option<JsonView>
    decreases members.len() - i,
{
    if i < members.len() {
        if members[i as int].key == key {
            Some(members[i as int].value)
        } else {
            member_from(members, key, i + 1)
        }
    } else {
        None
    }
}

impl JsonView {
    /// The member of an object with the given key.
    pub open spec fn member(self, key: Seq<char>) -> Option<JsonView> {
        match self {
            JsonView::Object(members) => member_from(members, key, 0),
            _ => None,
        }
    }

    /// The member of an object with the given key, if it is a text.
    pub open spec fn text_member(self, key: Seq<char>) -> Option<Seq<char>> {
        match self.member(key) {
            Some(JsonView::Text(s)) => Some(s),
            _ => None,
        }
    }

    /// An object with one member.
    pub open spec fn with(self, key: Seq<char>, value: JsonView) -> JsonView {
        match self {
            JsonView::Object(members) => JsonView::Object(members.push(MemberView { key, value })),
            _ => self,
        }
    }

    pub open spec fn empty() -> JsonView {
        JsonView::Object(Seq::empty())
    }
}

/// A member that is added is found under its key, unless one was there before,
/// and every other key leads where it led.
pub proof fn law_added_member_is_found(j: JsonView, key: Seq<char>, value: JsonView, k: Seq<char>)
    requires
        j is Object,
    ensures
        j.with(key, value).member(k) == if j.member(k) is None && k == key {
            Some(value)
        } else {
            j.member(k)
        },
{
    lemma_member_pushed(j->Object_0, MemberView { key, value }, k, 0);
}

proof fn lemma_member_pushed(members: Seq<MemberView>, m: MemberView, k: Seq<char>, i: nat)
    requires
        i <= members.len(),
    ensures
        member_from(members.push(m), k, i) == if member_from(members, k, i) is None && k == m.key {
            Some(m.value)
        } else {
            member_from(members, k, i)
        },
    decreases members.len() - i,
{
    reveal_with_fuel(member_from, 2);
    if i < members.len() {
        lemma_member_pushed(members, m, k, i + 1);
    }
}

pub open spec fn opt_json(o: Option<&Json>) -> Option<JsonView> {
    match o {
        Some(j) => Some(j@),
        None => None,
    }
}

impl Json {
    pub fn text(s: &str) -> (r: Self)
        ensures
            r@ == JsonView::Text(s@),
    {
        Json::Text(s.to_string())
    }

    /// An object without members.
    pub fn empty() -> (r: Self)
        ensures
            r@ == JsonView::empty(),
    {
        let r = Json::Object(Vec::new());
        proof {
            lemma_views(r);
            assert(r@->Object_0 =~= Seq::empty());
        }
        r
    }

    /// A list.
    pub fn list(items: Vec<Json>) -> (r: Self)
        ensures
            r@ == JsonView::List(json_views(items@)),
    {
        let r = Json::List(items);
        proof {
            lemma_views(r);
        }
        r
    }

    /// The object with one more member at its end; other values stay as they
    /// are.
    pub fn with(self, key: &str, value: Json) -> (r: Self)
        ensures
            r@ == self@.with(key@, value@),
    {
        match self {
            Json::Object(members) => {
                let ghost before = members@;
                let mut all = members;
                proof {
                    lemma_views(Json::Object(members));
                }
                all.push(Member { key: key.to_string(), value });
                let r = Json::Object(all);
                proof {
                    lemma_views(r);
                    assert(member_views(all@) =~= member_views(before).push(
                        MemberView { key: key@, value: value@ },
                    ));
                }
                r
            },
            other => other,
        }
    }

    /// The member of an object with the given key.
    pub fn get(&self, key: &str) -> (r: Option<&Json>)
        ensures
            opt_json(r) == self@.member(key@),
    {
        match self {
            Json::Object(members) => {
                let ghost all = member_views(members@);
                proof {
                    lemma_views(*self);
                }
                let mut i: usize = 0;
                while i < members.len()
                    invariant
                        i <= members@.len(),
                        all == member_views(members@),
                        self@ == JsonView::Object(all),
                        member_from(all, key@, 0) == member_from(all, key@, i as nat),
                    decreases members@.len() - i,
                {
                    assert(all[i as int] == members@[i as int]@);
                    if same(members[i].key.as_str(), key) {
                        return Some(&members[i].value);
                    }
                    i += 1;
                }
                None
            },
            _ => None,
        }
    }

    /// The member of an object with the given key, if it is a text.
    pub fn get_text(&self, key: &str) -> (r: Option<&String>)
        ensures
            match r {
                Some(s) => self@.text_member(key@) == Some(s@),
                None => self@.text_member(key@) is None,
            },
    {
        match self.get(key) {
            Some(Json::Text(s)) => Some(s),
            _ => None,
        }
    }

    /// The items of a list.
    pub fn items(&self) -> (r: Option<&Vec<Json>>)
        ensures
            match r {
                Some(v) => self@ == JsonView::List(json_views(v@)),
                None => !(self@ is List),
            },
    {
        proof {
            lemma_views(*self);
        }
        match self {
            Json::List(v) => Some(v),
            _ => None,
        }
    }
}

// ---------------------------------------------------------------------------
// Reading text
// ---------------------------------------------------------------------------

/// `serde_json::Value`, a value as the parser hands it out.
#[verifier::external_type_specification]
#[verifier::external_body]
pub struct ExValue(serde_json::Value);

/// `serde_json::Value` taken apart, one variant for one variant, all the way
/// down; numbers by their `to_string`. Nothing is stated of it by itself: it
/// is a part of `parse_json`.
#[verifier::external_body]
fn tree(v: &serde_json::Value) -> (r: Json) {
    match v {
        serde_json::Value::Null => Json::Null,
        serde_json::Value::Bool(b) => Json::Bool(*b),
        serde_json::Value::Number(n) => Json::Number(n.to_string()),
        serde_json::Value::String(s) => Json::Text(s.clone()),
        serde_json::Value::Array(a) => Json::List(a.iter().map(tree).collect()),
        serde_json::Value::Object(o) => Json::Object(
            o.iter().map(|(k, v)| Member { key: k.clone(), value: tree(v) }).collect(),
        ),
    }
}

/// What `serde_json::from_str` makes of a text: the value, or the report of
/// the parser.
pub uninterp spec fn parsed_json(doc: Seq<char>) -> Result<JsonView, Seq<char>>;

pub open spec fn json_result(r: Result<Json, String>) -> Result<JsonView, Seq<char>> {
    match r {
        Ok(j) => Ok(j@),
        Err(e) => Err(e@),
    }
}

/// `serde_json::from_str::<serde_json::Value>`: the value and the report of an
/// error depend on the text alone. The grammar of JSON and the wording of the
/// reports are not stated.
#[verifier::external_body]
pub(crate) fn parse_json(doc: &str) -> (r: Result<Json, String>)
    ensures
        json_result(r) == parsed_json(doc@),
{
    match serde_json::from_str::<serde_json::Value>(doc) {
        Ok(v) => Ok(tree(&v)),
        Err(e) => Err(e.to_string()),
    }
}

/// The first member under a key is the one that is found, and only in an
/// object; it counts as a text only if it is one.
pub proof fn law_member(j: JsonView, members: Seq<MemberView>, key: Seq<char>, i: int)
    ensures
        !(j is Object) ==> j.member(key) is None && j.text_member(key) is None,
        0 <= i < members.len() && members[i].key == key && (forall|k: int|
            0 <= k < i ==> (#[trigger] members[k]).key != key) ==> JsonView::Object(members).member(
            key,
        ) == Some(members[i].value),
        (forall|k: int| 0 <= k < members.len() ==> (#[trigger] members[k]).key != key)
            ==> JsonView::Object(members).member(key) is None,
        j.member(key) matches Some(JsonView::Text(s)) ==> j.text_member(key) == Some(s),
        !(j.member(key) matches Some(JsonView::Text(_))) ==> j.text_member(key) is None,
        JsonView::empty() == JsonView::Object(Seq::empty()),
        j matches JsonView::Object(m) ==> forall|value: JsonView| #[trigger]
            j.with(key, value) == JsonView::Object(m.push(MemberView { key, value })),
{
    if 0 <= i < members.len() && members[i].key == key && (forall|k: int|
        0 <= k < i ==> (#[trigger] members[k]).key != key) {
        lemma_member_at(members, key, 0, i);
    }
    if forall|k: int| 0 <= k < members.len() ==> (#[trigger] members[k]).key != key {
        lemma_no_member(members, key, 0);
    }
}

proof fn lemma_member_at(members: Seq<MemberView>, key: Seq<char>, from: nat, i: int)
    requires
        from <= i < members.len(),
        members[i].key == key,
        forall|k: int| from <= k < i ==> (#[trigger] members[k]).key != key,
    ensures
        member_from(members, key, from) == Some(members[i].value),
    decreases i - from,
{
    if from < i {
        assert(members[from as int].key != key);
        lemma_member_at(members, key, from + 1, i);
    }
}

proof fn lemma_no_member(members: Seq<MemberView>, key: Seq<char>, from: nat)
    requires
        forall|k: int| from <= k < members.len() ==> (#[trigger] members[k]).key != key,
    ensures
        member_from(members, key, from) is None,
    decreases members.len() - from,
{
    if from < members.len() {
        assert(members[from as int].key != key);
        lemma_no_member(members, key, from + 1);
    }
}

/// A value is seen as it is, all the way down.
pub proof fn law_json_view(b: bool, s: String, list: Vec<Json>, members: Vec<Member>, i: int)
    ensures
        Json::Null@ is Null,
        Json::Bool(b)@ == JsonView::Bool(b),
        Json::Number(s)@ == JsonView::Number(s@),
        Json::Text(s)@ == JsonView::Text(s@),
        Json::List(list)@ matches JsonView::List(v) && v.len() == list@.len() && (0 <= i
            < list@.len() ==> v[i] == list@[i]@),
        Json::Object(members)@ matches JsonView::Object(v) && v.len() == members@.len() && (0 <= i
            < members@.len() ==> v[i].key == members@[i].key@ && v[i].value
            == members@[i].value@),
{
}

/// What is seen of a lookup and of a parse is what they hold.
pub proof fn law_result_views(j: Json, e: String, list: Seq<Json>, i: int)
    ensures
        opt_json(Some(&j)) == Some(j@),
        opt_json(None) is None,
        json_result(Ok(j)) == Ok::<JsonView, Seq<char>>(j@),
        json_result(Err(e)) == Err::<JsonView, Seq<char>>(e@),
        json_views(list).len() == list.len(),
        0 <= i < list.len() ==> json_views(list)[i] == list[i]@,
{
}

} // verus!
