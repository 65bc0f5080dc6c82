//! JSON documents as plain values.

use vstd::prelude::*;
use crate::text;

verus! {

/// A JSON value. A number is held as the bit pattern of the double nearest to it; the members
/// of an object have distinct names.
#[derive(Debug)]
pub enum Json {
    Null,
    Bool(bool),
    Number(u64),
    Str(String),
    Array(Vec<Json>),
    Object(Vec<(String, Json)>),
}

/// What a JSON value means.
pub enum JsonView {
    Null,
    Bool(bool),
    Number(u64),
    Str(Seq<char>),
    Array(Seq<JsonView>),
    Object(Seq<(Seq<char>, JsonView)>),
}

impl View for Json {
    type V = JsonView;

    open spec fn view(&self) -> JsonView {
        json_view(*self)
    }
}

pub open spec fn json_view(j: Json) -> JsonView
    decreases j,
{
    match j {
        Json::Null => JsonView::Null,
        Json::Bool(b) => JsonView::Bool(b),
        Json::Number(n) => JsonView::Number(n),
        Json::Str(s) => JsonView::Str(s@),
        Json::Array(items) => JsonView::Array(
            Seq::new(
                items@.len(),
                |i: int|
                    if 0 <= i < items@.len() {
                        json_view(items@[i])
                    } else {
                        JsonView::Null
                    },
            ),
        ),
        Json::Object(members) => JsonView::Object(
            Seq::new(
                members@.len(),
                |i: int|
                    if 0 <= i < members@.len() {
                        (members@[i].0@, json_view(members@[i].1))
                    } else {
                        (Seq::empty(), JsonView::Null)
                    },
            ),
        ),
    }
}

/// The value of the first member called `key` from index `i` on.
pub open spec fn member_from(members: Seq<(Seq<char>, JsonView)>, key: Seq<char>, i: int) -> Option<
    JsonView,
>
    decreases members.len() - i,
{
    if i < 0 || i >= members.len() {
        None
    } else if members[i].0 == key {
        Some(members[i].1)
    } else {
        member_from(members, key, i + 1)
    }
}

/// The member of an object called `key`; `None` for any other value.
pub open spec fn member(v: JsonView, key: Seq<char>) -> Option<JsonView> {
    match v {
        JsonView::Object(members) => member_from(members, key, 0),
        _ => None,
    }
}

/// The characters of a JSON string; `None` for any other value.
pub open spec fn as_text(v: Option<JsonView>) -> Option<Seq<char>> {
    match v {
        Some(JsonView::Str(s)) => Some(s),
        _ => None,
    }
}

/// The elements of a JSON array; `None` for any other value.
pub open spec fn as_items(v: Option<JsonView>) -> Option<Seq<JsonView>> {
    match v {
        Some(JsonView::Array(items)) => Some(items),
        _ => None,
    }
}

/// A JSON number; `None` for any other value.
pub open spec fn as_number(v: Option<JsonView>) -> Option<u64> {
    match v {
        Some(JsonView::Number(n)) => Some(n),
        _ => None,
    }
}

/// Whether the value is the JSON literal `true`.
pub open spec fn is_true(v: Option<JsonView>) -> bool {
    v == Some(JsonView::Bool(true))
}

/// The JSON strings among the elements from index `i` on, in order.
pub open spec fn texts_from(items: Seq<JsonView>, i: int) -> Seq<Seq<char>>
    decreases items.len() - i,
{
    if i < 0 || i >= items.len() {
        Seq::empty()
    } else {
        match items[i] {
            JsonView::Str(s) => seq![s] + texts_from(items, i + 1),
            _ => texts_from(items, i + 1),
        }
    }
}

/// The JSON strings of an optional array; none where there is no array.
pub open spec fn texts_of(v: Option<JsonView>) -> Seq<Seq<char>> {
    match as_items(v) {
        Some(items) => texts_from(items, 0),
        None => Seq::empty(),
    }
}

pub open spec fn opt_json_view(v: Option<&Json>) -> Option<JsonView> {
    match v {
        Some(j) => Some(j@),
        None => None,
    }
}

/// A parsed document of `serde_json`; opaque here.
#[verifier::external_type_specification]
#[verifier::external_body]
pub struct ExValue(serde_json::Value);

/// What a parsed document holds.
pub uninterp spec fn value_of(value: serde_json::Value) -> JsonView;

/// The value that `serde_json::from_str` reads from a text, or `None` where it refuses it.
pub uninterp spec fn json_of(text: Seq<char>) -> Option<JsonView>;

/// Calls `serde_json::from_str::<serde_json::Value>`. Nothing more is claimed of the result than
/// that it is a function of the text: which texts are JSON, and what they hold, is left to the
/// outside crate.
#[verifier::external_body]
fn parse_value(text: &str) -> (r: Option<serde_json::Value>)
    ensures
        match r {
            Some(value) => json_of(text@) == Some(value_of(value)),
            None => json_of(text@) is None,
        },
{
    serde_json::from_str::<serde_json::Value>(text).ok()
}

/// A parsed document, taken apart once.
enum Level {
    Null,
    Bool(bool),
    Number(u64),
    Str(String),
    Array(Vec<serde_json::Value>),
    Object(Vec<(String, serde_json::Value)>),
}

/// What parsed documents hold.
spec fn values_of(values: Seq<serde_json::Value>) -> Seq<JsonView> {
    Seq::new(values.len(), |i: int| value_of(values[i]))
}

/// What named parsed documents hold.
spec fn members_of(members: Seq<(String, serde_json::Value)>) -> Seq<(Seq<char>, JsonView)> {
    Seq::new(members.len(), |i: int| (members[i].0@, value_of(members[i].1)))
}

/// What a parsed document holds, given its parts.
spec fn level_view(level: Level) -> JsonView {
    match level {
        Level::Null => JsonView::Null,
        Level::Bool(b) => JsonView::Bool(b),
        Level::Number(n) => JsonView::Number(n),
        Level::Str(s) => JsonView::Str(s@),
        Level::Array(values) => JsonView::Array(values_of(values@)),
        Level::Object(members) => JsonView::Object(members_of(members@)),
    }
}

/// Tells the variants of `serde_json::Value` apart. A number is handed over as `as_f64` gives it, the
/// members of an object in the order of the outside map. Claimed is that the parts are those of what
/// the document holds.
#[verifier::external_body]
fn level_of(value: serde_json::Value) -> (r: Level)
    ensures
        level_view(r) == value_of(value),
{
    match value {
        serde_json::Value::Null => Level::Null,
        serde_json::Value::Bool(b) => Level::Bool(b),
        serde_json::Value::Number(n) => Level::Number(n.as_f64().unwrap_or_default().to_bits()),
        serde_json::Value::String(s) => Level::Str(s),
        serde_json::Value::Array(values) => Level::Array(values),
        serde_json::Value::Object(members) => Level::Object(members.into_iter().collect()),
    }
}

/// A parsed document as a value of this library.
fn json_from_value(value: serde_json::Value) -> (r: Json)
    ensures
        r@ == value_of(value),
    decreases value_of(value),
{
    let ghost whole = value_of(value);
    match level_of(value) {
        Level::Null => Json::Null,
        Level::Bool(b) => Json::Bool(b),
        Level::Number(n) => Json::Number(n),
        Level::Str(s) => Json::Str(s),
        Level::Array(values) => {
            let mut rest = values;
            let ghost all = values_of(rest@);
            let mut reversed: Vec<Json> = Vec::new();
            while rest.len() > 0
                invariant
                    whole == value_of(value),
                    whole == JsonView::Array(all),
                    rest@.len() + reversed@.len() == all.len(),
                    forall|i: int| 0 <= i < rest@.len() ==> value_of(#[trigger] rest@[i]) == all[i],
                    forall|i: int|
                        0 <= i < reversed@.len() ==> (#[trigger] reversed@[i])@ == all[all.len() - 1
                            - i],
                decreases rest@.len(),
            {
                if let Some(last) = rest.pop() {
                    assert(decreases_to!(whole => whole->Array_0[rest@.len() as int]));
                    reversed.push(json_from_value(last));
                }
            }
            let mut items: Vec<Json> = Vec::new();
            while reversed.len() > 0
                invariant
                    whole == JsonView::Array(all),
                    items@.len() + reversed@.len() == all.len(),
                    forall|i: int|
                        0 <= i < reversed@.len() ==> (#[trigger] reversed@[i])@ == all[all.len() - 1
                            - i],
                    forall|i: int| 0 <= i < items@.len() ==> (#[trigger] items@[i])@ == all[i],
                decreases reversed@.len(),
            {
                if let Some(next) = reversed.pop() {
                    items.push(next);
                }
            }
            let r = Json::Array(items);
            assert(r@->Array_0 =~= all);
            r
        },
        Level::Object(members) => {
            let mut rest = members;
            let ghost all = members_of(rest@);
            let mut reversed: Vec<(String, Json)> = Vec::new();
            while rest.len() > 0
                invariant
                    whole == value_of(value),
                    whole == JsonView::Object(all),
                    rest@.len() + reversed@.len() == all.len(),
                    forall|i: int|
                        0 <= i < rest@.len() ==> ((#[trigger] rest@[i]).0@, value_of(rest@[i].1))
                            == all[i],
                    forall|i: int|
                        0 <= i < reversed@.len() ==> ((#[trigger] reversed@[i]).0@, reversed@[i].1@)
                            == all[all.len() - 1 - i],
                decreases rest@.len(),
            {
                if let Some(last) = rest.pop() {
                    let name = last.0;
                    assert(decreases_to!(whole => whole->Object_0[rest@.len() as int].1));
                    let held = json_from_value(last.1);
                    reversed.push((name, held));
                }
            }
            let mut out: Vec<(String, Json)> = Vec::new();
            while reversed.len() > 0
                invariant
                    whole == JsonView::Object(all),
                    out@.len() + reversed@.len() == all.len(),
                    forall|i: int|
                        0 <= i < reversed@.len() ==> ((#[trigger] reversed@[i]).0@, reversed@[i].1@)
                            == all[all.len() - 1 - i],
                    forall|i: int|
                        0 <= i < out@.len() ==> ((#[trigger] out@[i]).0@, out@[i].1@) == all[i],
                decreases reversed@.len(),
            {
                if let Some(next) = reversed.pop() {
                    out.push(next);
                }
            }
            let r = Json::Object(out);
            assert(r@->Object_0 =~= all);
            r
        },
    }
}

/// The value that a text holds. See [`json_of`].
pub(crate) fn parse_json(text: &str) -> (r: Option<Json>)
    ensures
        r matches Some(j) ==> json_of(text@) == Some(j@),
        r is None ==> json_of(text@) is None,
{
    match parse_value(text) {
        Some(value) => Some(json_from_value(value)),
        None => None,
    }
}

impl Json {
    /// See [`member`].
    pub fn get(&self, key: &str) -> (r: Option<&Json>)
        ensures
            opt_json_view(r) == member(self@, key@),
    {
        match self {
            Json::Object(members) => {
                let mut i: usize = 0;
                while i < members.len()
                    invariant
                        i <= members@.len(),
                        *self == Json::Object(*members),
                        self@ matches JsonView::Object(ms) && ms.len() == members@.len() && member(
                            self@,
                            key@,
                        ) == member_from(ms, key@, i as int),
                    decreases members@.len() - i,
                {
                    let m = &members[i];
                    assert(self@->Object_0[i as int] == (m.0@, m.1@));
                    if text::same(m.0.as_str(), key) {
                        return Some(&m.1);
                    }
                    i = i + 1;
                }
                None
            },
            _ => None,
        }
    }

    /// See [`as_text`].
    pub fn text(&self) -> (r: Option<&String>)
        ensures
            r matches Some(s) ==> as_text(Some(self@)) == Some(s@),
            r is None ==> as_text(Some(self@)) is None,
    {
        match self {
            Json::Str(s) => Some(s),
            _ => None,
        }
    }

    /// See [`as_items`].
    pub fn items(&self) -> (r: Option<&Vec<Json>>)
        ensures
            r matches Some(v) ==> as_items(Some(self@)) == Some(item_views(v@)),
            r is None ==> as_items(Some(self@)) is None,
    {
        match self {
            Json::Array(v) => {
                assert(item_views(v@) =~= self@->Array_0);
                Some(v)
            },
            _ => None,
        }
    }

    /// See [`as_number`].
    pub fn number(&self) -> (r: Option<u64>)
        ensures
            r == as_number(Some(self@)),
    {
        match self {
            Json::Number(n) => Some(*n),
            _ => None,
        }
    }

    /// Whether this is the literal `true`.
    pub fn truth(&self) -> (r: bool)
        ensures
            r == is_true(Some(self@)),
    {
        match self {
            Json::Bool(b) => *b,
            _ => false,
        }
    }
}

/// What the elements of an array mean.
pub open spec fn item_views(v: Seq<Json>) -> Seq<JsonView> {
    Seq::new(v.len(), |i: int| v[i]@)
}

/// See [`texts_of`].
pub fn texts(v: Option<&Json>) -> (r: Vec<String>)
    ensures
        text::views(r@) == texts_of(opt_json_view(v)),
{
    let mut out: Vec<String> = Vec::new();
    let items = match v {
        Some(j) => match j.items() {
            Some(items) => items,
            None => {
                assert(text::views(out@) =~= Seq::empty());
                return out;
            },
        },
        None => {
            assert(text::views(out@) =~= Seq::empty());
            return out;
        },
    };
    let ghost all = item_views(items@);
    let mut i: usize = 0;
    assert(text::views(out@) + texts_from(all, 0) =~= texts_from(all, 0));
    while i < items.len()
        invariant
            i <= items@.len(),
            all == item_views(items@),
            text::views(out@) + texts_from(all, i as int) == texts_from(all, 0),
        decreases items@.len() - i,
    {
        let ghost before = out@;
        assert(all[i as int] == items@[i as int]@);
        if let Some(s) = items[i].text() {
            let copy = s.clone();
            out.push(copy);
            proof {
                text::lemma_views_push(before, copy);
                assert(text::views(before) + (seq![s@] + texts_from(all, i + 1)) =~= text::views(
                    out@,
                ) + texts_from(all, i + 1));
            }
        }
        i = i + 1;
    }
    assert(text::views(out@) + Seq::<Seq<char>>::empty() =~= text::views(out@));
    out
}

/// The text of the member called `key`; empty where there is no such text.
pub open spec fn text_or_empty(v: JsonView, key: Seq<char>) -> Seq<char> {
    match as_text(member(v, key)) {
        Some(s) => s,
        None => Seq::empty(),
    }
}

/// See [`text_or_empty`].
pub fn member_text(v: &Json, key: &str) -> (r: String)
    ensures
        r@ == text_or_empty(v@, key@),
{
    match v.get(key) {
        Some(j) => match j.text() {
            Some(s) => s.clone(),
            None => String::new(),
        },
        None => String::new(),
    }
}

/// A character as it stands between the quotes of a JSON string. A control character without a short form is
/// written with its code in hexadecimal digits.
pub open spec fn escaped(c: char) -> Seq<char> {
    if c == '"' {
        seq!['\\', '"']
    } else if c == '\\' {
        seq!['\\', '\\']
    } else if c == '\u{8}' {
        seq!['\\', 'b']
    } else if c == '\t' {
        seq!['\\', 't']
    } else if c == '\n' {
        seq!['\\', 'n']
    } else if c == '\u{c}' {
        seq!['\\', 'f']
    } else if c == '\r' {
        seq!['\\', 'r']
    } else if (c as int) < 0x20 {
        seq![
            '\\',
            'u',
            '0',
            '0',
            text::hex_digit(c as int / 16),
            text::hex_digit(c as int % 16),
        ]
    } else {
        seq![c]
    }
}

/// A text as a JSON string, with its quotes.
pub open spec fn quoted(s: Seq<char>) -> Seq<char> {
    seq!['"'] + Seq::new(s.len(), |i: int| escaped(s[i])).flatten() + seq!['"']
}

/// The JSON text of an array of strings.
pub open spec fn string_array_text(items: Seq<Seq<char>>) -> Seq<char> {
    "["@ + text::join(Seq::new(items.len(), |i: int| quoted(items[i])), ","@) + "]"@
}

/// Calls `serde_json::to_string` on a list of strings, which writes them without any blanks in between, and
/// never fails.
#[verifier::external_body]
pub(crate) fn write_string_array(items: &Vec<String>) -> (r: Option<String>)
    ensures
        text::opt_view(r) == Some(string_array_text(text::views(items@))),
{
    serde_json::to_string(items).ok()
}

proof fn lemma_member_from(members: Seq<(Seq<char>, JsonView)>, key: Seq<char>, i: int, k: int)
    requires
        0 <= i <= k < members.len(),
        members[k].0 == key,
        forall|m: int| i <= m < k ==> (#[trigger] members[m]).0 != key,
    ensures
        member_from(members, key, i) == Some(members[k].1),
    decreases k - i,
{
    if i < k {
        assert(members[i].0 != key);
        lemma_member_from(members, key, i + 1, k);
    }
}

proof fn lemma_no_member_from(members: Seq<(Seq<char>, JsonView)>, key: Seq<char>, i: int)
    requires
        0 <= i,
        forall|m: int| i <= m < members.len() ==> (#[trigger] members[m]).0 != key,
    ensures
        member_from(members, key, i) is None,
    decreases members.len() - i,
{
    if i < members.len() {
        assert(members[i].0 != key);
        lemma_no_member_from(members, key, i + 1);
    }
}

/// A member of an object is found under its name; a name that no member bears gives none, and neither does anything
/// that is not an object.
pub proof fn members_are_found_by_name(
    v: JsonView,
    members: Seq<(Seq<char>, JsonView)>,
    key: Seq<char>,
    k: int,
)
    ensures
        v == JsonView::Object(members) && 0 <= k < members.len() && members[k].0 == key && (
        forall|m: int| 0 <= m < k ==> (#[trigger] members[m]).0 != key) ==> member(v, key) == Some(
            members[k].1,
        ),
        v == JsonView::Object(members) && (forall|m: int|
            0 <= m < members.len() ==> (#[trigger] members[m]).0 != key) ==> member(v, key) is None,
        !(v is Object) ==> member(v, key) is None,
{
    if v == JsonView::Object(members) {
        if 0 <= k < members.len() && members[k].0 == key && (forall|m: int|
            0 <= m < k ==> (#[trigger] members[m]).0 != key) {
            lemma_member_from(members, key, 0, k);
        }
        if forall|m: int| 0 <= m < members.len() ==> (#[trigger] members[m]).0 != key {
            lemma_no_member_from(members, key, 0);
        }
    }
}

proof fn lemma_texts_push(items: Seq<JsonView>, x: JsonView, i: int)
    requires
        0 <= i <= items.len(),
    ensures
        texts_from(items.push(x), i) == texts_from(items, i) + texts_from(seq![x], 0),
    decreases items.len() - i,
{
    let more = items.push(x);
    if i == items.len() {
        assert(more[i] == x);
        assert(seq![x][0] == x);
        assert(texts_from(more, i + 1) =~= Seq::empty());
        assert(texts_from(seq![x], 1) =~= Seq::empty());
        assert(texts_from(items, i) =~= Seq::empty());
        assert(texts_from(more, i) =~= texts_from(items, i) + texts_from(seq![x], 0));
    } else {
        lemma_texts_push(items, x, i + 1);
        assert(more[i] == items[i]);
        assert(texts_from(more, i) =~= texts_from(items, i) + texts_from(seq![x], 0));
    }
}

/// The texts of a list come in their order, each as it is; what is not a text is passed over.
pub proof fn texts_keep_their_order(items: Seq<JsonView>, x: JsonView)
    ensures
        texts_of(Some(JsonView::Array(Seq::empty()))).len() == 0,
        texts_of(None).len() == 0,
        texts_of(Some(JsonView::Array(items.push(x)))) == (match x {
            JsonView::Str(s) => texts_of(Some(JsonView::Array(items))).push(s),
            _ => texts_of(Some(JsonView::Array(items))),
        }),
{
    lemma_texts_push(items, x, 0);
    let rest = texts_from(items, 0);
    assert(seq![x][0] == x);
    assert(texts_from(seq![x], 1) =~= Seq::empty());
    match x {
        JsonView::Str(s) => {
            assert(texts_from(seq![x], 0) =~= seq![s]);
            assert(rest + seq![s] =~= rest.push(s));
        },
        _ => {
            assert(texts_from(seq![x], 0) =~= Seq::empty());
            assert(rest + Seq::<Seq<char>>::empty() =~= rest);
        },
    }
}

/// Each reader takes values of its own kind and no others.
pub proof fn readers_take_their_own_kind(v: JsonView)
    ensures
        as_text(Some(v)) is Some <==> v is Str,
        as_number(Some(v)) is Some <==> v is Number,
        as_items(Some(v)) is Some <==> v is Array,
        v matches JsonView::Str(s) ==> as_text(Some(v)) == Some(s),
        v matches JsonView::Number(n) ==> as_number(Some(v)) == Some(n),
        v matches JsonView::Array(items) ==> as_items(Some(v)) == Some(items),
        is_true(Some(v)) <==> v == JsonView::Bool(true),
        as_text(None) is None && as_number(None) is None && as_items(None) is None && !is_true(None),
{
}

/// Inside a quoted text a quotation mark and a backslash have a backslash before them, line feeds and their like have short
/// names, other control characters have numbers, and everything else stands for itself.
pub proof fn special_characters_are_escaped(c: char)
    ensures
        escaped('"') == seq!['\\', '"'],
        escaped('\\') == seq!['\\', '\\'],
        escaped('\n') == seq!['\\', 'n'],
        escaped('\r') == seq!['\\', 'r'],
        escaped('\t') == seq!['\\', 't'],
        escaped('\u{8}') == seq!['\\', 'b'],
        escaped('\u{c}') == seq!['\\', 'f'],
        c as int >= 0x20 && c != '"' && c != '\\' ==> escaped(c) == seq![c],
        (c as int) < 0x20 ==> escaped(c)[0] == '\\',
        (c as int) < 0x20 && c != '\n' && c != '\r' && c != '\t' && c != '\u{8}' && c != '\u{c}'
            ==> escaped(c) == seq![
            '\\',
            'u',
            '0',
            '0',
            "0123456789abcdef"@[c as int / 16],
            "0123456789abcdef"@[c as int % 16],
        ],
{
    reveal_strlit("0123456789abcdef");
    let s = "0123456789abcdef"@;
    assert(s[0] == '0' && s[1] == '1' && s[2] == '2' && s[3] == '3' && s[4] == '4' && s[5] == '5'
        && s[6] == '6' && s[7] == '7' && s[8] == '8' && s[9] == '9' && s[10] == 'a' && s[11] == 'b'
        && s[12] == 'c' && s[13] == 'd' && s[14] == 'e' && s[15] == 'f');
    if (c as int) < 0x20 {
        assert(text::hex_digit(c as int / 16) == s[c as int / 16]);
        assert(text::hex_digit(c as int % 16) == s[c as int % 16]);
    }
}

/// A quoted text stands between quotation marks, character by character in its order.
pub proof fn texts_are_quoted_in_order(s: Seq<char>, c: char)
    ensures
        quoted(Seq::empty()) == seq!['"', '"'],
        quoted(s.push(c)) == quoted(s).drop_last() + escaped(c) + seq!['"'],
{
    let pieces = Seq::new(s.len(), |i: int| escaped(s[i]));
    let more = Seq::new(s.push(c).len(), |i: int| escaped(s.push(c)[i]));
    assert(more =~= pieces.push(escaped(c)));
    more.lemma_flatten_and_flatten_alt_are_equivalent();
    pieces.lemma_flatten_and_flatten_alt_are_equivalent();
    assert(more.drop_last() =~= pieces);
    assert(more.flatten() =~= pieces.flatten() + escaped(c));
    assert(quoted(s).drop_last() =~= seq!['"'] + pieces.flatten());
    let none = Seq::new(0, |i: int| escaped(Seq::<char>::empty()[i]));
    assert(none =~= Seq::empty());
    assert(Seq::<Seq<char>>::empty().flatten() =~= Seq::empty());
    assert(quoted(Seq::empty()) =~= seq!['"', '"']);
}

/// A list of texts stands between square brackets, each text quoted, with commas between neighbours.
pub proof fn lists_are_written_in_order(items: Seq<Seq<char>>, x: Seq<char>)
    ensures
        string_array_text(Seq::empty()) == "[]"@,
        items.len() == 0 ==> string_array_text(items.push(x)) == "["@ + quoted(x) + "]"@,
        items.len() > 0 ==> string_array_text(items.push(x)) == string_array_text(items).drop_last()
            + ","@ + quoted(x) + "]"@,
{
    reveal_strlit("[");
    reveal_strlit("]");
    reveal_strlit("[]");
    let qs = Seq::new(items.len(), |i: int| quoted(items[i]));
    let more = Seq::new(items.push(x).len(), |i: int| quoted(items.push(x)[i]));
    assert(more =~= qs.push(quoted(x)));
    assert(more.drop_last() =~= qs);
    let none = Seq::new(0, |i: int| quoted(Seq::<Seq<char>>::empty()[i]));
    assert(none =~= Seq::empty());
    assert(text::join(Seq::empty(), ","@) =~= Seq::empty());
    assert(string_array_text(Seq::empty()) =~= "[]"@);
    assert(string_array_text(items).drop_last() =~= "["@ + text::join(qs, ","@));
}

} // verus!
