//! JSON texts.
use vstd::prelude::*;

use crate::hexadecimal::hex_digit;
use crate::table::outcome;

verus! {

// ------------------------------------------------------------------- strings
/// A character inside a JSON string.
pub open spec fn json_escape(c: char) -> Seq<char> {
    if c == '"' || c == '\\' {
        seq!['\\', c]
    } else if c == '\x08' {
        seq!['\\', 'b']
    } else if c == '\t' {
        seq!['\\', 't']
    } else if c == '\n' {
        seq!['\\', 'n']
    } else if c == '\x0c' {
        seq!['\\', 'f']
    } else if c == '\r' {
        seq!['\\', 'r']
    } else if ' ' > c {
        seq!['\\', 'u', '0', '0', hex_digit(c as int / 16), hex_digit(c as int % 16)]
    } else {
        seq![c]
    }
}

/// A text inside a JSON string.
pub open spec fn json_escaped(s: Seq<char>) -> Seq<char>
    decreases s.len(),
{
    if s.len() == 0 {
        Seq::empty()
    } else {
        json_escaped(s.drop_last()) + json_escape(s.last())
    }
}

/// A text as a JSON string.
pub open spec fn json_string(s: Seq<char>) -> Seq<char> {
    seq!['"'] + json_escaped(s) + seq!['"']
}

/// Whether a text holds no line break.
pub open spec fn one_line(s: Seq<char>) -> bool {
    forall|i: int| 0 <= i < s.len() ==> #[trigger] s[i] != '\n'
}

/// A JSON string stands on one line, whatever text it stands for.
pub proof fn strings_stand_on_one_line(s: Seq<char>)
    ensures
        one_line(json_string(s)),
{
    lemma_escaped_line(s);
}

proof fn lemma_escape_line(c: char)
    ensures
        one_line(json_escape(c)),
{
    if ' ' > c {
        let n = c as int;
        assert(0 <= n / 16 < 2 && 0 <= n % 16 < 16);
    }
}

proof fn lemma_escaped_line(s: Seq<char>)
    ensures
        one_line(json_escaped(s)),
    decreases s.len(),
{
    if s.len() > 0 {
        lemma_escaped_line(s.drop_last());
        lemma_escape_line(s.last());
    }
}

/// `serde_json::Value::from` and its `to_string`: a text as a JSON string, with
/// quotes, backslashes and control characters escaped.
#[verifier::external_body]
pub(crate) fn quoted(text: &str) -> (s: String)
    ensures
        s@ == json_string(text@),
{
    serde_json::Value::from(text).to_string()
}

// ------------------------------------------------------------------- parsing
/// What `serde_json::from_str` makes of a text, printed without white space, or
/// why it refuses the text.
pub uninterp spec fn parsed_json(text: Seq<char>) -> Result<Seq<char>, Seq<char>>;

/// `serde_json::from_str` to a value, and that value's `to_string`: whether a
/// text is JSON, and its value as a text of one form, is a function of the text.
#[verifier::external_body]
pub(crate) fn parse_json(text: &str) -> (r: Result<String, String>)
    ensures
        outcome(r) == parsed_json(text@),
{
    serde_json::from_str::<serde_json::Value>(text).map(|value| value.to_string()).map_err(
        |error| error.to_string(),
    )
}

/// The items of the array that a text stands for, each as `parsed_json` prints
/// it, if the text is a JSON array.
pub uninterp spec fn array_items(text: Seq<char>) -> Option<Seq<Seq<char>>>;

/// `serde_json::Value::as_array` on what `serde_json::from_str` makes of a text:
/// the printed items of an array are a function of the text.
#[verifier::external_body]
pub(crate) fn items_of(text: &str) -> (r: Option<Vec<String>>)
    ensures
        r.deep_view() == array_items(text@),
{
    let value = serde_json::from_str::<serde_json::Value>(text).ok()?;
    value.as_array().map(|items| items.iter().map(|item| item.to_string()).collect())
}

/// The keys of the object that a text stands for, if the text is a JSON object.
pub uninterp spec fn object_keys(text: Seq<char>) -> Option<Seq<Seq<char>>>;

/// `serde_json::Value::as_object` on what `serde_json::from_str` makes of a text:
/// the keys of an object are a function of the text.
#[verifier::external_body]
pub(crate) fn keys_of(text: &str) -> (r: Option<Vec<String>>)
    ensures
        r.deep_view() == object_keys(text@),
{
    let value = serde_json::from_str::<serde_json::Value>(text).ok()?;
    value.as_object().map(|object| object.keys().cloned().collect())
}

/// What the object that a text stands for holds under a key, as `parsed_json`
/// prints it, if the text is a JSON object with that key.
pub uninterp spec fn object_member(text: Seq<char>, key: Seq<char>) -> Option<Seq<char>>;

/// `serde_json::Value::get` on what `serde_json::from_str` makes of a text: the
/// printed value under a key is a function of the text and the key.
#[verifier::external_body]
pub(crate) fn member_of(text: &str, key: &str) -> (r: Option<String>)
    ensures
        r.deep_view() == object_member(text@, key@),
{
    let value = serde_json::from_str::<serde_json::Value>(text).ok()?;
    value.get(key).map(|member| member.to_string())
}

/// The object that a text stands for with a number under a key, printed, if the text is
/// a JSON object.
pub uninterp spec fn object_with(text: Seq<char>, key: Seq<char>, value: u64) -> Option<Seq<char>>;

/// `serde_json::Map::insert` on the object that `serde_json::from_str` makes of a text,
/// and the value's `to_string`: the printed object is a function of the text, the key
/// and the number.
#[verifier::external_body]
pub(crate) fn with_member(text: &str, key: &str, value: u64) -> (r: Option<String>)
    ensures
        r.deep_view() == object_with(text@, key@, value),
{
    let mut document = serde_json::from_str::<serde_json::Value>(text).ok()?;
    document.as_object_mut()?.insert(key.to_owned(), serde_json::Value::from(value));
    Some(document.to_string())
}

/// The text that a JSON string stands for, if a text is a JSON string.
pub uninterp spec fn string_value(text: Seq<char>) -> Option<Seq<char>>;

/// `serde_json::Value::as_str` on what `serde_json::from_str` makes of a text:
/// the text inside a JSON string is a function of the text.
#[verifier::external_body]
pub(crate) fn str_of(text: &str) -> (r: Option<String>)
    ensures
        r.deep_view() == string_value(text@),
{
    let value = serde_json::from_str::<serde_json::Value>(text).ok()?;
    value.as_str().map(|text| text.to_owned())
}

// ------------------------------------------------------------------- objects
/// The members of an object, a comma between them.
pub open spec fn json_members(members: Seq<(Seq<char>, Seq<char>)>) -> Seq<char>
    decreases members.len(),
{
    if members.len() == 0 {
        Seq::empty()
    } else {
        let (key, value) = members.last();
        let member = json_string(key) + seq![':'] + value;
        if members.len() == 1 {
            member
        } else {
            json_members(members.drop_last()) + seq![','] + member
        }
    }
}

/// An object of these members, their values JSON texts.
pub open spec fn json_object(members: Seq<(Seq<char>, Seq<char>)>) -> Seq<char> {
    seq!['{'] + json_members(members) + seq!['}']
}

/// An object whose values stand on one line stands on one line.
pub proof fn objects_stand_on_one_line(members: Seq<(Seq<char>, Seq<char>)>)
    requires
        forall|i: int| 0 <= i < members.len() ==> one_line((#[trigger] members[i]).1),
    ensures
        one_line(json_object(members)),
{
    lemma_members_line(members);
}

proof fn lemma_members_line(members: Seq<(Seq<char>, Seq<char>)>)
    requires
        forall|i: int| 0 <= i < members.len() ==> one_line((#[trigger] members[i]).1),
    ensures
        one_line(json_members(members)),
    decreases members.len(),
{
    if members.len() > 0 {
        let head = members.drop_last();
        assert forall|i: int| 0 <= i < head.len() implies one_line((#[trigger] head[i]).1) by {
            assert(head[i] == members[i]);
        }
        lemma_members_line(head);
        strings_stand_on_one_line(members.last().0);
        assert(one_line(members[members.len() - 1].1));
    }
}

/// An object of these members, their values JSON texts.
pub fn object(members: &Vec<(String, String)>) -> (s: String)
    ensures
        s@ == json_object(members.deep_view()),
{
    let mut s = "".to_owned();
    let ghost all = members.deep_view();
    s.push('{');
    proof {
        reveal_strlit("");
        assert(all.take(0) =~= Seq::<(Seq<char>, Seq<char>)>::empty());
        assert(s@ =~= seq!['{'] + json_members(all.take(0)));
    }
    let mut i: usize = 0;
    while i < members.len()
        invariant
            i <= members.len(),
            all == members.deep_view(),
            s@ == seq!['{'] + json_members(all.take(i as int)),
        decreases members.len() - i,
    {
        let ghost before = s@;
        proof {
            assert(all.take(i + 1).drop_last() =~= all.take(i as int));
            assert(all.take(i + 1).last() == all[i as int]);
            reveal_strlit(":");
            reveal_strlit(",");
        }
        if i > 0 {
            s.append(",");
        }
        let key = quoted(members[i].0.as_str());
        s.append(key.as_str());
        s.append(":");
        s.append(members[i].1.as_str());
        assert(s@ =~= seq!['{'] + json_members(all.take(i + 1)));
        i += 1;
    }
    assert(all.take(i as int) =~= all);
    s.push('}');
    assert(s@ =~= json_object(all));
    s
}

// -------------------------------------------------------------------- arrays
/// The strings of an array, a comma between them.
pub open spec fn json_strings(items: Seq<Seq<char>>) -> Seq<char>
    decreases items.len(),
{
    if items.len() == 0 {
        Seq::empty()
    } else if items.len() == 1 {
        json_string(items.last())
    } else {
        json_strings(items.drop_last()) + seq![','] + json_string(items.last())
    }
}

/// An array of strings.
pub open spec fn json_array(items: Seq<Seq<char>>) -> Seq<char> {
    seq!['['] + json_strings(items) + seq![']']
}

/// An array of strings.
pub fn array(items: &Vec<String>) -> (s: String)
    ensures
        s@ == json_array(items.deep_view()),
{
    let mut s = "".to_owned();
    let ghost all = items.deep_view();
    s.push('[');
    proof {
        reveal_strlit("");
        assert(all.take(0) =~= Seq::<Seq<char>>::empty());
        assert(s@ =~= seq!['['] + json_strings(all.take(0)));
    }
    let mut i: usize = 0;
    while i < items.len()
        invariant
            i <= items.len(),
            all == items.deep_view(),
            s@ == seq!['['] + json_strings(all.take(i as int)),
        decreases items.len() - i,
    {
        proof {
            assert(all.take(i + 1).drop_last() =~= all.take(i as int));
            assert(all.take(i + 1).last() == all[i as int]);
            reveal_strlit(",");
        }
        if i > 0 {
            s.append(",");
        }
        let item = quoted(items[i].as_str());
        s.append(item.as_str());
        assert(s@ =~= seq!['['] + json_strings(all.take(i + 1)));
        i += 1;
    }
    assert(all.take(i as int) =~= all);
    s.push(']');
    assert(s@ =~= json_array(all));
    s
}

// ------------------------------------------------------------------- scalars
/// A truth value.
pub open spec fn json_bool(value: bool) -> Seq<char> {
    if value {
        "true"@
    } else {
        "false"@
    }
}

/// A truth value.
pub fn boolean(value: bool) -> (s: String)
    ensures
        s@ == json_bool(value),
{
    if value {
        "true".to_owned()
    } else {
        "false".to_owned()
    }
}

/// One member of an object.
pub fn member(key: &str, value: String) -> (m: (String, String))
    ensures
        m.deep_view() == (key@, value@),
{
    (key.to_owned(), value)
}

} // verus!
