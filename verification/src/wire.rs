//! The bodies that go over the wire, as JSON text.
//!
//! A request is a JSON object with the members `q`, `source` and `target`,
//! each a string. An answer is a JSON object whose member `translatedText`
//! is a string; other members are ignored. Reading and writing JSON is left
//! to `serde_json`: the two functions that call it are not verified, and
//! their results are known to the contracts by name only.

use vstd::prelude::*;
use vstd::string::StringExecFns;
use serde_json::Value;
use crate::views::views;

verus! {

/// The JSON string that stands for `text`: in quotes, with the characters
/// escaped that JSON does not take as they are.
pub uninterp spec fn json_text(text: Seq<char>) -> Seq<char>;

/// The members of the JSON object that `document` is, each with its name
/// and, where its value is a string, that string; or `None` where
/// `document` is not one JSON object.
pub uninterp spec fn json_members(document: Seq<char>) -> Option<Seq<MemberView>>;

/// One member of a JSON object: its name, and its value if that is a
/// string.
#[derive(Debug, PartialEq, Eq)]
pub struct Member {
    pub name: String,
    pub text: Option<String>,
}

/// A [`Member`] as the contracts see it.
pub struct MemberView {
    pub name: Seq<char>,
    pub text: Option<Seq<char>>,
}

impl View for Member {
    type V = MemberView;

    open spec fn view(&self) -> MemberView {
        MemberView {
            name: self.name@,
            text: match self.text {
                Some(text) => Some(text@),
                None => None,
            },
        }
    }
}

/// The view of the text, if there is one.
pub open spec fn text_view(text: Option<String>) -> Option<Seq<char>> {
    match text {
        Some(text) => Some(text@),
        None => None,
    }
}

/// The views of the members, if there are any.
pub open spec fn members_view(members: Option<Vec<Member>>) -> Option<Seq<MemberView>> {
    match members {
        Some(list) => Some(views(list@)),
        None => None,
    }
}

/// Calls `serde_json::to_string` on `text`. The contract claims only that
/// the result is a function of the text: it is what [`json_text`] names.
/// Writing a string cannot fail there; the empty text would stand for a
/// failure.
#[verifier::external_body]
fn json_string(text: &str) -> (literal: String)
    ensures
        literal@ == json_text(text@),
{
    serde_json::to_string(text).unwrap_or_default()
}

/// Calls `serde_json::from_str` for a `serde_json::Map` and hands out the
/// members in the map's order, each with its value where that is a
/// `Value::String`. The contract claims only that the result is a function
/// of the document: it is what [`json_members`] names, and `None` where
/// `serde_json` returns an error.
#[verifier::external_body]
fn parse_object(document: &str) -> (members: Option<Vec<Member>>)
    ensures
        members_view(members) == json_members(document@),
{
    match serde_json::from_str::<serde_json::Map<String, Value>>(document) {
        Ok(object) => Some(
            object.into_iter().map(
                |(name, value)| match value {
                    Value::String(text) => Member { name, text: Some(text) },
                    Value::Null => Member { name, text: None },
                    Value::Bool(_) => Member { name, text: None },
                    Value::Number(_) => Member { name, text: None },
                    Value::Array(_) => Member { name, text: None },
                    Value::Object(_) => Member { name, text: None },
                },
            ).collect(),
        ),
        Err(_) => None,
    }
}

/// The name of the member that holds the translation.
pub open spec fn translation_member() -> Seq<char> {
    "translatedText"@
}

/// The text of the first member of `members` that is called `name`, if
/// there is such a member and its value is a string.
pub open spec fn spec_member_text(members: Seq<MemberView>, name: Seq<char>) -> Option<Seq<char>>
    decreases members.len(),
{
    if members.len() == 0 {
        None
    } else if members[0].name == name {
        members[0].text
    } else {
        spec_member_text(members.skip(1), name)
    }
}

/// The translation that an answer with these members holds.
pub open spec fn spec_translation_of(members: Option<Seq<MemberView>>) -> Option<Seq<char>> {
    match members {
        Some(list) => spec_member_text(list, translation_member()),
        None => None,
    }
}

/// The translation that the answer `body` holds: the string that is the
/// value of its member `translatedText`, where the body is a JSON object
/// with such a member.
pub open spec fn spec_decode_translation(body: Seq<char>) -> Option<Seq<char>> {
    spec_translation_of(json_members(body))
}

/// A request made of three JSON strings.
pub open spec fn spec_frame_request(q: Seq<char>, source: Seq<char>, target: Seq<char>) -> Seq<
    char,
> {
    "{\"q\":"@ + q + ",\"source\":"@ + source + ",\"target\":"@ + target + "}"@
}

/// The body of the request for a translation of `segment` into the
/// language `target`, `source` being the language it is written in.
pub open spec fn spec_request_body(segment: Seq<char>, source: Seq<char>, target: Seq<char>) -> Seq<
    char,
> {
    spec_frame_request(json_text(segment), json_text(source), json_text(target))
}

/// The text of the first member called `name`, if its value is a string.
pub fn member_text(members: &Vec<Member>, name: &str) -> (text: Option<String>)
    ensures
        text_view(text) == spec_member_text(views(members@), name@),
{
    let wanted: String = String::from_str(name);
    let ghost all = views(members@);
    let mut i: usize = 0;
    assert(all.skip(0) =~= all);
    while i < members.len()
        invariant
            i <= members.len(),
            wanted@ == name@,
            all == views(members@),
            spec_member_text(all, name@) == spec_member_text(all.skip(i as int), name@),
        decreases members.len() - i,
    {
        proof {
            assert(all.skip(i as int)[0] == members[i as int]@);
            assert(all.skip(i as int).skip(1) =~= all.skip(i + 1));
        }
        if members[i].name == wanted {
            return match &members[i].text {
                Some(text) => Some(text.clone()),
                None => None,
            };
        }
        i = i + 1;
    }
    None
}

/// The translation that an answer with these members holds.
pub fn translation_of(members: Option<Vec<Member>>) -> (text: Option<String>)
    ensures
        text_view(text) == spec_translation_of(members_view(members)),
{
    match members {
        Some(list) => member_text(&list, "translatedText"),
        None => None,
    }
}

/// The translation that the answer `body` holds, if it holds one.
pub fn decode_translation(body: &str) -> (text: Option<String>)
    ensures
        text_view(text) == spec_decode_translation(body@),
{
    translation_of(parse_object(body))
}

/// A request made of three JSON strings.
pub fn frame_request(q: &str, source: &str, target: &str) -> (body: String)
    ensures
        body@ == spec_frame_request(q@, source@, target@),
{
    let mut body: String = String::from_str("{\"q\":");
    body.append(q);
    body.append(",\"source\":");
    body.append(source);
    body.append(",\"target\":");
    body.append(target);
    body.append("}");
    body
}

/// The body of the request for a translation of `segment` into the
/// language `target`, `source` being the language it is written in.
pub fn request_body(segment: &str, source: &str, target: &str) -> (body: String)
    ensures
        body@ == spec_request_body(segment@, source@, target@),
{
    let q: String = json_string(segment);
    let from: String = json_string(source);
    let to: String = json_string(target);
    frame_request(q.as_str(), from.as_str(), to.as_str())
}

} // verus!
