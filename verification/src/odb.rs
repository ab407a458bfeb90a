//! The final ODB of a run: a JSON document of no fixed shape. The library
//! reads it by paths of member names and treats everything else as data that
//! it carries along.

use crate::text::str_eq;
use vstd::prelude::*;

verus! {

/// A JSON value.
#[derive(Debug)]
pub enum Json {
    Null,
    Bool(bool),
    /// A number, by its JSON text.
    Number(String),
    Text(String),
    Array(Vec<Json>),
    /// The members of an object. Where a name stands twice, the first member
    /// counts.
    Object(Vec<(String, Json)>),
}

/// The member called `name` among `members`: the first one with this name.
pub open spec fn member_in(members: Seq<(String, Json)>, name: Seq<char>) -> Option<Json>
    decreases members.len(),
{
    if members.len() == 0 {
        None
    } else if members[0].0@ == name {
        Some(members[0].1)
    } else {
        member_in(members.drop_first(), name)
    }
}

impl Json {
    /// The member called `name`, if this is an object that has one.
    pub open spec fn spec_member(self, name: Seq<char>) -> Option<Json> {
        match self {
            Json::Object(members) => member_in(members@, name),
            _ => None,
        }
    }

    /// The value reached from this one by going from object to member along
    /// the names of `path`. There is none where a name is missing or the value
    /// on the way is no object.
    pub open spec fn spec_lookup(self, path: Seq<Seq<char>>) -> Option<Json>
        decreases path.len(),
    {
        if path.len() == 0 {
            Some(self)
        } else {
            match self.spec_member(path[0]) {
                Some(member) => member.spec_lookup(path.drop_first()),
                None => None,
            }
        }
    }

    /// The items, if this is an array.
    pub open spec fn spec_items(self) -> Option<Seq<Json>> {
        match self {
            Json::Array(items) => Some(items@),
            _ => None,
        }
    }

    /// The characters, if this is a string.
    pub open spec fn spec_text(self) -> Option<Seq<char>> {
        match self {
            Json::Text(text) => Some(text@),
            _ => None,
        }
    }

    /// The member called `name`, if this is an object that has one.
    pub fn member(&self, name: &str) -> (member: Option<&Json>)
        ensures
            match member {
                Some(found) => self.spec_member(name@) == Some(*found),
                None => self.spec_member(name@) is None,
            },
    {
        match self {
            Json::Object(members) => {
                let mut i: usize = 0;
                assert(members@.skip(0) =~= members@);
                while i < members.len()
                    invariant
                        i <= members.len(),
                        self.spec_member(name@) == member_in(members@.skip(i as int), name@),
                    decreases members.len() - i,
                {
                    let ghost rest = members@.skip(i as int);
                    assert(rest[0] == members@[i as int]);
                    assert(rest.drop_first() =~= members@.skip(i + 1));
                    if str_eq(members[i].0.as_str(), name) {
                        assert(member_in(rest, name@) == Some(members@[i as int].1));
                        return Some(&members[i].1);
                    }
                    i += 1;
                }
                None
            },
            _ => None,
        }
    }

    /// Follows `path` from object to member.
    pub fn lookup(&self, path: &[&str]) -> (found: Option<&Json>)
        ensures
            match found {
                Some(value) => self.spec_lookup(names_of(path@)) == Some(*value),
                None => self.spec_lookup(names_of(path@)) is None,
            },
    {
        let ghost names = names_of(path@);
        let mut current: &Json = self;
        let mut i: usize = 0;
        assert(names.skip(0) =~= names);
        while i < path.len()
            invariant
                i <= path.len(),
                names == names_of(path@),
                self.spec_lookup(names) == current.spec_lookup(names.skip(i as int)),
            decreases path.len() - i,
        {
            let ghost rest = names.skip(i as int);
            assert(rest[0] == path@[i as int]@);
            assert(rest.drop_first() =~= names.skip(i + 1));
            match current.member(path[i]) {
                Some(member) => {
                    current = member;
                },
                None => {
                    return None;
                },
            }
            i += 1;
        }
        Some(current)
    }

    /// The items, if this is an array.
    pub fn as_array(&self) -> (items: Option<&Vec<Json>>)
        ensures
            match items {
                Some(found) => self.spec_items() == Some(found@),
                None => self.spec_items() is None,
            },
    {
        match self {
            Json::Array(items) => Some(items),
            _ => None,
        }
    }

    /// The characters, if this is a string.
    pub fn as_str(&self) -> (text: Option<&str>)
        ensures
            match text {
                Some(found) => self.spec_text() == Some(found@),
                None => self.spec_text() is None,
            },
    {
        match self {
            Json::Text(text) => Some(text.as_str()),
            _ => None,
        }
    }
}

/// `serde_json::Value`, carried from the parser to the conversion.
#[verifier::external_type_specification]
#[verifier::external_body]
pub struct ExValue(serde_json::Value);

/// `serde_json::Error`, what the parser says of a text that it refuses.
#[verifier::external_type_specification]
#[verifier::external_body]
pub struct ExJsonError(serde_json::Error);

/// The document that `serde_json::from_str` reads from `text`, or none where
/// it refuses the text.
pub uninterp spec fn json_document(text: Seq<char>) -> Option<Json>;

/// The document that a `serde_json::Value` holds.
pub uninterp spec fn document_of(value: serde_json::Value) -> Json;

/// `serde_json::from_str`, reading a `serde_json::Value`: the parser accepts
/// the text exactly when the text has a document, and the value then holds
/// that document.
#[verifier::external_body]
fn parse_value(text: &str) -> (parsed: Result<serde_json::Value, serde_json::Error>)
    ensures
        match parsed {
            Ok(value) => json_document(text@) == Some(document_of(value)),
            Err(_) => json_document(text@) is None,
        },
{
    serde_json::from_str::<serde_json::Value>(text)
}

/// Copies a `serde_json::Value` into a [`Json`], variant by variant: a number
/// by the text that `serde_json::Number` displays, the members of an object
/// in the order in which `serde_json::Map` yields them.
#[verifier::external_body]
fn json_of_value(value: &serde_json::Value) -> (json: Json)
    ensures
        json == document_of(*value),
{
    match value {
        serde_json::Value::Null => Json::Null,
        serde_json::Value::Bool(b) => Json::Bool(*b),
        serde_json::Value::Number(n) => Json::Number(n.to_string()),
        serde_json::Value::String(s) => Json::Text(s.clone()),
        serde_json::Value::Array(items) => Json::Array(items.iter().map(json_of_value).collect()),
        serde_json::Value::Object(members) => Json::Object(
            members.iter().map(|(name, member)| (name.clone(), json_of_value(member))).collect(),
        ),
    }
}

impl Json {
    /// Reads a JSON document from `text`.
    pub fn parse(text: &str) -> (document: Option<Json>)
        ensures
            document == json_document(text@),
    {
        match parse_value(text) {
            Ok(value) => Some(json_of_value(&value)),
            Err(_) => None,
        }
    }
}

/// The names that a path of string slices spells.
pub open spec fn names_of(path: Seq<&str>) -> Seq<Seq<char>> {
    path.map_values(|name: &str| name@)
}

} // verus!
