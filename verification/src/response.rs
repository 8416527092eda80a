//! What the portal answers to an availability query, and what the answer
//! means.

use crate::structs::SchedulerError;
use crate::text::text_eq;
use vstd::prelude::*;

verus! {

/// The error of the `serde_json` crate's decoder.
#[verifier::external_type_specification]
#[verifier::external_body]
pub struct ExJsonError(serde_json::Error);

/// What `serde_json` decodes `body` to when asked for an object: its
/// members by name, each with its text if it is a string and with `None` if
/// it is anything else; or `None` where it rejects the body.
pub uninterp spec fn json_object_fields(body: Seq<u8>) -> Option<
    Map<Seq<char>, Option<Seq<char>>>,
>;

/// A value of an answer as mathematical text.
pub open spec fn value_text(value: Option<String>) -> Option<Seq<char>> {
    match value {
        Some(text) => Some(text@),
        None => None,
    }
}

/// The mapping that results from entering `pairs` one after another, a later
/// pair replacing an earlier one of the same name.
pub open spec fn fields_map(pairs: Seq<(String, Option<String>)>) -> Map<
    Seq<char>,
    Option<Seq<char>>,
>
    decreases pairs.len(),
{
    if pairs.len() == 0 {
        Map::empty()
    } else {
        fields_map(pairs.drop_last()).insert(pairs.last().0@, value_text(pairs.last().1))
    }
}

/// Decodes a JSON object.
///
/// Trusted: `serde_json::from_slice` with the target
/// `HashMap<String, serde_json::Value>`, whose entries are then handed out
/// as pairs, in no particular order; of a value only its text is kept, if
/// it is a string. The contract only gives the outcome its name,
/// [`json_object_fields`]: the decoded mapping is the one that the pairs
/// make up, or the decoder failed.
#[verifier::external_body]
fn decode_object(body: &[u8]) -> (r: Result<Vec<(String, Option<String>)>, serde_json::Error>)
    ensures
        match r {
            Ok(pairs) => json_object_fields(body@) == Some(fields_map(pairs@)),
            Err(_) => json_object_fields(body@) is None,
        },
{
    let fields: std::collections::HashMap<String, serde_json::Value> = serde_json::from_slice(body)?;
    Ok(fields.into_iter().map(|(name, value)| (name, match value {
        serde_json::Value::String(text) => Some(text),
        serde_json::Value::Null => None,
        serde_json::Value::Bool(_) => None,
        serde_json::Value::Number(_) => None,
        serde_json::Value::Array(_) => None,
        serde_json::Value::Object(_) => None,
    })).collect())
}

/// The position of the last pair named `name`, or -1 where there is none.
pub open spec fn last_position(pairs: Seq<(String, Option<String>)>, name: Seq<char>) -> int
    decreases pairs.len(),
{
    if pairs.len() == 0 {
        -1
    } else if pairs.last().0@ == name {
        pairs.len() - 1
    } else {
        last_position(pairs.drop_last(), name)
    }
}

/// A name is a key of the mapping exactly when a pair has it, and the value
/// under it is that of the last such pair.
pub proof fn lemma_fields_map(pairs: Seq<(String, Option<String>)>, name: Seq<char>)
    ensures
        -1 <= last_position(pairs, name) < pairs.len(),
        fields_map(pairs).contains_key(name) <==> last_position(pairs, name) >= 0,
        last_position(pairs, name) >= 0 ==> pairs[last_position(pairs, name)].0@ == name
            && fields_map(pairs)[name] == value_text(pairs[last_position(pairs, name)].1),
    decreases pairs.len(),
{
    if pairs.len() > 0 {
        lemma_fields_map(pairs.drop_last(), name);
    }
}

/// Of the members of an object those that are strings, each with its
/// text.
pub open spec fn text_fields(members: Map<Seq<char>, Option<Seq<char>>>) -> Map<
    Seq<char>,
    Seq<char>,
> {
    Map::new(
        |name: Seq<char>| members.contains_key(name) && members[name] is Some,
        |name: Seq<char>| members[name]->Some_0,
    )
}

/// The decoded answer of the portal: its fields by name, each with its
/// text. Members of the answer that are no strings are no fields.
#[derive(Debug)]
pub struct AvailabilityResponse {
    members: Vec<(String, Option<String>)>,
}

impl View for AvailabilityResponse {
    type V = Map<Seq<char>, Seq<char>>;

    closed spec fn view(&self) -> Map<Seq<char>, Seq<char>> {
        text_fields(fields_map(self.members@))
    }
}

/// The text by which the portal says that an office has no slot.
pub open spec fn no_appointments() -> Seq<char> {
    "No Appointments Available"@
}

/// The decision rule: an office has a slot exactly when the answer has a
/// field `next` that is not the portal's words for "none". An answer
/// without `next` says that there is no slot.
pub open spec fn slot_open(fields: Map<Seq<char>, Seq<char>>) -> bool {
    fields.contains_key("next"@) && fields["next"@] != no_appointments()
}

/// What the body of an answer with the given HTTP status decodes to: the
/// fields of the object that the body holds. An answer outside the 2xx
/// range decodes to nothing, whatever its body, and so does an object
/// whose `next` is no string. Other members that are no strings are left
/// out.
pub open spec fn decoded(status: u16, body: Seq<u8>) -> Option<Map<Seq<char>, Seq<char>>> {
    if 200 <= status < 300 {
        match json_object_fields(body) {
            Some(members) => if members.contains_key("next"@) && members["next"@] is None {
                None
            } else {
                Some(text_fields(members))
            },
            None => None,
        }
    } else {
        None
    }
}

impl AvailabilityResponse {
    /// The answer without any field.
    pub fn new() -> (empty: Self)
        ensures
            empty@ == Map::<Seq<char>, Seq<char>>::empty(),
    {
        let empty = AvailabilityResponse { members: Vec::new() };
        assert(empty@ =~= Map::<Seq<char>, Seq<char>>::empty());
        empty
    }

    /// Sets the field `name` to the text `value`.
    pub fn insert(&mut self, name: String, value: String)
        ensures
            final(self)@ == old(self)@.insert(name@, value@),
    {
        let ghost before = self.members@;
        self.members.push((name, Some(value)));
        assert(self.members@.drop_last() =~= before);
        assert(self@ =~= text_fields(fields_map(before)).insert(name@, value@));
    }

    /// The last member named `name`, if there is one: its text, or `None`
    /// for a member that is no string.
    fn member(&self, name: &str) -> (value: Option<&Option<String>>)
        ensures
            match value {
                Some(found) => fields_map(self.members@).contains_key(name@) && value_text(*found)
                    == fields_map(self.members@)[name@],
                None => !fields_map(self.members@).contains_key(name@),
            },
    {
        let mut i: usize = self.members.len();
        assert(self.members@.take(i as int) =~= self.members@);
        while i > 0
            invariant
                i <= self.members@.len(),
                last_position(self.members@, name@) == last_position(
                    self.members@.take(i as int),
                    name@,
                ),
            decreases i,
        {
            i -= 1;
            assert(self.members@.take(i as int + 1).drop_last() =~= self.members@.take(i as int));
            if text_eq(self.members[i].0.as_str(), name) {
                proof {
                    assert(self.members@.take(i as int + 1).last() == self.members@[i as int]);
                    lemma_fields_map(self.members@, name@);
                }
                return Some(&self.members[i].1);
            }
        }
        proof {
            lemma_fields_map(self.members@, name@);
        }
        None
    }

    /// The text of the field `name`, if the answer has it.
    pub fn get(&self, name: &str) -> (value: Option<&String>)
        ensures
            match value {
                Some(text) => self@.contains_key(name@) && text@ == self@[name@],
                None => !self@.contains_key(name@),
            },
    {
        match self.member(name) {
            Some(Some(text)) => Some(text),
            Some(None) => None,
            None => None,
        }
    }

    /// Whether this answer says that the office has a slot.
    pub fn is_available(&self) -> (open: bool)
        ensures
            open == slot_open(self@),
    {
        match self.get("next") {
            Some(text) => !text_eq(text.as_str(), "No Appointments Available"),
            None => false,
        }
    }
}

/// Decodes the answer to an availability query from its HTTP status and
/// body. An answer outside the 2xx range, a body that is not a JSON object,
/// or an object whose `next` is no string is a transport error and says
/// nothing about slots. Members other than `next` are of no account,
/// whatever they hold.
pub fn decode_response(status: u16, body: &[u8]) -> (r: Result<
    AvailabilityResponse,
    SchedulerError,
>)
    ensures
        match r {
            Ok(response) => decoded(status, body@) == Some(response@),
            Err(e) => decoded(status, body@) is None && e == SchedulerError::TransportError,
        },
{
    if status < 200 || status >= 300 {
        return Err(SchedulerError::TransportError);
    }
    match decode_object(body) {
        Ok(pairs) => {
            let response = AvailabilityResponse { members: pairs };
            match response.member("next") {
                Some(None) => Err(SchedulerError::TransportError),
                _ => Ok(response),
            }
        },
        Err(_) => Err(SchedulerError::TransportError),
    }
}

} // verus!
