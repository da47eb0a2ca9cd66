//! A JSON document tree, the shape in which the Teams services answer.
//!
//! Text becomes a `JsonValue` through `parse_json_or_error` (serde_json's parser);
//! everything the library reads out of a response goes through the accessors
//! below, whose results are stated over the tree itself.

use vstd::prelude::*;

verus! {

/// A JSON number, classified the way the readers of a response use it.
pub enum JsonNumber {
    /// A non-negative integer.
    PosInt(u64),
    /// A negative integer.
    NegInt(i64),
    /// Any number with a fraction or exponent.
    Float,
}

/// A JSON value. Object members are in the order the parser yields them
/// (serde_json's map, which orders them by key); lookups return the first
/// member with the key.
pub enum JsonValue {
    Null,
    Bool(bool),
    Number(JsonNumber),
    Str(String),
    Array(Vec<JsonValue>),
    Object(Vec<(String, JsonValue)>),
}

/// The value of the first member of `fields` named `key`.
pub open spec fn lookup(fields: Seq<(String, JsonValue)>, key: Seq<char>) -> Option<JsonValue>
    decreases fields.len(),
{
    if fields.len() == 0 {
        None
    } else if fields[0].0@ == key {
        Some(fields[0].1)
    } else {
        lookup(fields.drop_first(), key)
    }
}

/// Dereferences an optional reference.
pub open spec fn deref_opt<'a, T>(o: Option<&'a T>) -> Option<T> {
    match o {
        Some(v) => Some(*v),
        None => None,
    }
}

/// The character view of an optional string slice.
pub open spec fn opt_str_view<'a>(o: Option<&'a str>) -> Option<Seq<char>> {
    match o {
        Some(s) => Some(s@),
        None => None,
    }
}

impl JsonValue {
    /// `value.get(key)`: the member `key` of an object, `None` otherwise.
    pub open spec fn field(self, key: Seq<char>) -> Option<JsonValue> {
        match self {
            JsonValue::Object(fields) => lookup(fields@, key),
            _ => None,
        }
    }

    /// `value.as_str()`.
    pub open spec fn str_of(self) -> Option<Seq<char>> {
        match self {
            JsonValue::Str(s) => Some(s@),
            _ => None,
        }
    }

    /// `value.as_array()`.
    pub open spec fn array_of(self) -> Option<Seq<JsonValue>> {
        match self {
            JsonValue::Array(items) => Some(items@),
            _ => None,
        }
    }

    /// `value.as_u64()`.
    pub open spec fn u64_of(self) -> Option<u64> {
        match self {
            JsonValue::Number(JsonNumber::PosInt(n)) => Some(n),
            _ => None,
        }
    }

    /// `value.as_i64()`.
    pub open spec fn i64_of(self) -> Option<i64> {
        match self {
            JsonValue::Number(JsonNumber::PosInt(n)) => if n <= i64::MAX {
                Some(n as i64)
            } else {
                None
            },
            JsonValue::Number(JsonNumber::NegInt(n)) => Some(n),
            _ => None,
        }
    }

    /// `value.as_bool()`.
    pub open spec fn bool_of(self) -> Option<bool> {
        match self {
            JsonValue::Bool(b) => Some(b),
            _ => None,
        }
    }

    /// `value.get(key).and_then(as_str)`.
    pub open spec fn field_str(self, key: Seq<char>) -> Option<Seq<char>> {
        match self.field(key) {
            Some(v) => v.str_of(),
            None => None,
        }
    }

    /// `value.get(key).and_then(as_array)`.
    pub open spec fn field_array(self, key: Seq<char>) -> Option<Seq<JsonValue>> {
        match self.field(key) {
            Some(v) => v.array_of(),
            None => None,
        }
    }

    /// `value.get(key).and_then(as_u64)`.
    pub open spec fn field_u64(self, key: Seq<char>) -> Option<u64> {
        match self.field(key) {
            Some(v) => v.u64_of(),
            None => None,
        }
    }

    /// `value.get(key).and_then(as_i64)`.
    pub open spec fn field_i64(self, key: Seq<char>) -> Option<i64> {
        match self.field(key) {
            Some(v) => v.i64_of(),
            None => None,
        }
    }

    /// `value.get(key).and_then(as_bool)`.
    pub open spec fn field_bool(self, key: Seq<char>) -> Option<bool> {
        match self.field(key) {
            Some(v) => v.bool_of(),
            None => None,
        }
    }

    /// `value.get(key)`.
    pub fn get(&self, key: &str) -> (r: Option<&JsonValue>)
        ensures
            deref_opt(r) == self.field(key@),
    {
        match self {
            JsonValue::Object(fields) => {
                let k = key.to_owned();
                let mut i: usize = 0;
                proof {
                    assert(fields@.skip(0) =~= fields@);
                }
                while i < fields.len()
                    invariant
                        k@ == key@,
                        self.field(key@) == lookup(fields@, key@),
                        i <= fields.len(),
                        lookup(fields@, key@) == lookup(fields@.skip(i as int), key@),
                    decreases fields.len() - i,
                {
                    proof {
                        assert(fields@.skip(i as int)[0] == fields@[i as int]);
                        assert(fields@.skip(i as int).drop_first() =~= fields@.skip(i + 1));
                    }
                    if fields[i].0 == k {
                        proof {
                            assert(lookup(fields@.skip(i as int), key@) == Some(fields@[i as int].1));
                        }
                        return Some(&fields[i].1);
                    }
                    i = i + 1;
                }
                None
            },
            _ => None,
        }
    }

    /// `value.as_str()`.
    pub fn as_str(&self) -> (r: Option<&str>)
        ensures
            opt_str_view(r) == self.str_of(),
    {
        match self {
            JsonValue::Str(s) => Some(s.as_str()),
            _ => None,
        }
    }

    /// `value.as_array()`.
    pub fn as_array(&self) -> (r: Option<&Vec<JsonValue>>)
        ensures
            match r {
                Some(v) => self.array_of() == Some(v@),
                None => self.array_of().is_none(),
            },
    {
        match self {
            JsonValue::Array(items) => Some(items),
            _ => None,
        }
    }

    /// `value.as_u64()`.
    pub fn as_u64(&self) -> (r: Option<u64>)
        ensures
            r == self.u64_of(),
    {
        match self {
            JsonValue::Number(JsonNumber::PosInt(n)) => Some(*n),
            _ => None,
        }
    }

    /// `value.as_i64()`.
    pub fn as_i64(&self) -> (r: Option<i64>)
        ensures
            r == self.i64_of(),
    {
        match self {
            JsonValue::Number(JsonNumber::PosInt(n)) => {
                if *n <= i64::MAX as u64 {
                    Some(*n as i64)
                } else {
                    None
                }
            },
            JsonValue::Number(JsonNumber::NegInt(n)) => Some(*n),
            _ => None,
        }
    }

    /// `value.as_bool()`.
    pub fn as_bool(&self) -> (r: Option<bool>)
        ensures
            r == self.bool_of(),
    {
        match self {
            JsonValue::Bool(b) => Some(*b),
            _ => None,
        }
    }

    /// `value.get(key).and_then(|v| v.as_str())`.
    pub fn get_str(&self, key: &str) -> (r: Option<&str>)
        ensures
            opt_str_view(r) == self.field_str(key@),
    {
        match self.get(key) {
            Some(v) => v.as_str(),
            None => None,
        }
    }

    /// `value.get(key).and_then(|v| v.as_str()).unwrap_or(default)`, owned.
    pub fn get_str_or(&self, key: &str, default: &str) -> (r: String)
        ensures
            r@ == match self.field_str(key@) {
                Some(s) => s,
                None => default@,
            },
    {
        match self.get_str(key) {
            Some(s) => s.to_owned(),
            None => default.to_owned(),
        }
    }

    /// `value.get(key).and_then(|v| v.as_array())`.
    pub fn get_array(&self, key: &str) -> (r: Option<&Vec<JsonValue>>)
        ensures
            match r {
                Some(v) => self.field_array(key@) == Some(v@),
                None => self.field_array(key@).is_none(),
            },
    {
        match self.get(key) {
            Some(v) => v.as_array(),
            None => None,
        }
    }

    /// `value.get(key).and_then(|v| v.as_u64())`.
    pub fn get_u64(&self, key: &str) -> (r: Option<u64>)
        ensures
            r == self.field_u64(key@),
    {
        match self.get(key) {
            Some(v) => v.as_u64(),
            None => None,
        }
    }

    /// `value.get(key).and_then(|v| v.as_i64())`.
    pub fn get_i64(&self, key: &str) -> (r: Option<i64>)
        ensures
            r == self.field_i64(key@),
    {
        match self.get(key) {
            Some(v) => v.as_i64(),
            None => None,
        }
    }

    /// `value.get(key).and_then(|v| v.as_bool())`.
    pub fn get_bool(&self, key: &str) -> (r: Option<bool>)
        ensures
            r == self.field_bool(key@),
    {
        match self.get(key) {
            Some(v) => v.as_bool(),
            None => None,
        }
    }
}

/// `value.get(key)` for an owned value: the member `key` of an object,
/// moved out; `None` otherwise.
pub fn take_field(value: JsonValue, key: &str) -> (r: Option<JsonValue>)
    ensures
        r == value.field(key@),
{
    match value {
        JsonValue::Object(fields0) => {
            let mut fields = fields0;
            let ghost all = fields@;
            let mut i: usize = 0;
            let mut found = false;
            proof {
                assert(all.skip(0) =~= all);
            }
            while i < fields.len()
                invariant_except_break
                    !found,
                    lookup(all, key@) == lookup(all.skip(i as int), key@),
                invariant
                    fields@ == all,
                    i <= fields.len(),
                ensures
                    found ==> i < fields.len() && lookup(all, key@) == Some(all[i as int].1),
                    !found ==> lookup(all, key@).is_none(),
                decreases fields.len() - i,
            {
                proof {
                    assert(all.skip(i as int)[0] == all[i as int]);
                    assert(all.skip(i as int).drop_first() =~= all.skip(i + 1));
                }
                if crate::text::eq_str(fields[i].0.as_str(), key) {
                    found = true;
                    break;
                }
                i = i + 1;
            }
            if found {
                let pair = fields.remove(i);
                Some(pair.1)
            } else {
                None
            }
        },
        _ => None,
    }
}
// ---------------------------------------------------------------------------
// Parsing text
// ---------------------------------------------------------------------------

/// serde_json's document value, which the parser produces.
#[verifier::external_type_specification]
#[verifier::external_body]
pub struct ExSerdeJsonValue(serde_json::Value);

/// What serde_json makes of `text`: the tree it reads, or the message of the
/// error it reports when the text is not JSON.
pub uninterp spec fn json_parse_of_text(text: Seq<char>) -> Result<JsonValue, Seq<char>>;

/// The tree that serde_json reads from `text`; `None` when the text is not
/// JSON.
pub open spec fn json_of_text(text: Seq<char>) -> Option<JsonValue> {
    match json_parse_of_text(text) {
        Ok(v) => Some(v),
        Err(_) => None,
    }
}

/// The message of serde_json's error for `text` (empty when the text is
/// JSON).
pub open spec fn json_error_of_text(text: Seq<char>) -> Seq<char> {
    match json_parse_of_text(text) {
        Ok(_) => Seq::empty(),
        Err(m) => m,
    }
}

/// A serde_json value as this library's tree: integers by sign, any other
/// number as `Float`, object members in the map's order. Nothing is stated
/// of the result; `parse_json_or_error` names what the two calls give together.
#[verifier::external_body]
fn tree_of_serde(v: &serde_json::Value) -> JsonValue {
    match v {
        serde_json::Value::Null => JsonValue::Null,
        serde_json::Value::Bool(b) => JsonValue::Bool(*b),
        serde_json::Value::Number(n) => JsonValue::Number(match (n.as_u64(), n.as_i64()) {
            (Some(u), _) => JsonNumber::PosInt(u),
            (None, Some(i)) => JsonNumber::NegInt(i),
            _ => JsonNumber::Float,
        }),
        serde_json::Value::String(t) => JsonValue::Str(t.clone()),
        serde_json::Value::Array(a) => JsonValue::Array(a.iter().map(tree_of_serde).collect()),
        serde_json::Value::Object(m) => JsonValue::Object(m.iter().map(member_of_serde).collect()),
    }
}

/// One member of a serde_json object as a (key, tree) pair.
#[verifier::external_body]
fn member_of_serde(member: (&String, &serde_json::Value)) -> (String, JsonValue) {
    (member.0.clone(), tree_of_serde(member.1))
}

/// `serde_json::from_str::<serde_json::Value>`, as this library's tree, or
/// the error's message (its `Display` text). The contract names the result:
/// the same text always gives the same tree or message. What serde_json
/// accepts, and the wording of its messages, are left unsaid.
#[verifier::external_body]
pub(crate) fn parse_json_or_error(text: &str) -> (r: Result<JsonValue, String>)
    ensures
        match r {
            Ok(v) => json_parse_of_text(text@) == Ok::<JsonValue, Seq<char>>(v),
            Err(m) => json_parse_of_text(text@) == Err::<JsonValue, Seq<char>>(m@),
        },
{
    match serde_json::from_str::<serde_json::Value>(text) {
        Ok(v) => Ok(tree_of_serde(&v)),
        Err(e) => Err(e.to_string()),
    }
}

/// The tree that serde_json reads from `text`; `None` when it is not JSON.
pub(crate) fn parse_json_text(text: &str) -> (r: Option<JsonValue>)
    ensures
        r == json_of_text(text@),
{
    match parse_json_or_error(text) {
        Ok(v) => Some(v),
        Err(_) => None,
    }
}

} // verus!
