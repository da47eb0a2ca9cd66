//! A map from IDs to names, used for custom chat names and for resolved
//! user profiles.

use crate::json::{json_of_text, parse_json_text, JsonValue};
use crate::models::chat::opt_view;
use vstd::prelude::*;

verus! {

/// The map that a list of (key, value) pairs describes; a later pair wins.
pub open spec fn pairs_map(es: Seq<(String, String)>) -> Map<Seq<char>, Seq<char>>
    decreases es.len(),
{
    if es.len() == 0 {
        Map::empty()
    } else {
        pairs_map(es.drop_last()).insert(es.last().0@, es.last().1@)
    }
}

/// Whether no key occurs twice.
pub open spec fn unique_keys(es: Seq<(String, String)>) -> bool {
    forall|i: int, j: int| 0 <= i < j < es.len() ==> (#[trigger] es[i]).0@ != (#[trigger] es[j]).0@
}

/// The keys and values of a list of pairs with unique keys.
pub proof fn lemma_pairs_map(es: Seq<(String, String)>)
    requires
        unique_keys(es),
    ensures
        pairs_map(es).dom().finite(),
        pairs_map(es).dom().len() == es.len(),
        forall|k: Seq<char>|
            #[trigger] pairs_map(es).contains_key(k) <==> exists|j: int|
                0 <= j < es.len() && (#[trigger] es[j]).0@ == k,
        forall|j: int| 0 <= j < es.len() ==> pairs_map(es)[(#[trigger] es[j]).0@] == es[j].1@,
    decreases es.len(),
{
    if es.len() > 0 {
        let init = es.drop_last();
        assert(unique_keys(init)) by {
            assert forall|i: int, j: int| 0 <= i < j < init.len() implies (#[trigger] init[i]).0@
                != (#[trigger] init[j]).0@ by {
                assert(init[i] == es[i] && init[j] == es[j]);
            }
        }
        lemma_pairs_map(init);
        let last = es.last();
        assert(!pairs_map(init).contains_key(last.0@)) by {
            if pairs_map(init).contains_key(last.0@) {
                let j = choose|j: int| 0 <= j < init.len() && (#[trigger] init[j]).0@ == last.0@;
                assert(es[j] == init[j]);
                assert(es[j].0@ != es[es.len() - 1].0@);
            }
        }
        assert forall|k: Seq<char>| #[trigger] pairs_map(es).contains_key(k) <==> exists|j: int|
            0 <= j < es.len() && (#[trigger] es[j]).0@ == k by {
            if pairs_map(init).contains_key(k) {
                let j = choose|j: int| 0 <= j < init.len() && (#[trigger] init[j]).0@ == k;
                assert(es[j] == init[j]);
            }
            if exists|j: int| 0 <= j < es.len() && (#[trigger] es[j]).0@ == k {
                let j = choose|j: int| 0 <= j < es.len() && (#[trigger] es[j]).0@ == k;
                if j < es.len() - 1 {
                    assert(es[j] == init[j]);
                }
            }
        }
        assert forall|j: int| 0 <= j < es.len() implies pairs_map(es)[(#[trigger] es[j]).0@]
            == es[j].1@ by {
            if j < es.len() - 1 {
                assert(es[j] == init[j]);
                assert(es[j].0@ != last.0@);
            }
        }
    }
}

/// A map from IDs to names with set semantics on keys.
#[derive(Debug)]
pub struct NameMap {
    entries: Vec<(String, String)>,
}

impl View for NameMap {
    type V = Map<Seq<char>, Seq<char>>;

    closed spec fn view(&self) -> Map<Seq<char>, Seq<char>> {
        pairs_map(self.entries@)
    }
}

impl NameMap {
    #[verifier::type_invariant]
    spec fn keys_are_unique(self) -> bool {
        unique_keys(self.entries@)
    }

    /// An empty map.
    pub fn new() -> (m: NameMap)
        ensures
            m@ == Map::<Seq<char>, Seq<char>>::empty(),
    {
        NameMap { entries: Vec::new() }
    }

    fn position(&self, key: &str) -> (r: Option<usize>)
        ensures
            match r {
                Some(j) => j < self.entries@.len() && self.entries@[j as int].0@ == key@,
                None => forall|j: int|
                    0 <= j < self.entries@.len() ==> (#[trigger] self.entries@[j]).0@ != key@,
            },
    {
        let k = key.to_owned();
        let mut i: usize = 0;
        while i < self.entries.len()
            invariant
                k@ == key@,
                i <= self.entries@.len(),
                forall|j: int| 0 <= j < i ==> (#[trigger] self.entries@[j]).0@ != key@,
            decreases self.entries@.len() - i,
        {
            if self.entries[i].0 == k {
                return Some(i);
            }
            i = i + 1;
        }
        None
    }

    /// The name stored for `key`.
    pub fn get(&self, key: &str) -> (r: Option<&String>)
        ensures
            match r {
                Some(v) => self@.contains_key(key@) && self@[key@] == v@,
                None => !self@.contains_key(key@),
            },
    {
        proof {
            use_type_invariant(self);
            lemma_pairs_map(self.entries@);
        }
        match self.position(key) {
            Some(j) => Some(&self.entries[j].1),
            None => None,
        }
    }

    /// Number of keys.
    pub fn len(&self) -> (n: usize)
        ensures
            n == self@.len(),
    {
        proof {
            use_type_invariant(self);
            lemma_pairs_map(self.entries@);
        }
        self.entries.len()
    }

    /// Whether the map holds no key.
    pub fn is_empty(&self) -> (b: bool)
        ensures
            b == (self@.len() == 0),
    {
        self.len() == 0
    }

    /// Sets the name of `key`, replacing an earlier one.
    pub fn insert(&mut self, key: String, value: String)
        ensures
            final(self)@ == old(self)@.insert(key@, value@),
    {
        proof {
            use_type_invariant(&*self);
            lemma_pairs_map(self.entries@);
        }
        let pos = self.position(key.as_str());
        let ghost old_map = self@;
        let mut entries: Vec<(String, String)> = Vec::new();
        std::mem::swap(&mut entries, &mut self.entries);
        match pos {
            Some(j) => {
                let ghost before = entries@;
                entries.set(j, (key, value));
                proof {
                    assert(unique_keys(entries@)) by {
                        assert forall|a: int, b: int| 0 <= a < b < entries@.len() implies (
                        #[trigger] entries@[a]).0@ != (#[trigger] entries@[b]).0@ by {
                            if a != j && b != j {
                                assert(entries@[a] == before[a] && entries@[b] == before[b]);
                            } else if a == j {
                                assert(entries@[b] == before[b]);
                            } else {
                                assert(entries@[a] == before[a]);
                            }
                        }
                    }
                    lemma_pairs_map(entries@);
                    assert(pairs_map(entries@) =~= old_map.insert(key@, value@)) by {
                        assert forall|k: Seq<char>| #[trigger] pairs_map(entries@).contains_key(k)
                            <==> old_map.insert(key@, value@).contains_key(k) by {
                            if exists|i: int| 0 <= i < entries@.len() && (#[trigger] entries@[i]).0@ == k {
                                let i = choose|i: int| 0 <= i < entries@.len() && (#[trigger] entries@[i]).0@ == k;
                                if i != j {
                                    assert(entries@[i] == before[i]);
                                }
                            }
                            if old_map.contains_key(k) {
                                let i = choose|i: int| 0 <= i < before.len() && (#[trigger] before[i]).0@ == k;
                                if i != j {
                                    assert(entries@[i] == before[i]);
                                } else {
                                    assert(entries@[j as int].0@ == key@);
                                }
                            }
                            assert(entries@[j as int].0@ == key@);
                        }
                        assert forall|k: Seq<char>| #[trigger] pairs_map(entries@).contains_key(k)
                            implies pairs_map(entries@)[k] == old_map.insert(key@, value@)[k] by {
                            let i = choose|i: int| 0 <= i < entries@.len() && (#[trigger] entries@[i]).0@ == k;
                            if i != j {
                                assert(entries@[i] == before[i]);
                            }
                        }
                    }
                }
            },
            None => {
                let ghost before = entries@;
                entries.push((key, value));
                proof {
                    assert(unique_keys(entries@)) by {
                        assert forall|a: int, b: int| 0 <= a < b < entries@.len() implies (
                        #[trigger] entries@[a]).0@ != (#[trigger] entries@[b]).0@ by {
                            assert(entries@[a] == before[a]);
                            if b < before.len() {
                                assert(entries@[b] == before[b]);
                            }
                        }
                    }
                    assert(entries@.drop_last() =~= before);
                }
            },
        }
        self.entries = entries;
    }

    /// Removes `key` and its name.
    pub fn remove(&mut self, key: &str)
        ensures
            final(self)@ == old(self)@.remove(key@),
    {
        proof {
            use_type_invariant(&*self);
            lemma_pairs_map(self.entries@);
        }
        let ghost old_map = self@;
        match self.position(key) {
            Some(j) => {
                let mut entries: Vec<(String, String)> = Vec::new();
                std::mem::swap(&mut entries, &mut self.entries);
                let ghost before = entries@;
                let _removed = entries.remove(j);
                proof {
                    assert forall|a: int| 0 <= a < entries@.len() implies #[trigger] entries@[a]
                        == before[if a < j { a } else { a + 1 }] by {}
                    assert(unique_keys(entries@)) by {
                        assert forall|a: int, b: int| 0 <= a < b < entries@.len() implies (
                        #[trigger] entries@[a]).0@ != (#[trigger] entries@[b]).0@ by {
                            let a2 = if a < j { a } else { a + 1 };
                            let b2 = if b < j { b } else { b + 1 };
                            assert(entries@[a] == before[a2]);
                            assert(entries@[b] == before[b2]);
                        }
                    }
                    lemma_pairs_map(entries@);
                    assert(pairs_map(entries@) =~= old_map.remove(key@)) by {
                        assert forall|k: Seq<char>| #[trigger] pairs_map(entries@).contains_key(k)
                            <==> old_map.remove(key@).contains_key(k) by {
                            if exists|i: int| 0 <= i < entries@.len() && (#[trigger] entries@[i]).0@ == k {
                                let i = choose|i: int| 0 <= i < entries@.len() && (#[trigger] entries@[i]).0@ == k;
                                let i2 = if i < j { i } else { i + 1 };
                                assert(entries@[i] == before[i2]);
                            }
                            if old_map.remove(key@).contains_key(k) {
                                let i = choose|i: int| 0 <= i < before.len() && (#[trigger] before[i]).0@ == k;
                                assert(i != j);
                                let i3 = if i < j { i } else { i - 1 };
                                assert(entries@[i3] == before[i]);
                            }
                        }
                        assert forall|k: Seq<char>| #[trigger] pairs_map(entries@).contains_key(k)
                            implies pairs_map(entries@)[k] == old_map.remove(key@)[k] by {
                            let i = choose|i: int| 0 <= i < entries@.len() && (#[trigger] entries@[i]).0@ == k;
                            let i2 = if i < j { i } else { i + 1 };
                            assert(entries@[i] == before[i2]);
                        }
                    }
                }
                self.entries = entries;
            },
            None => {
                proof {
                    assert(old_map.remove(key@) =~= old_map);
                }
            },
        }
    }

    /// The (key, name) pairs, each key once.
    pub fn pairs(&self) -> (r: Vec<(String, String)>)
        ensures
            unique_keys(r@),
            pairs_map(r@) == self@,
            r@.len() == self@.len(),
            forall|j: int|
                0 <= j < r@.len() ==> self@.contains_key((#[trigger] r@[j]).0@) && self@[r@[j].0@]
                    == r@[j].1@,
            forall|k: Seq<char>|
                #[trigger] self@.contains_key(k) ==> exists|j: int|
                    0 <= j < r@.len() && (#[trigger] r@[j]).0@ == k,
    {
        proof {
            use_type_invariant(self);
            lemma_pairs_map(self.entries@);
        }
        let mut r: Vec<(String, String)> = Vec::new();
        let mut i: usize = 0;
        while i < self.entries.len()
            invariant
                i <= self.entries@.len(),
                r@.len() == i,
                forall|j: int|
                    0 <= j < i ==> (#[trigger] r@[j]).0@ == self.entries@[j].0@ && r@[j].1@
                        == self.entries@[j].1@,
            decreases self.entries@.len() - i,
        {
            r.push((self.entries[i].0.clone(), self.entries[i].1.clone()));
            i = i + 1;
        }
        proof {
            assert forall|k: Seq<char>| #[trigger] self@.contains_key(k) implies exists|j: int|
                0 <= j < r@.len() && (#[trigger] r@[j]).0@ == k by {
                let j = choose|j: int| 0 <= j < self.entries@.len() && (#[trigger] self.entries@[j]).0@ == k;
                assert(r@[j].0@ == k);
            }
            assert forall|j: int| 0 <= j < r@.len() implies self@.contains_key((#[trigger] r@[j]).0@)
                && self@[r@[j].0@] == r@[j].1@ by {
                assert(self.entries@[j].0@ == r@[j].0@);
            }
            assert forall|i: int, j: int| 0 <= i < j < r@.len() implies (#[trigger] r@[i]).0@
                != (#[trigger] r@[j]).0@ by {
                assert(self.entries@[i].0@ == r@[i].0@ && self.entries@[j].0@ == r@[j].0@);
            }
            lemma_pairs_map(r@);
            assert forall|k: Seq<char>| #[trigger] pairs_map(r@).contains_key(k)
                <==> self@.contains_key(k) by {
                if pairs_map(r@).contains_key(k) {
                    let j = choose|j: int| 0 <= j < r@.len() && (#[trigger] r@[j]).0@ == k;
                    assert(self.entries@[j].0@ == k);
                }
            }
            assert forall|k: Seq<char>| pairs_map(r@).contains_key(k) implies #[trigger] pairs_map(
                r@,
            )[k] == self@[k] by {
                let j = choose|j: int| 0 <= j < r@.len() && (#[trigger] r@[j]).0@ == k;
                assert(self.entries@[j].0@ == k);
            }
            assert(pairs_map(r@) =~= self@);
        }
        r
    }
}

/// The name to show for a chat: its custom name when one is set and not
/// empty, otherwise the original name.
pub open spec fn resolved_name(
    chat_id: Seq<char>,
    original: Seq<char>,
    custom: Map<Seq<char>, Seq<char>>,
) -> Seq<char> {
    if custom.contains_key(chat_id) && custom[chat_id].len() > 0 {
        custom[chat_id]
    } else {
        original
    }
}

/// Custom name law: after a chat is given a non-empty custom name it is shown
/// under that name; after its custom name is removed it is shown under its
/// own name; other chats are not affected by either.
pub proof fn lemma_custom_name_roundtrip(
    custom: Map<Seq<char>, Seq<char>>,
    id: Seq<char>,
    name: Seq<char>,
    original: Seq<char>,
)
    ensures
        name.len() > 0 ==> resolved_name(id, original, custom.insert(id, name)) == name,
        resolved_name(id, original, custom.remove(id)) == original,
        forall|other: Seq<char>, shown: Seq<char>|
            other != id ==> resolved_name(other, shown, custom.insert(id, name)) == resolved_name(
                other,
                shown,
                custom,
            ) && resolved_name(other, shown, custom.remove(id)) == resolved_name(other, shown, custom),
{
}

/// Return the custom name if set, otherwise the original name.
pub fn resolve_display_name(chat_id: &str, original: &str, custom_names: &NameMap) -> (r: String)
    ensures
        r@ == resolved_name(chat_id@, original@, custom_names@),
{
    match custom_names.get(chat_id) {
        Some(custom) => {
            if !custom.as_str().is_empty() {
                return custom.clone();
            }
        },
        None => {},
    }
    original.to_owned()
}

/// The profiles map of a list of users: every user with a non-empty `mri`
/// and `displayName` maps the one to the other, a later user winning.
pub open spec fn profiles_map(users: Seq<JsonValue>) -> Map<Seq<char>, Seq<char>>
    decreases users.len(),
{
    if users.len() == 0 {
        Map::empty()
    } else {
        let prev = profiles_map(users.drop_last());
        let u = users.last();
        let mri = match u.field_str("mri"@) {
            Some(s) => s,
            None => Seq::empty(),
        };
        let name = match u.field_str("displayName"@) {
            Some(s) => s,
            None => Seq::empty(),
        };
        if mri.len() > 0 && name.len() > 0 {
            prev.insert(mri, name)
        } else {
            prev
        }
    }
}

/// The profiles of a fetchFederated response: its `value` array's users, or
/// none when it has no such array.
pub open spec fn federated_profiles(response: JsonValue) -> Map<Seq<char>, Seq<char>> {
    match response.field_array("value"@) {
        Some(users) => profiles_map(users),
        None => Map::empty(),
    }
}

/// Parse a fetchFederated response into a map of MRI to displayName, used to
/// resolve the names of users of external organizations.
pub fn federated_profiles_of_value(response: &JsonValue) -> (r: NameMap)
    ensures
        r@ == federated_profiles(*response),
{
    let mut result = NameMap::new();
    match response.get_array("value") {
        Some(users) => {
            let mut i: usize = 0;
            while i < users.len()
                invariant
                    i <= users@.len(),
                    result@ == profiles_map(users@.take(i as int)),
                decreases users@.len() - i,
            {
                let user = &users[i];
                proof {
                    assert(users@.take(i + 1).drop_last() =~= users@.take(i as int));
                    assert(users@.take(i + 1).last() == users@[i as int]);
                    assert(""@ =~= Seq::<char>::empty()) by {
                        reveal_strlit("");
                    }
                }
                let mri = user.get_str_or("mri", "");
                let name = user.get_str_or("displayName", "");
                if !mri.as_str().is_empty() && !name.as_str().is_empty() {
                    result.insert(mri, name);
                }
                i = i + 1;
            }
            proof {
                assert(users@.take(users@.len() as int) =~= users@);
            }
        },
        None => {},
    }
    result
}

/// The profile map of a fetchFederated response given as text: empty when
/// the text is not JSON.
pub open spec fn federated_profiles_of_text(json: Seq<char>) -> Map<Seq<char>, Seq<char>> {
    match json_of_text(json) {
        Some(v) => federated_profiles(v),
        None => Map::empty(),
    }
}

/// Parse a fetchFederated API response into a map of MRI to displayName,
/// used to resolve the names of users of external organizations; an empty
/// map when the text is not JSON.
pub fn parse_federated_profiles(json: &str) -> (r: NameMap)
    ensures
        r@ == federated_profiles_of_text(json@),
{
    match parse_json_text(json) {
        Some(v) => federated_profiles_of_value(&v),
        None => NameMap::new(),
    }
}


// ---------------------------------------------------------------------------
// Stored custom names
// ---------------------------------------------------------------------------

/// Whether every member of an object is a string.
pub open spec fn all_string_members(fields: Seq<(String, JsonValue)>) -> bool {
    forall|i: int| 0 <= i < fields.len() ==> (#[trigger] fields[i]).1 is Str
}

/// The map of an object's string members, a later key winning.
pub open spec fn members_map(fields: Seq<(String, JsonValue)>) -> Map<Seq<char>, Seq<char>>
    decreases fields.len(),
{
    if fields.len() == 0 {
        Map::empty()
    } else {
        let last = fields.last();
        let value = match last.1 {
            JsonValue::Str(v) => v@,
            _ => Seq::empty(),
        };
        members_map(fields.drop_last()).insert(last.0@, value)
    }
}

/// The custom chat names stored as JSON text: the members of the top-level
/// object when every value is a string (a later key wins); empty when the
/// text is not JSON, not an object, or holds a value that is not a string.
pub open spec fn custom_names_of_text(text: Seq<char>) -> Map<Seq<char>, Seq<char>> {
    match json_of_text(text) {
        Some(JsonValue::Object(fields)) => if all_string_members(fields@) {
            members_map(fields@)
        } else {
            Map::empty()
        },
        _ => Map::empty(),
    }
}

/// The names of an object's members when all of them are strings; else none.
fn names_of_members(fields: &Vec<(String, JsonValue)>) -> (r: NameMap)
    ensures
        r@ == if all_string_members(fields@) {
            members_map(fields@)
        } else {
            Map::empty()
        },
{
    let mut names = NameMap::new();
    let mut i: usize = 0;
    proof {
        assert(fields@.take(0) =~= Seq::<(String, JsonValue)>::empty());
    }
    while i < fields.len()
        invariant
            i <= fields@.len(),
            names@ == members_map(fields@.take(i as int)),
            all_string_members(fields@.take(i as int)),
        decreases fields@.len() - i,
    {
        proof {
            assert(fields@.take(i + 1).drop_last() =~= fields@.take(i as int));
            assert(fields@.take(i + 1).last() == fields@[i as int]);
        }
        match &fields[i].1 {
            JsonValue::Str(v) => {
                names.insert(fields[i].0.clone(), v.clone());
                proof {
                    let t = fields@.take(i + 1);
                    assert forall|j: int| 0 <= j < t.len() implies (#[trigger] t[j]).1 is Str by {
                        if j < i {
                            assert(t[j] == fields@.take(i as int)[j]);
                        }
                    }
                }
            },
            _ => {
                proof {
                    assert(!(fields@[i as int].1 is Str));
                }
                return NameMap::new();
            },
        }
        i = i + 1;
    }
    proof {
        assert(fields@.take(fields@.len() as int) =~= fields@);
    }
    names
}

/// Read the custom chat names stored as JSON text; an empty map on any
/// error.
pub fn parse_custom_names(text: &str) -> (r: NameMap)
    ensures
        r@ == custom_names_of_text(text@),
{
    match parse_json_text(text) {
        Some(JsonValue::Object(fields)) => names_of_members(&fields),
        _ => NameMap::new(),
    }
}

/// What `serde_json::to_string_pretty` writes for a map of strings to
/// strings; `None` when it reports an error.
pub uninterp spec fn pretty_json_of_names(names: Map<Seq<char>, Seq<char>>) -> Option<Seq<char>>;

/// `serde_json::to_string_pretty` on the pairs collected into a `BTreeMap`
/// (a later pair wins, members come out in key order), so that the text
/// depends only on the map the pairs describe. The contract names that text;
/// its content is left unsaid.
#[verifier::external_body]
fn pretty_json_of_pairs(pairs: &Vec<(String, String)>) -> (r: Option<String>)
    ensures
        opt_view(r) == pretty_json_of_names(pairs_map(pairs@)),
{
    let map: std::collections::BTreeMap<&String, &String> = pairs.iter().map(|p| (&p.0, &p.1)).collect();
    serde_json::to_string_pretty(&map).ok()
}

/// The custom chat names as pretty-printed JSON text, to be stored;
/// `None` when serde_json cannot write them.
pub fn custom_names_json(names: &NameMap) -> (r: Option<String>)
    ensures
        opt_view(r) == pretty_json_of_names(names@),
{
    let pairs = names.pairs();
    pretty_json_of_pairs(&pairs)
}

} // verus!
