//! Follow-up work on the chat list: which user names to resolve, applying
//! resolved names, and counting unread messages.

use crate::gui::chatsvc::or_empty;
use crate::gui::screen::{
    bare_id, bare_id_str, entries_view, lemma_before_first_at, ChatEntry, ChatEntryView,
};
use crate::json::{json_of_text, parse_json_text, JsonValue};
use crate::num::{parse_u64, parse_u64_spec};
use crate::text::{
    before_first, before_first_str, concat, contains, contains_seq, has_char, is_prefix_of,
    lemma_split_two, split_chars, split_seq, starts_with, strip_prefix_or_self_str,
};
use vstd::prelude::*;

verus! {

/// Whether a chat is still shown under a placeholder user label.
pub open spec fn shows_user_label(display_name: Seq<char>) -> bool {
    is_prefix_of("💬 User "@, display_name)
}

/// The MRI of the other participant of a 1:1 chat that still shows a user
/// label: its ID "19:{a}_{b}@..." names two users, and the one that does not
/// start with my bare ID is the other.
pub open spec fn mri_to_resolve(c: ChatEntryView, my_bare_id: Seq<char>) -> Option<Seq<char>> {
    if shows_user_label(c.display_name) && is_prefix_of("19:"@, c.id) {
        let inner = before_first(c.id.subrange(3, c.id.len() as int), '@');
        let parts = split_seq(inner, '_');
        if parts.len() == 2 {
            Some(
                "8:orgid:"@ + if is_prefix_of(my_bare_id, parts[0]) {
                    parts[1]
                } else {
                    parts[0]
                },
            )
        } else {
            None
        }
    } else {
        None
    }
}

/// Resolution law: for a chat "19:{a}_{b}@..." still shown under a user
/// label, the MRI to resolve is "8:orgid:" and the side that is the other
/// user: `b` when `a` starts with my bare ID, `a` otherwise (so never my own
/// MRI when `b` is my ID and `a` another user's).
pub proof fn lemma_mri_names_the_other_side(
    c: ChatEntryView,
    my_bare_id: Seq<char>,
    a: Seq<char>,
    b: Seq<char>,
    rest: Seq<char>,
)
    requires
        shows_user_label(c.display_name),
        c.id == "19:"@ + a + seq!['_'] + b + seq!['@'] + rest,
        !has_char(a, '_'),
        !has_char(a, '@'),
        !has_char(b, '_'),
        !has_char(b, '@'),
    ensures
        is_prefix_of(my_bare_id, a) ==> mri_to_resolve(c, my_bare_id) == Some("8:orgid:"@ + b),
        !is_prefix_of(my_bare_id, a) ==> mri_to_resolve(c, my_bare_id) == Some("8:orgid:"@ + a),
{
    reveal_strlit("19:");
    let ab = a + seq!['_'] + b;
    let tail = ab + seq!['@'] + rest;
    assert(c.id =~= "19:"@ + tail);
    assert(c.id.subrange(0, 3) =~= "19:"@);
    assert(is_prefix_of("19:"@, c.id));
    assert(c.id.subrange(3, c.id.len() as int) =~= tail);
    assert forall|j: int| 0 <= j < ab.len() implies tail[j] != '@' by {
        assert(tail[j] == ab[j]);
        if j < a.len() {
            assert(ab[j] == a[j]);
            if a[j] == '@' {
                assert(has_char(a, '@'));
            }
        } else if j > a.len() {
            assert(ab[j] == b[j - a.len() - 1]);
            if b[j - a.len() - 1] == '@' {
                assert(has_char(b, '@'));
            }
        }
    }
    assert(tail[ab.len() as int] == '@');
    lemma_before_first_at(tail, '@', ab.len() as int);
    assert(tail.subrange(0, ab.len() as int) =~= ab);
    lemma_split_two(a, b, '_');
}

/// The MRIs to resolve, in chat order.
pub open spec fn mris_to_resolve_spec(chats: Seq<ChatEntryView>, my_bare_id: Seq<char>) -> Seq<
    Seq<char>,
>
    decreases chats.len(),
{
    if chats.len() == 0 {
        Seq::empty()
    } else {
        let prev = mris_to_resolve_spec(chats.drop_last(), my_bare_id);
        match mri_to_resolve(chats.last(), my_bare_id) {
            Some(m) => prev.push(m),
            None => prev,
        }
    }
}

/// The views of a sequence of strings.
pub open spec fn string_views(s: Seq<String>) -> Seq<Seq<char>> {
    s.map_values(|x: String| x@)
}

/// The MRIs of the other users of the 1:1 chats that still show a user
/// label, in chat order.
pub fn mris_to_resolve(chats: &Vec<ChatEntry>, my_user_id: &str) -> (r: Vec<String>)
    ensures
        string_views(r@) == mris_to_resolve_spec(entries_view(chats@), bare_id(my_user_id@)),
{
    let my_bare = bare_id_str(my_user_id);
    let ghost es = entries_view(chats@);
    let mut r: Vec<String> = Vec::new();
    let mut i: usize = 0;
    while i < chats.len()
        invariant
            i <= chats@.len(),
            es == entries_view(chats@),
            my_bare@ == bare_id(my_user_id@),
            string_views(r@) == mris_to_resolve_spec(es.take(i as int), my_bare@),
        decreases chats@.len() - i,
    {
        let c = &chats[i];
        proof {
            reveal_strlit("19:");
            assert(es.take(i + 1).drop_last() =~= es.take(i as int));
            assert(es.take(i + 1).last() == c@);
        }
        if starts_with(c.display_name.as_str(), "💬 User ") && starts_with(c.id.as_str(), "19:") {
            let stripped = strip_prefix_or_self_str(c.id.as_str(), "19:");
            let inner = before_first_str(stripped.as_str(), '@');
            let parts = split_chars(inner.as_str(), '_');
            if parts.len() == 2 {
                let other = if starts_with(parts[0].as_str(), my_bare.as_str()) {
                    &parts[1]
                } else {
                    &parts[0]
                };
                let m = concat("8:orgid:", other.as_str());
                proof {
                    reveal_strlit("19:");
                    assert(mri_to_resolve(c@, my_bare@) == Some(m@));
                    assert(string_views(r@.push(m)) =~= string_views(r@).push(m@));
                }
                r.push(m);
            }
        }
        i = i + 1;
    }
    proof {
        assert(es.take(chats@.len() as int) =~= es);
    }
    r
}

/// One resolved name applied: each chat whose ID contains the bare user ID
/// and that still shows a user label is named "💬 {name}".
pub open spec fn apply_name(chats: Seq<ChatEntryView>, mri: Seq<char>, name: Seq<char>) -> Seq<
    ChatEntryView,
> {
    chats.map_values(
        |c: ChatEntryView|
            if contains_seq(c.id, bare_id(mri)) && shows_user_label(c.display_name) {
                ChatEntryView { display_name: "💬 "@ + name, ..c }
            } else {
                c
            },
    )
}

/// Names applied one after the other.
pub open spec fn apply_names(chats: Seq<ChatEntryView>, names: Seq<(Seq<char>, Seq<char>)>) -> Seq<
    ChatEntryView,
>
    decreases names.len(),
{
    if names.len() == 0 {
        chats
    } else {
        let prev = apply_names(chats, names.drop_last());
        apply_name(prev, names.last().0, names.last().1)
    }
}

/// Apply one resolved user name to the chat list.
pub fn apply_user_name(chats: &mut Vec<ChatEntry>, mri: &str, name: &str)
    ensures
        entries_view(final(chats)@) == apply_name(entries_view(old(chats)@), mri@, name@),
{
    let bare = bare_id_str(mri);
    let ghost start = entries_view(chats@);
    let mut i: usize = 0;
    while i < chats.len()
        invariant
            i <= chats@.len(),
            chats@.len() == start.len(),
            bare@ == bare_id(mri@),
            forall|j: int|
                0 <= j < i ==> #[trigger] entries_view(chats@)[j] == apply_name(
                    start,
                    mri@,
                    name@,
                )[j],
            forall|j: int| i <= j < chats@.len() ==> #[trigger] entries_view(chats@)[j] == start[j],
        decreases chats@.len() - i,
    {
        let c = &chats[i];
        let ghost before = entries_view(chats@);
        proof {
            assert(before[i as int] == start[i as int]);
        }
        if contains(c.id.as_str(), bare.as_str()) && starts_with(
            c.display_name.as_str(),
            "💬 User ",
        ) {
            let entry = ChatEntry {
                id: c.id.clone(),
                display_name: concat("💬 ", name),
                unread_count: c.unread_count,
                read_horizon_id: c.read_horizon_id,
            };
            proof {
                assert(entry@ == apply_name(start, mri@, name@)[i as int]);
            }
            chats.set(i, entry);
            proof {
                assert(entries_view(chats@) =~= before.update(i as int, entry@));
            }
        } else {
            proof {
                assert(before[i as int] == apply_name(start, mri@, name@)[i as int]);
            }
        }
        i = i + 1;
    }
    proof {
        assert(entries_view(chats@) =~= apply_name(start, mri@, name@));
    }
}

/// The (mri, name) pairs of a users/fetch response's `value` list: users
/// with a non-empty MRI and display name, in order.
pub open spec fn user_names(users: Seq<JsonValue>) -> Seq<(Seq<char>, Seq<char>)>
    decreases users.len(),
{
    if users.len() == 0 {
        Seq::empty()
    } else {
        let prev = user_names(users.drop_last());
        let u = users.last();
        let mri = or_empty(u.field_str("mri"@));
        let name = or_empty(u.field_str("displayName"@));
        if mri.len() > 0 && name.len() > 0 {
            prev.push((mri, name))
        } else {
            prev
        }
    }
}

/// The resolved names of a users/fetch response.
pub open spec fn fetched_names(response: JsonValue) -> Seq<(Seq<char>, Seq<char>)> {
    match response.field_array("value"@) {
        Some(users) => user_names(users),
        None => Seq::empty(),
    }
}

/// Apply the names of a users/fetch response to the chat list.
pub fn apply_fetched_names(chats: &mut Vec<ChatEntry>, response: &JsonValue)
    ensures
        entries_view(final(chats)@) == apply_names(
            entries_view(old(chats)@),
            fetched_names(*response),
        ),
{
    match response.get_array("value") {
        Some(users) => {
            let ghost start = entries_view(chats@);
            let mut i: usize = 0;
            while i < users.len()
                invariant
                    i <= users@.len(),
                    entries_view(chats@) == apply_names(start, user_names(users@.take(i as int))),
                decreases users@.len() - i,
            {
                let u = &users[i];
                proof {
                    assert(users@.take(i + 1).drop_last() =~= users@.take(i as int));
                    assert(users@.take(i + 1).last() == users@[i as int]);
                    assert(""@ =~= Seq::<char>::empty()) by {
                        reveal_strlit("");
                    }
                }
                let mri = u.get_str_or("mri", "");
                let name = u.get_str_or("displayName", "");
                if !mri.as_str().is_empty() && !name.as_str().is_empty() {
                    apply_user_name(chats, mri.as_str(), name.as_str());
                    proof {
                        let names = user_names(users@.take(i + 1));
                        assert(names.drop_last() == user_names(users@.take(i as int)));
                    }
                }
                i = i + 1;
            }
            proof {
                assert(users@.take(users@.len() as int) =~= users@);
            }
        },
        None => {},
    }
}

/// Apply name pairs, in order.
pub fn apply_name_pairs(chats: &mut Vec<ChatEntry>, pairs: &Vec<(String, String)>)
    ensures
        entries_view(final(chats)@) == apply_names(
            entries_view(old(chats)@),
            pairs@.map_values(|p: (String, String)| (p.0@, p.1@)),
        ),
{
    let ghost start = entries_view(chats@);
    let ghost names = pairs@.map_values(|p: (String, String)| (p.0@, p.1@));
    let mut i: usize = 0;
    while i < pairs.len()
        invariant
            i <= pairs@.len(),
            names == pairs@.map_values(|p: (String, String)| (p.0@, p.1@)),
            entries_view(chats@) == apply_names(start, names.take(i as int)),
        decreases pairs@.len() - i,
    {
        proof {
            assert(names.take(i + 1).drop_last() =~= names.take(i as int));
        }
        apply_user_name(chats, pairs[i].0.as_str(), pairs[i].1.as_str());
        i = i + 1;
    }
    proof {
        assert(names.take(pairs@.len() as int) =~= names);
    }
}

/// Whether a message counts as unread: a real message whose numeric ID is
/// above the read horizon.
pub open spec fn counts_as_unread(m: JsonValue, horizon: u64) -> bool {
    or_empty(m.field_str("type"@)) == "Message"@ && match m.field_str("id"@) {
        Some(s) => match parse_u64_spec(s) {
            Some(id) => id > horizon,
            None => false,
        },
        None => false,
    }
}

/// How many messages count as unread.
pub open spec fn unread_in(msgs: Seq<JsonValue>, horizon: u64) -> nat
    decreases msgs.len(),
{
    if msgs.len() == 0 {
        0
    } else {
        unread_in(msgs.drop_last(), horizon) + if counts_as_unread(msgs.last(), horizon) {
            1nat
        } else {
            0nat
        }
    }
}

/// The unread count of a messages response (truncated to 32 bits).
pub open spec fn unread_count_of(response: JsonValue, horizon: u64) -> u32 {
    match response.field_array("messages"@) {
        Some(msgs) => unread_in(msgs, horizon) as u32,
        None => 0,
    }
}

proof fn lemma_unread_in_le(msgs: Seq<JsonValue>, horizon: u64)
    ensures
        unread_in(msgs, horizon) <= msgs.len(),
    decreases msgs.len(),
{
    if msgs.len() > 0 {
        lemma_unread_in_le(msgs.drop_last(), horizon);
    }
}

/// Count the messages of a response whose ID is above the read horizon.
pub fn count_unread_messages(response: &JsonValue, horizon: u64) -> (n: u32)
    ensures
        n == unread_count_of(*response, horizon),
{
    match response.get_array("messages") {
        Some(msgs) => {
            let mut count: usize = 0;
            let mut i: usize = 0;
            while i < msgs.len()
                invariant
                    i <= msgs@.len(),
                    count == unread_in(msgs@.take(i as int), horizon),
                    count <= i,
                decreases msgs@.len() - i,
            {
                let m = &msgs[i];
                proof {
                    assert(msgs@.take(i + 1).drop_last() =~= msgs@.take(i as int));
                    assert(msgs@.take(i + 1).last() == msgs@[i as int]);
                    assert(""@ =~= Seq::<char>::empty()) by {
                        reveal_strlit("");
                    }
                }
                let msg_type = m.get_str_or("type", "");
                let counts = if crate::text::eq_str(msg_type.as_str(), "Message") {
                    match m.get_str("id") {
                        Some(s) => match parse_u64(s) {
                            Some(id) => id > horizon,
                            None => false,
                        },
                        None => false,
                    }
                } else {
                    false
                };
                if counts {
                    count = count + 1;
                }
                i = i + 1;
            }
            proof {
                assert(msgs@.take(msgs@.len() as int) =~= msgs@);
            }
            count as u32
        },
        None => 0,
    }
}

/// The unread count of a messages response given as text: 0 when the text
/// is not JSON.
pub open spec fn unread_count_of_text(json: Seq<char>, horizon: u64) -> u32 {
    match json_of_text(json) {
        Some(v) => unread_count_of(v, horizon),
        None => 0,
    }
}

/// Count the messages of a messages response, given as text, that lie
/// after the read marker `horizon`.
pub fn count_unread_in_text(json: &str, horizon: u64) -> (n: u32)
    ensures
        n == unread_count_of_text(json@, horizon),
{
    match parse_json_text(json) {
        Some(v) => count_unread_messages(&v, horizon),
        None => 0,
    }
}

} // verus!
