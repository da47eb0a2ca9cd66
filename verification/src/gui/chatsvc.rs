//! Reading the chat service's conversation and message lists.

use crate::gui::screen::{
    bare_id, bare_id_str, entries_view, lemma_before_first_at, extract_other_user_from_conv_id, other_user_from_conv_id,
    other_user_ok, other_user_safe, ChatEntry, ChatEntryView, ParsedMessage, ParsedMessageView,
};
use crate::json::{json_of_text, parse_json_text, JsonValue};
use crate::models::chat::{lemma_tag_scan_identity, no_brackets, opt_view, strip_html, strip_html_spec};
use crate::num::{parse_u64, parse_u64_spec};
use crate::text::{
    after_last, after_last_str, before_first, before_first_str, concat, contains, contains_seq,
    eq_str, has_char, is_prefix_of, is_ws, join_seq, join_strings, lead_ws, lemma_replace_absent,
    lemma_replace_after_plain, lemma_replace_at_start, replace_seq, replace_str, take_chars,
    take_chars_str, to_string, trail_ws, trim_seq, trim_str,
};
use vstd::prelude::*;

verus! {

/// An optional string's value, or the empty string.
pub open spec fn or_empty(o: Option<Seq<char>>) -> Seq<char> {
    match o {
        Some(s) => s,
        None => Seq::empty(),
    }
}

/// `v.get(outer).and_then(|o| o.get(inner)).and_then(as_str)`.
pub open spec fn nested_str(v: JsonValue, outer: Seq<char>, inner: Seq<char>) -> Option<Seq<char>> {
    match v.field(outer) {
        Some(o) => o.field_str(inner),
        None => None,
    }
}

fn nested_str_or_empty(v: &JsonValue, outer: &str, inner: &str) -> (r: String)
    ensures
        r@ == or_empty(nested_str(*v, outer@, inner@)),
{
    proof {
        assert(""@ =~= Seq::<char>::empty()) by {
            reveal_strlit("");
        }
    }
    match v.get(outer) {
        Some(o) => o.get_str_or(inner, ""),
        None => to_string(""),
    }
}

// ---------------------------------------------------------------------------
// Conversations
// ---------------------------------------------------------------------------

/// The `threadProperties.threadType` of a conversation.
pub open spec fn conv_thread_type(conv: JsonValue) -> Seq<char> {
    or_empty(nested_str(conv, "threadProperties"@, "threadType"@))
}

/// The read marker: the first ';'-separated field of
/// `properties.consumptionhorizon`, as a number (0 when absent or invalid).
pub open spec fn conv_read_id(conv: JsonValue) -> u64 {
    match parse_u64_spec(
        before_first(or_empty(nested_str(conv, "properties"@, "consumptionhorizon"@)), ';'),
    ) {
        Some(v) => v,
        None => 0,
    }
}

/// The ID of the newest message (0 when absent).
pub open spec fn conv_last_id(conv: JsonValue) -> u64 {
    match conv.field_u64("lastUpdatedMessageId"@) {
        Some(v) => v,
        None => 0,
    }
}

/// The friendly names of the members that are not me, in member order.
pub open spec fn member_names(
    members: Seq<JsonValue>,
    my_user_id: Seq<char>,
    my_bare_id: Seq<char>,
) -> Seq<Seq<char>>
    decreases members.len(),
{
    if members.len() == 0 {
        Seq::empty()
    } else {
        let prev = member_names(members.drop_last(), my_user_id, my_bare_id);
        let m = members.last();
        let mid = or_empty(m.field_str("id"@));
        if mid != my_user_id && !contains_seq(mid, my_bare_id) && m.field_str(
            "friendlyName"@,
        ).is_some() && m.field_str("friendlyName"@).unwrap().len() > 0 {
            prev.push(m.field_str("friendlyName"@).unwrap())
        } else {
            prev
        }
    }
}

/// The sender name of a conversation's last message, unless I sent it or it
/// is empty.
pub open spec fn last_message_sender(conv: JsonValue, my_bare_id: Seq<char>) -> Option<Seq<char>> {
    match conv.field("lastMessage"@) {
        Some(lm) => {
            let from = or_empty(lm.field_str("from"@));
            let name = or_empty(lm.field_str("imdisplayname"@));
            if name.len() == 0 || contains_seq(from, my_bare_id) {
                None
            } else {
                Some(name)
            }
        },
        None => None,
    }
}

/// Try to resolve a chat name from `lastMessage.imdisplayname`: the name
/// when the last message was sent by someone else, `None` when it is from
/// me, empty or missing.
pub fn resolve_name_from_last_message(conv: &JsonValue, my_bare_id: &str) -> (r: Option<String>)
    ensures
        match r {
            Some(n) => last_message_sender(*conv, my_bare_id@) == Some(n@),
            None => last_message_sender(*conv, my_bare_id@).is_none(),
        },
{
    proof {
        assert(""@ =~= Seq::<char>::empty()) by {
            reveal_strlit("");
        }
    }
    match conv.get("lastMessage") {
        Some(lm) => {
            let from = lm.get_str_or("from", "");
            let name = lm.get_str_or("imdisplayname", "");
            if name.as_str().is_empty() {
                return None;
            }
            if contains(from.as_str(), my_bare_id) {
                return None;
            }
            Some(name)
        },
        None => None,
    }
}

/// The name a conversation is shown under, before its type symbol.
pub open spec fn conv_name(conv: JsonValue, my_user_id: Seq<char>, my_bare_id: Seq<char>) -> Seq<
    char,
> {
    let id = or_empty(conv.field_str("id"@));
    let topic = or_empty(nested_str(conv, "threadProperties"@, "topic"@));
    if topic.len() > 0 {
        topic
    } else {
        match conv.field_array("members"@) {
            Some(members) => {
                let names = member_names(members, my_user_id, my_bare_id);
                if names.len() > 0 {
                    join_seq(names, ", "@)
                } else {
                    match last_message_sender(conv, my_bare_id) {
                        Some(n) => n,
                        None => other_user_from_conv_id(id, my_bare_id),
                    }
                }
            },
            None => match last_message_sender(conv, my_bare_id) {
                Some(n) => n,
                None => if conv_thread_type(conv) == "chat"@ {
                    other_user_from_conv_id(id, my_bare_id)
                } else {
                    Seq::empty()
                },
            },
        }
    }
}

/// Whether naming a conversation runs without panicking: the conversation ID
/// can be cut wherever its name falls back to the ID's other user.
pub open spec fn conv_name_safe(conv: JsonValue, my_user_id: Seq<char>, my_bare_id: Seq<char>) -> bool {
    let id = or_empty(conv.field_str("id"@));
    let topic = or_empty(nested_str(conv, "threadProperties"@, "topic"@));
    let falls_back = topic.len() == 0 && last_message_sender(conv, my_bare_id).is_none() && match conv.field_array(
        "members"@,
    ) {
        Some(members) => member_names(members, my_user_id, my_bare_id).len() == 0,
        None => conv_thread_type(conv) == "chat"@,
    };
    falls_back ==> other_user_safe(id, my_bare_id)
}

/// The display name of a conversation: the first 40 characters of its ID
/// when it has no name, else the name behind the symbol of its type.
pub open spec fn conv_display_name(conv: JsonValue, my_user_id: Seq<char>, my_bare_id: Seq<char>) -> Seq<
    char,
> {
    let id = or_empty(conv.field_str("id"@));
    let name = conv_name(conv, my_user_id, my_bare_id);
    let tt = conv_thread_type(conv);
    if name.len() == 0 {
        take_chars(id, 40)
    } else if tt == "chat"@ {
        "💬 "@ + name
    } else if tt == "topic"@ {
        "📋 "@ + name
    } else if tt == "space"@ {
        "📌 "@ + name
    } else if tt == "meeting"@ {
        "📅 "@ + name
    } else {
        name
    }
}

/// Whether a conversation is left out: no ID, or a call log or notification
/// stream.
pub open spec fn conv_skipped(conv: JsonValue) -> bool {
    or_empty(conv.field_str("id"@)).len() == 0 || conv_thread_type(conv) == "streamofcalllogs"@
        || conv_thread_type(conv) == "streamofnotifications"@
}

/// The sidebar entry of a conversation; it is unread while its newest
/// message is above the read marker.
pub open spec fn conv_entry(conv: JsonValue, my_user_id: Seq<char>, my_bare_id: Seq<char>) -> ChatEntryView {
    ChatEntryView {
        id: or_empty(conv.field_str("id"@)),
        display_name: conv_display_name(conv, my_user_id, my_bare_id),
        unread_count: if conv_last_id(conv) > conv_read_id(conv) {
            1
        } else {
            0
        },
        read_horizon_id: conv_read_id(conv),
    }
}

/// The entries of the conversations that are not left out, in order.
pub open spec fn conv_entries(
    convs: Seq<JsonValue>,
    my_user_id: Seq<char>,
    my_bare_id: Seq<char>,
) -> Seq<ChatEntryView>
    decreases convs.len(),
{
    if convs.len() == 0 {
        Seq::empty()
    } else {
        let prev = conv_entries(convs.drop_last(), my_user_id, my_bare_id);
        if conv_skipped(convs.last()) {
            prev
        } else {
            prev.push(conv_entry(convs.last(), my_user_id, my_bare_id))
        }
    }
}

/// The entries of a Graph-style `value` list: each item with an ID, named by
/// its topic or else its ID.
pub open spec fn value_entries(items: Seq<JsonValue>) -> Seq<ChatEntryView>
    decreases items.len(),
{
    if items.len() == 0 {
        Seq::empty()
    } else {
        let prev = value_entries(items.drop_last());
        let item = items.last();
        let id = or_empty(item.field_str("id"@));
        if id.len() > 0 {
            prev.push(
                ChatEntryView {
                    id: id,
                    display_name: match item.field_str("topic"@) {
                        Some(t) => t,
                        None => id,
                    },
                    unread_count: 0,
                    read_horizon_id: 0,
                },
            )
        } else {
            prev
        }
    }
}

/// The chat list of a chat-service response: its `conversations`, or, when
/// that gives no entry, its Graph-style `value` list.
pub open spec fn chatsvc_entries(val: JsonValue, my_user_id: Seq<char>) -> Seq<ChatEntryView> {
    let primary = match val.field_array("conversations"@) {
        Some(convs) => conv_entries(convs, my_user_id, bare_id(my_user_id)),
        None => Seq::empty(),
    };
    if primary.len() > 0 {
        primary
    } else {
        match val.field_array("value"@) {
            Some(items) => value_entries(items),
            None => Seq::empty(),
        }
    }
}

/// Whether reading the response runs without panicking.
pub open spec fn chatsvc_safe(val: JsonValue, my_user_id: Seq<char>) -> bool {
    match val.field_array("conversations"@) {
        Some(convs) => forall|i: int|
            0 <= i < convs.len() && !conv_skipped(#[trigger] convs[i]) ==> conv_name_safe(
                convs[i],
                my_user_id,
                bare_id(my_user_id),
            ),
        None => true,
    }
}

fn member_friendly_names(members: &Vec<JsonValue>, my_user_id: &str, my_bare_id: &str) -> (r: Vec<
    String,
>)
    ensures
        r@.map_values(|p: String| p@) == member_names(members@, my_user_id@, my_bare_id@),
{
    let mut r: Vec<String> = Vec::new();
    let mut i: usize = 0;
    while i < members.len()
        invariant
            i <= members@.len(),
            r@.map_values(|p: String| p@) == member_names(
                members@.take(i as int),
                my_user_id@,
                my_bare_id@,
            ),
        decreases members@.len() - i,
    {
        let m = &members[i];
        proof {
            assert(members@.take(i + 1).drop_last() =~= members@.take(i as int));
            assert(members@.take(i + 1).last() == members@[i as int]);
            assert(""@ =~= Seq::<char>::empty()) by {
                reveal_strlit("");
            }
        }
        let mid = m.get_str_or("id", "");
        if !eq_str(mid.as_str(), my_user_id) && !contains(mid.as_str(), my_bare_id) {
            match m.get_str("friendlyName") {
                Some(n) => {
                    if !n.is_empty() {
                        r.push(n.to_owned());
                        proof {
                            assert(r@.map_values(|p: String| p@) =~= member_names(
                                members@.take(i as int),
                                my_user_id@,
                                my_bare_id@,
                            ).push(n@));
                        }
                    }
                },
                None => {},
            }
        }
        i = i + 1;
    }
    proof {
        assert(members@.take(members@.len() as int) =~= members@);
    }
    r
}

fn conv_display(conv: &JsonValue, id: &String, my_user_id: &str, my_bare_id: &str) -> (r: String)
    requires
        id@ == or_empty(conv.field_str("id"@)),
        conv_name_safe(*conv, my_user_id@, my_bare_id@),
    ensures
        r@ == conv_display_name(*conv, my_user_id@, my_bare_id@),
{
    let thread_type = nested_str_or_empty(conv, "threadProperties", "threadType");
    let topic = nested_str_or_empty(conv, "threadProperties", "topic");
    let name = if !topic.as_str().is_empty() {
        topic
    } else {
        match conv.get_array("members") {
            Some(members) => {
                let names = member_friendly_names(members, my_user_id, my_bare_id);
                if names.len() > 0 {
                    join_strings(&names, ", ")
                } else {
                    match resolve_name_from_last_message(conv, my_bare_id) {
                        Some(n) => n,
                        None => extract_other_user_from_conv_id(id.as_str(), my_bare_id),
                    }
                }
            },
            None => match resolve_name_from_last_message(conv, my_bare_id) {
                Some(n) => n,
                None => {
                    if eq_str(thread_type.as_str(), "chat") {
                        extract_other_user_from_conv_id(id.as_str(), my_bare_id)
                    } else {
                        String::new()
                    }
                },
            },
        }
    };
    proof {
        assert(name@ == conv_name(*conv, my_user_id@, my_bare_id@));
    }
    if name.as_str().is_empty() {
        take_chars_str(id.as_str(), 40)
    } else if eq_str(thread_type.as_str(), "chat") {
        concat("💬 ", name.as_str())
    } else if eq_str(thread_type.as_str(), "topic") {
        concat("📋 ", name.as_str())
    } else if eq_str(thread_type.as_str(), "space") {
        concat("📌 ", name.as_str())
    } else if eq_str(thread_type.as_str(), "meeting") {
        concat("📅 ", name.as_str())
    } else {
        name
    }
}

/// Whether naming `conv` runs without panicking.
pub fn conv_name_ok(conv: &JsonValue, my_user_id: &str, my_bare_id: &str) -> (b: bool)
    ensures
        b == conv_name_safe(*conv, my_user_id@, my_bare_id@),
{
    proof {
        assert(""@ =~= Seq::<char>::empty()) by {
            reveal_strlit("");
        }
    }
    let id = conv.get_str_or("id", "");
    let topic = nested_str_or_empty(conv, "threadProperties", "topic");
    if !topic.as_str().is_empty() {
        return true;
    }
    if resolve_name_from_last_message(conv, my_bare_id).is_some() {
        return true;
    }
    let falls_back = match conv.get_array("members") {
        Some(members) => member_friendly_names(members, my_user_id, my_bare_id).len() == 0,
        None => {
            let thread_type = nested_str_or_empty(conv, "threadProperties", "threadType");
            eq_str(thread_type.as_str(), "chat")
        },
    };
    !falls_back || other_user_ok(id.as_str(), my_bare_id)
}

/// Whether `parse_chats` runs without panicking on `val`.
pub fn chatsvc_ok(val: &JsonValue, my_user_id: &str) -> (b: bool)
    ensures
        b == chatsvc_safe(*val, my_user_id@),
{
    let my_bare_id = bare_id_str(my_user_id);
    match val.get_array("conversations") {
        Some(convs) => {
            let mut i: usize = 0;
            while i < convs.len()
                invariant
                    i <= convs@.len(),
                    my_bare_id@ == bare_id(my_user_id@),
                    val.field_array("conversations"@) == Some(convs@),
                    forall|j: int|
                        0 <= j < i && !conv_skipped(#[trigger] convs@[j]) ==> conv_name_safe(
                            convs@[j],
                            my_user_id@,
                            bare_id(my_user_id@),
                        ),
                decreases convs@.len() - i,
            {
                let conv = &convs[i];
                proof {
                    assert(""@ =~= Seq::<char>::empty()) by {
                        reveal_strlit("");
                    }
                }
                let id = conv.get_str_or("id", "");
                let thread_type = nested_str_or_empty(conv, "threadProperties", "threadType");
                let skip = id.as_str().is_empty() || eq_str(
                    thread_type.as_str(),
                    "streamofcalllogs",
                ) || eq_str(thread_type.as_str(), "streamofnotifications");
                if !skip && !conv_name_ok(conv, my_user_id, my_bare_id.as_str()) {
                    assert(!conv_skipped(convs@[i as int]));
                    assert(!conv_name_safe(convs@[i as int], my_user_id@, bare_id(my_user_id@)));
                    proof {
                        let cs = val.field_array("conversations"@).unwrap();
                        assert(cs[i as int] == convs@[i as int]);
                    }
                    return false;
                }
                i = i + 1;
            }
            true
        },
        None => true,
    }
}

/// Read the chat list from a chat-service conversations response.
pub fn parse_chats(val: &JsonValue, my_user_id: &str) -> (chats: Vec<ChatEntry>)
    requires
        chatsvc_safe(*val, my_user_id@),
    ensures
        entries_view(chats@) == chatsvc_entries(*val, my_user_id@),
{
    let mut chats: Vec<ChatEntry> = Vec::new();
    let my_bare_id = bare_id_str(my_user_id);
    proof {
        assert(""@ =~= Seq::<char>::empty()) by {
            reveal_strlit("");
        }
    }
    match val.get_array("conversations") {
        Some(convs) => {
            let mut i: usize = 0;
            while i < convs.len()
                invariant
                    i <= convs@.len(),
                    my_bare_id@ == bare_id(my_user_id@),
                    val.field_array("conversations"@) == Some(convs@),
                    chatsvc_safe(*val, my_user_id@),
                    entries_view(chats@) == conv_entries(
                        convs@.take(i as int),
                        my_user_id@,
                        my_bare_id@,
                    ),
                decreases convs@.len() - i,
            {
                let conv = &convs[i];
                proof {
                    assert(""@ =~= Seq::<char>::empty()) by {
                        reveal_strlit("");
                    }
                    assert(convs@.take(i + 1).drop_last() =~= convs@.take(i as int));
                    assert(convs@.take(i + 1).last() == convs@[i as int]);
                }
                let id = conv.get_str_or("id", "");
                let thread_type = nested_str_or_empty(conv, "threadProperties", "threadType");
                let skip = id.as_str().is_empty() || eq_str(
                    thread_type.as_str(),
                    "streamofcalllogs",
                ) || eq_str(thread_type.as_str(), "streamofnotifications");
                if !skip {
                    let last_msg_id: u64 = match conv.get_u64("lastUpdatedMessageId") {
                        Some(v) => v,
                        None => 0,
                    };
                    let consumption = nested_str_or_empty(
                        conv,
                        "properties",
                        "consumptionhorizon",
                    );
                    let first = before_first_str(consumption.as_str(), ';');
                    let read_id: u64 = match parse_u64(first.as_str()) {
                        Some(v) => v,
                        None => 0,
                    };
                    proof {
                        let cs = val.field_array("conversations"@).unwrap();
                        assert(cs == convs@);
                        assert(!conv_skipped(cs[i as int]));
                        assert(conv_name_safe(cs[i as int], my_user_id@, bare_id(my_user_id@)));
                    }
                    let display_name = conv_display(conv, &id, my_user_id, my_bare_id.as_str());
                    let entry = ChatEntry {
                        id,
                        display_name,
                        unread_count: if last_msg_id > read_id {
                            1
                        } else {
                            0
                        },
                        read_horizon_id: read_id,
                    };
                    proof {
                        assert(entry@ == conv_entry(convs@[i as int], my_user_id@, my_bare_id@));
                        assert(entries_view(chats@.push(entry)) =~= entries_view(chats@).push(
                            entry@,
                        ));
                    }
                    chats.push(entry);
                }
                i = i + 1;
            }
            proof {
                assert(convs@.take(convs@.len() as int) =~= convs@);
            }
        },
        None => {},
    }

    if chats.len() == 0 {
        match val.get_array("value") {
            Some(items) => {
                let mut i: usize = 0;
                proof {
                    assert(items@.take(0) =~= Seq::<JsonValue>::empty());
                }
                while i < items.len()
                    invariant
                        i <= items@.len(),
                        entries_view(chats@) == value_entries(items@.take(i as int)),
                    decreases items@.len() - i,
                {
                    let item = &items[i];
                    proof {
                        assert(""@ =~= Seq::<char>::empty()) by {
                            reveal_strlit("");
                        }
                        assert(items@.take(i + 1).drop_last() =~= items@.take(i as int));
                        assert(items@.take(i + 1).last() == items@[i as int]);
                    }
                    let id = item.get_str_or("id", "");
                    if !id.as_str().is_empty() {
                        let name = match item.get_str("topic") {
                            Some(t) => t.to_owned(),
                            None => id.clone(),
                        };
                        let entry = ChatEntry {
                            id,
                            display_name: name,
                            unread_count: 0,
                            read_horizon_id: 0,
                        };
                        proof {
                            assert(entries_view(chats@.push(entry)) =~= entries_view(chats@).push(
                                entry@,
                            ));
                        }
                        chats.push(entry);
                    }
                    i = i + 1;
                }
                proof {
                    assert(items@.take(items@.len() as int) =~= items@);
                }
            },
            None => {},
        }
    }
    chats
}

// ---------------------------------------------------------------------------
// Messages
// ---------------------------------------------------------------------------

/// The link to older messages: `_metadata.backwardLink` when non-empty.
pub open spec fn backward_link_of(val: JsonValue) -> Option<Seq<char>> {
    match nested_str(val, "_metadata"@, "backwardLink"@) {
        Some(s) => if s.len() > 0 {
            Some(s)
        } else {
            None
        },
        None => None,
    }
}

/// Message text with its tags stripped and the common entities decoded.
pub open spec fn message_text(raw: Seq<char>) -> Seq<char> {
    replace_seq(
        replace_seq(
            replace_seq(
                replace_seq(replace_seq(strip_html_spec(raw), "&nbsp;"@, " "@), "&amp;"@, "&"@),
                "&lt;"@,
                "<"@,
            ),
            "&gt;"@,
            ">"@,
        ),
        "&quot;"@,
        "\""@,
    )
}

/// The timestamp of a message: `composetime`, else `originalarrivaltime`.
pub open spec fn message_timestamp(msg: JsonValue) -> Seq<char> {
    or_empty(
        match msg.field("composetime"@) {
            Some(v) => v.str_of(),
            None => match msg.field("originalarrivaltime"@) {
                Some(v) => v.str_of(),
                None => None,
            },
        },
    )
}

/// The parsed form of a chat-service message for the user `my_bare_id`.
pub open spec fn parsed_message(msg: JsonValue, my_bare_id: Seq<char>) -> ParsedMessageView {
    let sender_id = after_last(or_empty(msg.field_str("from"@)), '/');
    ParsedMessageView {
        sender_name: match msg.field_str("imdisplayname"@) {
            Some(n) => n,
            None => "Unknown"@,
        },
        sender_id: sender_id,
        content: message_text(or_empty(msg.field_str("content"@))),
        timestamp: message_timestamp(msg),
        is_from_me: contains_seq(sender_id, my_bare_id),
    }
}

/// Whether a message is shown: a real message whose text is not blank.
pub open spec fn message_shown(msg: JsonValue) -> bool {
    or_empty(msg.field_str("type"@)) == "Message"@ && trim_seq(
        message_text(or_empty(msg.field_str("content"@))),
    ).len() > 0
}

/// The shown messages, parsed, in response order.
pub open spec fn parsed_messages(msgs: Seq<JsonValue>, my_bare_id: Seq<char>) -> Seq<
    ParsedMessageView,
>
    decreases msgs.len(),
{
    if msgs.len() == 0 {
        Seq::empty()
    } else {
        let prev = parsed_messages(msgs.drop_last(), my_bare_id);
        if message_shown(msgs.last()) {
            prev.push(parsed_message(msgs.last(), my_bare_id))
        } else {
            prev
        }
    }
}

/// The views of a sequence of parsed messages.
pub open spec fn messages_view(s: Seq<ParsedMessage>) -> Seq<ParsedMessageView> {
    s.map_values(|m: ParsedMessage| m@)
}

/// The messages of a chat-service messages response and its link to older
/// messages.
pub open spec fn messages_of(val: JsonValue, my_user_id: Seq<char>) -> Seq<ParsedMessageView> {
    match val.field_array("messages"@) {
        Some(msgs) => parsed_messages(msgs, bare_id(my_user_id)),
        None => Seq::empty(),
    }
}

fn decode_message_text(raw: &str) -> (r: String)
    ensures
        r@ == message_text(raw@),
{
    proof {
        reveal_strlit("&nbsp;");
        reveal_strlit("&amp;");
        reveal_strlit("&lt;");
        reveal_strlit("&gt;");
        reveal_strlit("&quot;");
    }
    let a = strip_html(raw);
    let b = replace_str(a.as_str(), "&nbsp;", " ");
    let c = replace_str(b.as_str(), "&amp;", "&");
    let d = replace_str(c.as_str(), "&lt;", "<");
    let e = replace_str(d.as_str(), "&gt;", ">");
    replace_str(e.as_str(), "&quot;", "\"")
}

fn message_timestamp_of(msg: &JsonValue) -> (r: String)
    ensures
        r@ == message_timestamp(*msg),
{
    let t = match msg.get("composetime") {
        Some(v) => v.as_str(),
        None => match msg.get("originalarrivaltime") {
            Some(v) => v.as_str(),
            None => None,
        },
    };
    match t {
        Some(s) => s.to_owned(),
        None => String::new(),
    }
}

/// Parse the messages of a chat-service messages response; also returns the
/// URL of older messages (`_metadata.backwardLink`).
pub fn parse_messages_value(val: &JsonValue, my_user_id: &str) -> (r: (Vec<ParsedMessage>, Option<String>))
    ensures
        messages_view(r.0@) == messages_of(*val, my_user_id@),
        match r.1 {
            Some(l) => backward_link_of(*val) == Some(l@),
            None => backward_link_of(*val).is_none(),
        },
{
    let mut messages: Vec<ParsedMessage> = Vec::new();
    let backward_link = match val.get("_metadata") {
        Some(m) => match m.get_str("backwardLink") {
            Some(s) => if s.is_empty() {
                None
            } else {
                Some(s.to_owned())
            },
            None => None,
        },
        None => None,
    };
    let my_bare_id = bare_id_str(my_user_id);
    proof {
        assert(""@ =~= Seq::<char>::empty()) by {
            reveal_strlit("");
        }
    }
    match val.get_array("messages") {
        Some(msgs) => {
            let mut i: usize = 0;
            while i < msgs.len()
                invariant
                    i <= msgs@.len(),
                    my_bare_id@ == bare_id(my_user_id@),
                    messages_view(messages@) == parsed_messages(msgs@.take(i as int), my_bare_id@),
                decreases msgs@.len() - i,
            {
                let msg = &msgs[i];
                proof {
                    assert(""@ =~= Seq::<char>::empty()) by {
                        reveal_strlit("");
                    }
                    assert(msgs@.take(i + 1).drop_last() =~= msgs@.take(i as int));
                    assert(msgs@.take(i + 1).last() == msgs@[i as int]);
                }
                let msg_type = msg.get_str_or("type", "");
                if eq_str(msg_type.as_str(), "Message") {
                    let raw = msg.get_str_or("content", "");
                    let content = decode_message_text(raw.as_str());
                    let trimmed = trim_str(content.as_str());
                    if !trimmed.as_str().is_empty() {
                        let sender_name = msg.get_str_or("imdisplayname", "Unknown");
                        let from_url = msg.get_str_or("from", "");
                        let sender_id = after_last_str(from_url.as_str(), '/');
                        let is_from_me = contains(sender_id.as_str(), my_bare_id.as_str());
                        let timestamp = message_timestamp_of(msg);
                        let m = ParsedMessage { sender_name, sender_id, content, timestamp, is_from_me };
                        proof {
                            assert(m@ == parsed_message(msgs@[i as int], my_bare_id@));
                            assert(messages_view(messages@.push(m)) =~= messages_view(messages@).push(
                                m@,
                            ));
                        }
                        messages.push(m);
                    }
                }
                i = i + 1;
            }
            proof {
                assert(msgs@.take(msgs@.len() as int) =~= msgs@);
            }
        },
        None => {},
    }
    (messages, backward_link)
}

/// The messages of a chat-service messages response given as text: none,
/// and no link, when the text is not JSON.
pub open spec fn messages_of_text(json: Seq<char>, my_user_id: Seq<char>) -> Seq<ParsedMessageView> {
    match json_of_text(json) {
        Some(v) => messages_of(v, my_user_id),
        None => Seq::empty(),
    }
}

/// The link to older messages of a response given as text.
pub open spec fn backward_link_of_text(json: Seq<char>) -> Option<Seq<char>> {
    match json_of_text(json) {
        Some(v) => backward_link_of(v),
        None => None,
    }
}

/// Parse a chat-service messages response: its displayable messages (type
/// "Message", content not blank after stripping HTML and decoding entities)
/// and its link to older messages. Text that is not JSON gives no messages
/// and no link.
pub fn parse_messages(json: &str, my_user_id: &str) -> (r: (Vec<ParsedMessage>, Option<String>))
    ensures
        messages_view(r.0@) == messages_of_text(json@, my_user_id@),
        opt_view(r.1) == backward_link_of_text(json@),
{
    match parse_json_text(json) {
        Some(v) => parse_messages_value(&v, my_user_id),
        None => {
            let msgs: Vec<ParsedMessage> = Vec::new();
            proof {
                assert(messages_view(msgs@) =~= Seq::<ParsedMessageView>::empty());
            }
            (msgs, None)
        },
    }
}

/// Read-marker law: a conversation's read horizon is the number in the
/// first ';'-separated field of `properties.consumptionhorizon`, and its
/// entry is unread exactly when the newest message ID is above it.
pub proof fn lemma_read_marker_is_first_field(
    conv: JsonValue,
    my_user_id: Seq<char>,
    my_bare_id: Seq<char>,
    head: Seq<char>,
    rest: Seq<char>,
    horizon: u64,
    last: u64,
)
    requires
        nested_str(conv, "properties"@, "consumptionhorizon"@) == Some(head + seq![';'] + rest),
        !has_char(head, ';'),
        parse_u64_spec(head) == Some(horizon),
        conv.field_u64("lastUpdatedMessageId"@) == Some(last),
    ensures
        conv_entry(conv, my_user_id, my_bare_id).read_horizon_id == horizon,
        conv_entry(conv, my_user_id, my_bare_id).unread_count == if last > horizon {
            1u32
        } else {
            0u32
        },
{
    let s = head + seq![';'] + rest;
    assert forall|j: int| 0 <= j < head.len() implies s[j] != ';' by {
        assert(s[j] == head[j]);
        if head[j] == ';' {
            assert(has_char(head, ';'));
        }
    }
    assert(s[head.len() as int] == ';');
    lemma_before_first_at(s, ';', head.len() as int);
    assert(s.subrange(0, head.len() as int) =~= head);
}

/// One decoding step over `a + x + b`, where `a` and `b` hold no '&' and `x`
/// is plain text or a single entity: the entity `from` becomes `to`, and
/// anything else stays.
proof fn lemma_decode_step(a: Seq<char>, x: Seq<char>, b: Seq<char>, from: Seq<char>, to: Seq<char>)
    requires
        !has_char(a, '&'),
        !has_char(b, '&'),
        from.len() >= 2,
        from[0] == '&',
        !has_char(x, '&') || (x.len() > 0 && x[0] == '&' && !has_char(x.drop_first(), '&') && (x
            == from || !is_prefix_of(from, x + b))),
    ensures
        replace_seq(a + x + b, from, to) == if x == from {
            a + to + b
        } else {
            a + x + b
        },
{
    if !has_char(x, '&') {
        let s = a + x + b;
        assert(!has_char(s, '&')) by {
            if has_char(s, '&') {
                let i = choose|i: int| 0 <= i < s.len() && s[i] == '&';
                if i < a.len() {
                    assert(a[i] == '&');
                } else if i < a.len() + x.len() {
                    assert(x[i - a.len()] == '&');
                } else {
                    assert(b[i - a.len() - x.len()] == '&');
                }
            }
        }
        assert(x != from) by {
            if x == from {
                assert(x[0] == '&');
            }
        }
        lemma_replace_absent(s, from, to);
    } else {
        assert(a + x + b =~= a + (x + b));
        lemma_replace_after_plain(a, x + b, from, to);
        if x == from {
            lemma_replace_at_start(b, from, to);
            lemma_replace_absent(b, from, to);
            assert(a + (to + b) =~= a + to + b);
        } else {
            let t = (x + b).drop_first();
            assert(t =~= x.drop_first() + b);
            assert(!has_char(t, '&')) by {
                if has_char(t, '&') {
                    let i = choose|i: int| 0 <= i < t.len() && t[i] == '&';
                    if i < x.len() - 1 {
                        assert(x.drop_first()[i] == '&');
                    } else {
                        assert(b[i - (x.len() - 1)] == '&');
                    }
                }
            }
            lemma_replace_absent(t, from, to);
            assert(seq![(x + b)[0]] + t =~= x + b);
            assert(a + (x + b) =~= a + x + b);
        }
    }
}

/// Entity law: message text free of tags and of other '&', with no
/// whitespace at its ends, shows each entity decoded: "&nbsp;" as a space,
/// "&amp;" as '&', "&lt;" as '<', "&gt;" as '>' and "&quot;" as '"'; e.g.
/// "a&nbsp;b" reads "a b". (A decoded '&' that starts "lt;", "gt;" or
/// "quot;" is decoded once more, as the steps run in that order, so `b`
/// does not start with 'l', 'g' or 'q' after "&amp;".)
pub proof fn lemma_entity_decoded(a: Seq<char>, b: Seq<char>, e: Seq<char>, d: Seq<char>)
    requires
        !has_char(a, '&'),
        !has_char(b, '&'),
        no_brackets(a),
        no_brackets(b),
        a.len() > 0 ==> !is_ws(a[0]),
        b.len() > 0 ==> !is_ws(b.last()),
        (e, d) == ("&nbsp;"@, " "@) || (e, d) == ("&amp;"@, "&"@) || (e, d) == ("&lt;"@, "<"@)
            || (e, d) == ("&gt;"@, ">"@) || (e, d) == ("&quot;"@, "\""@),
        e == "&amp;"@ && b.len() > 0 ==> b[0] != 'l' && b[0] != 'g' && b[0] != 'q',
    ensures
        message_text(a + e + b) == a + d + b,
{
    reveal_strlit("&nbsp;");
    reveal_strlit(" ");
    reveal_strlit("&amp;");
    reveal_strlit("&");
    reveal_strlit("&lt;");
    reveal_strlit("<");
    reveal_strlit("&gt;");
    reveal_strlit(">");
    reveal_strlit("&quot;");
    reveal_strlit("\"");
    let raw = a + e + b;
    assert(e.len() >= 4 && e[0] == '&' && e.last() == ';');
    assert(no_brackets(raw)) by {
        assert forall|i: int| 0 <= i < raw.len() implies #[trigger] raw[i] != '<' && raw[i] != '>' by {
            if i < a.len() {
                assert(raw[i] == a[i]);
            } else if i < a.len() + e.len() {
                assert(raw[i] == e[i - a.len()]);
            } else {
                assert(raw[i] == b[i - a.len() - e.len()]);
            }
        }
    }
    lemma_tag_scan_identity(raw);
    assert(lead_ws(raw) == 0) by {
        if a.len() > 0 {
            assert(raw[0] == a[0]);
        } else {
            assert(raw[0] == e[0]);
        }
    }
    assert(trail_ws(raw) == 0) by {
        if b.len() > 0 {
            assert(raw.last() == b.last());
        } else {
            assert(raw.last() == e.last());
        }
    }
    assert(raw.subrange(0, raw.len() as int) =~= raw);
    assert(strip_html_spec(raw) == raw);
    assert(!has_char(e.drop_first(), '&')) by {
        if has_char(e.drop_first(), '&') {
            let i = choose|i: int| 0 <= i < e.drop_first().len() && e.drop_first()[i] == '&';
            assert(e[i + 1] == '&');
        }
    }
    assert(!has_char(d, '&') || d == "&"@);
    let froms = seq!["&nbsp;"@, "&amp;"@, "&lt;"@, "&gt;"@, "&quot;"@];
    assert(froms[0][1] == 'n' && froms[1][1] == 'a' && froms[2][1] == 'l' && froms[3][1] == 'g'
        && froms[4][1] == 'q');
    assert(froms[0] != froms[1] && froms[0] != froms[2] && froms[0] != froms[3] && froms[0]
        != froms[4] && froms[1] != froms[2] && froms[1] != froms[3] && froms[1] != froms[4]
        && froms[2] != froms[3] && froms[2] != froms[4] && froms[3] != froms[4]);
    assert forall|k: int| 0 <= k < 5 && #[trigger] froms[k] != e implies !is_prefix_of(froms[k], e + b) by {
        let f = froms[k];
        assert(f.len() >= 4 && f[0] == '&');
        if is_prefix_of(f, e + b) {
            assert((e + b).subrange(0, f.len() as int)[1] == f[1]);
            assert((e + b)[1] == e[1]);
            assert((e + b).subrange(0, f.len() as int)[2] == f[2]);
            assert((e + b)[2] == e[2]);
            assert((e + b).subrange(0, f.len() as int)[3] == f[3]);
            assert((e + b)[3] == e[3]);
            if f.len() > 4 && e.len() > 4 {
                assert((e + b).subrange(0, f.len() as int)[4] == f[4]);
                assert((e + b)[4] == e[4]);
            }
            assert(f[1] == e[1] && f[2] == e[2] && f[3] == e[3]);
        }
    }
    // The decoded '&' of "&amp;" is no prefix of a later entity.
    let amp_tail = "&"@ + b;
    assert forall|k: int| 2 <= k < 5 && e == "&amp;"@ implies !is_prefix_of(
        #[trigger] froms[k],
        amp_tail,
    ) by {
        let f = froms[k];
        if is_prefix_of(f, amp_tail) {
            assert(amp_tail.subrange(0, f.len() as int)[1] == f[1]);
            assert(amp_tail[1] == b[0]);
        }
    }
    assert(!has_char("&"@.drop_first(), '&')) by {
        assert("&"@.drop_first().len() == 0);
    }
    assert(!has_char(" "@, '&') && !has_char("<"@, '&') && !has_char(">"@, '&') && !has_char(
        "\""@,
        '&',
    )) by {
        if has_char(" "@, '&') {
            assert(" "@[0] == ' ');
        }
        if has_char("<"@, '&') {
            assert("<"@[0] == '<');
        }
        if has_char(">"@, '&') {
            assert(">"@[0] == '>');
        }
        if has_char("\""@, '&') {
            assert("\""@[0] == '"');
        }
    }
    let s0 = raw;
    lemma_decode_step(a, e, b, froms[0], " "@);
    let x1 = if e == froms[0] { " "@ } else { e };
    let s1 = a + x1 + b;
    assert(replace_seq(s0, "&nbsp;"@, " "@) == s1);
    lemma_decode_step(a, x1, b, froms[1], "&"@);
    let x2 = if x1 == froms[1] { "&"@ } else { x1 };
    let s2 = a + x2 + b;
    assert(replace_seq(s1, "&amp;"@, "&"@) == s2);
    lemma_decode_step(a, x2, b, froms[2], "<"@);
    let x3 = if x2 == froms[2] { "<"@ } else { x2 };
    let s3 = a + x3 + b;
    lemma_decode_step(a, x3, b, froms[3], ">"@);
    let x4 = if x3 == froms[3] { ">"@ } else { x3 };
    let s4 = a + x4 + b;
    lemma_decode_step(a, x4, b, froms[4], "\""@);
    let x5 = if x4 == froms[4] { "\""@ } else { x4 };
    if e == froms[0] {
        assert(x1 == d && x2 == d && x3 == d && x4 == d);
    } else if e == froms[1] {
        assert(x1 == e && x2 == d && x3 == d && x4 == d);
    } else if e == froms[2] {
        assert(x1 == e && x2 == e && x3 == d && x4 == d);
    } else if e == froms[3] {
        assert(x3 == e && x4 == d);
    } else {
        assert(x4 == e);
    }
    assert(x5 == d);
}

} // verus!
