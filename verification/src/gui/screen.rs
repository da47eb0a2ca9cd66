//! Chat list entries and the pure functions that build and merge them.

use crate::api::csa::{CsaChat, CsaFolder, CsaFolderItem, CsaMember};
use crate::gui::style::ThemeColor;
use crate::models::chat::opt_view;
use crate::num::{decimal_string, push_decimal};
use crate::text::{
    after_last, before_first, chars_of, concat, contains, contains_seq, eq_str, is_byte_boundary,
    is_byte_boundary_at,
    is_prefix_of, split_chars, split_seq, starts_with, strip_prefix_or_self,
    strip_prefix_or_self_str, take_bytes, take_bytes_str, take_chars, take_chars_str, to_string,
    utf8_len, utf8_longer_than, join_seq, join_strings,
};
use vstd::prelude::*;

verus! {

/// A parsed chat message ready for display.
#[derive(Debug, Clone)]
pub struct ParsedMessage {
    pub sender_name: String,
    pub sender_id: String,
    pub content: String,
    pub timestamp: String,
    pub is_from_me: bool,
}

/// The mathematical content of a parsed message.
pub struct ParsedMessageView {
    pub sender_name: Seq<char>,
    pub sender_id: Seq<char>,
    pub content: Seq<char>,
    pub timestamp: Seq<char>,
    pub is_from_me: bool,
}

impl View for ParsedMessage {
    type V = ParsedMessageView;

    open spec fn view(&self) -> ParsedMessageView {
        ParsedMessageView {
            sender_name: self.sender_name@,
            sender_id: self.sender_id@,
            content: self.content@,
            timestamp: self.timestamp@,
            is_from_me: self.is_from_me,
        }
    }
}

/// A chat entry in the sidebar.
#[derive(Debug, Clone)]
pub struct ChatEntry {
    pub id: String,
    pub display_name: String,
    pub unread_count: u32,
    /// consumptionhorizon read ID: messages with an ID above it are unread
    pub read_horizon_id: u64,
}

/// The mathematical content of a chat entry.
pub struct ChatEntryView {
    pub id: Seq<char>,
    pub display_name: Seq<char>,
    pub unread_count: u32,
    pub read_horizon_id: u64,
}

impl View for ChatEntry {
    type V = ChatEntryView;

    open spec fn view(&self) -> ChatEntryView {
        ChatEntryView {
            id: self.id@,
            display_name: self.display_name@,
            unread_count: self.unread_count,
            read_horizon_id: self.read_horizon_id,
        }
    }
}

/// The views of a sequence of chat entries.
pub open spec fn entries_view(s: Seq<ChatEntry>) -> Seq<ChatEntryView> {
    s.map_values(|c: ChatEntry| c@)
}

impl ChatEntry {
    /// A copy of this entry.
    pub fn duplicate(&self) -> (c: ChatEntry)
        ensures
            c@ == self@,
    {
        ChatEntry {
            id: self.id.clone(),
            display_name: self.display_name.clone(),
            unread_count: self.unread_count,
            read_horizon_id: self.read_horizon_id,
        }
    }
}

// ---------------------------------------------------------------------------
// Identifiers
// ---------------------------------------------------------------------------

/// A user ID without its "8:orgid:" prefix.
pub open spec fn bare_id(s: Seq<char>) -> Seq<char> {
    strip_prefix_or_self(s, "8:orgid:"@)
}

/// The user ID `s` without its "8:orgid:" prefix.
pub fn bare_id_str(s: &str) -> (r: String)
    ensures
        r@ == bare_id(s@),
{
    strip_prefix_or_self_str(s, "8:orgid:")
}

/// The inner part of a conversation ID: "19:abc_def@unq.gbl.spaces" gives
/// "abc_def".
pub open spec fn conv_inner(id: Seq<char>) -> Seq<char> {
    before_first(strip_prefix_or_self(id, "19:"@), '@')
}

/// The short display label of a conversation ID: its inner part, cut to 20
/// bytes and marked with an ellipsis when longer.
pub open spec fn short_id_spec(id: Seq<char>) -> Seq<char> {
    let inner = conv_inner(id);
    if utf8_len(inner) > 20 {
        take_bytes(inner, 20) + "…"@
    } else {
        inner
    }
}

/// Whether `short_id` can cut the inner part of `id` without panicking.
pub open spec fn short_id_safe(id: Seq<char>) -> bool {
    utf8_len(conv_inner(id)) > 20 ==> is_byte_boundary(conv_inner(id), 20)
}

fn conv_inner_str(id: &str) -> (r: String)
    ensures
        r@ == conv_inner(id@),
{
    let stripped = strip_prefix_or_self_str(id, "19:");
    crate::text::before_first_str(stripped.as_str(), '@')
}

/// Extract a short display label from a conversation ID.
pub fn short_id(id: &str) -> (r: String)
    requires
        short_id_safe(id@),
    ensures
        r@ == short_id_spec(id@),
{
    let inner = conv_inner_str(id);
    if utf8_longer_than(inner.as_str(), 20) {
        let head = take_bytes_str(inner.as_str(), 20);
        concat(head.as_str(), "…")
    } else {
        inner
    }
}

/// "User " followed by the first 8 bytes of `id` (all of it when shorter).
pub open spec fn user_label(id: Seq<char>) -> Seq<char> {
    if utf8_len(id) > 8 {
        "User "@ + take_bytes(id, 8)
    } else {
        "User "@ + id
    }
}

/// Whether `user_label` can cut `id` without panicking.
pub open spec fn user_label_safe(id: Seq<char>) -> bool {
    utf8_len(id) > 8 ==> is_byte_boundary(id, 8)
}

fn user_label_str(id: &str) -> (r: String)
    requires
        user_label_safe(id@),
    ensures
        r@ == user_label(id@),
{
    if utf8_longer_than(id, 8) {
        let head = take_bytes_str(id, 8);
        concat("User ", head.as_str())
    } else {
        concat("User ", id)
    }
}

/// Whether `user_label` can cut `id` without panicking.
pub fn user_label_ok(id: &str) -> (b: bool)
    ensures
        b == user_label_safe(id@),
{
    !utf8_longer_than(id, 8) || is_byte_boundary_at(id, 8)
}

/// Whether `short_id` can cut the inner part of `id` without panicking.
pub fn short_id_ok(id: &str) -> (b: bool)
    ensures
        b == short_id_safe(id@),
{
    let inner = conv_inner_str(id);
    !utf8_longer_than(inner.as_str(), 20) || is_byte_boundary_at(inner.as_str(), 20)
}

/// The other participant of a 1:1 conversation ID
/// "19:{user1}_{user2}@unq.gbl.spaces", as a user label; the first 30
/// characters of the inner ID when it is not of that form.
pub open spec fn other_user_from_conv_id(conv_id: Seq<char>, my_bare_id: Seq<char>) -> Seq<char> {
    let inner = conv_inner(conv_id);
    let parts = split_seq(inner, '_');
    if parts.len() == 2 {
        let other = if is_prefix_of(my_bare_id, parts[0]) || parts[0] == my_bare_id {
            parts[1]
        } else {
            parts[0]
        };
        user_label(other)
    } else {
        take_chars(inner, 30)
    }
}

/// Whether `extract_other_user_from_conv_id` runs without panicking.
pub open spec fn other_user_safe(conv_id: Seq<char>, my_bare_id: Seq<char>) -> bool {
    let parts = split_seq(conv_inner(conv_id), '_');
    parts.len() == 2 ==> user_label_safe(
        if is_prefix_of(my_bare_id, parts[0]) || parts[0] == my_bare_id {
            parts[1]
        } else {
            parts[0]
        },
    )
}

/// Extract the other user's ID from a 1:1 conversation ID.
pub fn extract_other_user_from_conv_id(conv_id: &str, my_bare_id: &str) -> (r: String)
    requires
        other_user_safe(conv_id@, my_bare_id@),
    ensures
        r@ == other_user_from_conv_id(conv_id@, my_bare_id@),
{
    let inner = conv_inner_str(conv_id);
    let parts = split_chars(inner.as_str(), '_');
    if parts.len() == 2 {
        let first_is_me = starts_with(parts[0].as_str(), my_bare_id) || eq_str(
            parts[0].as_str(),
            my_bare_id,
        );
        let other = if first_is_me {
            &parts[1]
        } else {
            &parts[0]
        };
        user_label_str(other.as_str())
    } else {
        take_chars_str(inner.as_str(), 30)
    }
}

/// Whether `extract_other_user_from_conv_id` runs without panicking.
pub fn other_user_ok(conv_id: &str, my_bare_id: &str) -> (b: bool)
    ensures
        b == other_user_safe(conv_id@, my_bare_id@),
{
    let inner = conv_inner_str(conv_id);
    let parts = split_chars(inner.as_str(), '_');
    if parts.len() == 2 {
        let first_is_me = starts_with(parts[0].as_str(), my_bare_id) || eq_str(
            parts[0].as_str(),
            my_bare_id,
        );
        let other = if first_is_me {
            &parts[1]
        } else {
            &parts[0]
        };
        user_label_ok(other.as_str())
    } else {
        true
    }
}

// ---------------------------------------------------------------------------
// Timestamps
// ---------------------------------------------------------------------------

/// "HH:MM" of an ISO 8601 timestamp; the first five characters when the
/// timestamp has no time part of at least five one-byte characters.
pub open spec fn format_time_spec(iso: Seq<char>) -> Seq<char> {
    let parts = split_seq(iso, 'T');
    if parts.len() < 2 {
        take_chars(iso, 5)
    } else if utf8_len(take_chars(parts[1], 5)) == 5 {
        take_chars(parts[1], 5)
    } else {
        take_chars(iso, 5)
    }
}

/// Format an ISO 8601 timestamp as "HH:MM".
pub fn format_time(iso: &str) -> (r: String)
    ensures
        r@ == format_time_spec(iso@),
{
    let parts = split_chars(iso, 'T');
    if parts.len() < 2 {
        return take_chars_str(iso, 5);
    }
    let hm = take_chars_str(parts[1].as_str(), 5);
    if utf8_longer_than(hm.as_str(), 4) && !utf8_longer_than(hm.as_str(), 5) {
        hm
    } else {
        take_chars_str(iso, 5)
    }
}

/// Extract the date part "YYYY-MM-DD" of an ISO timestamp.
pub fn extract_date(iso: &str) -> (r: &str)
    ensures
        r@ == before_first(iso@, 'T'),
{
    let v = chars_of(iso);
    let mut i: usize = 0;
    while i < v.len() && v[i] != 'T'
        invariant
            v@ == iso@,
            i <= v.len(),
            forall|j: int| 0 <= j < i ==> v@[j] != 'T',
        decreases v.len() - i,
    {
        i = i + 1;
    }
    proof {
        lemma_before_first_at(iso@, 'T', i as int);
    }
    iso.substring_char(0, i)
}

/// The first piece of a split ends at the first separator.
pub proof fn lemma_before_first_at(s: Seq<char>, sep: char, i: int)
    requires
        0 <= i <= s.len(),
        forall|j: int| 0 <= j < i ==> s[j] != sep,
        i == s.len() || s[i] == sep,
    ensures
        before_first(s, sep) == s.subrange(0, i),
{
    lemma_split_acc_first(Seq::empty(), s, sep, i);
    assert(Seq::<char>::empty() + s.subrange(0, i) =~= s.subrange(0, i));
}

/// The first piece of `split_acc(cur, rest)` is `cur` followed by `rest` up
/// to its first separator.
proof fn lemma_split_acc_first(cur: Seq<char>, rest: Seq<char>, sep: char, i: int)
    requires
        0 <= i <= rest.len(),
        forall|j: int| 0 <= j < i ==> rest[j] != sep,
        i == rest.len() || rest[i] == sep,
    ensures
        crate::text::split_acc(cur, rest, sep).len() >= 1,
        crate::text::split_acc(cur, rest, sep)[0] == cur + rest.subrange(0, i),
    decreases rest.len(),
{
    crate::text::lemma_split_acc_nonempty(cur, rest, sep);
    if rest.len() == 0 {
        assert(cur + rest.subrange(0, i) =~= cur);
    } else if i == 0 {
        assert(rest[0] == sep);
        crate::text::lemma_split_acc_nonempty(Seq::empty(), rest.drop_first(), sep);
        assert(cur + rest.subrange(0, 0) =~= cur);
    } else {
        assert(rest[0] != sep);
        lemma_split_acc_first(cur.push(rest[0]), rest.drop_first(), sep, i - 1);
        assert(cur.push(rest[0]) + rest.drop_first().subrange(0, i - 1) =~= cur + rest.subrange(
            0,
            i,
        ));
    }
}

// ---------------------------------------------------------------------------
// Unread markers
// ---------------------------------------------------------------------------

/// How a chat row is drawn, decided by its unread count.
#[derive(Debug, Clone)]
pub struct ChatDisplayProps {
    pub text_color: ThemeColor,
    pub bold: bool,
    pub show_indicator: bool,
    pub indicator_color: ThemeColor,
    pub badge_text: Option<String>,
}

/// The badge of an unread count: nothing when zero, "9+" from ten on, the
/// count itself otherwise.
pub open spec fn badge_spec(count: u32) -> Option<Seq<char>> {
    if count == 0 {
        None
    } else if count >= 10 {
        Some("9+"@)
    } else {
        Some(decimal_string(count as nat))
    }
}

/// Compute the display properties of a chat row: bold, with an accent
/// indicator and a count badge while it has unread messages.
pub fn chat_display_props(chat: &ChatEntry) -> (p: ChatDisplayProps)
    ensures
        p.text_color == ThemeColor::TextPrimary,
        p.bold == (chat.unread_count > 0),
        p.show_indicator == (chat.unread_count > 0),
        p.indicator_color == ThemeColor::Accent,
        opt_view(p.badge_text) == badge_spec(chat.unread_count),
{
    let has_unread = chat.unread_count > 0;
    let badge_text = if has_unread {
        if chat.unread_count >= 10 {
            Some(to_string("9+"))
        } else {
            let mut s = String::new();
            push_decimal(&mut s, chat.unread_count as u64);
            Some(s)
        }
    } else {
        None
    };
    ChatDisplayProps {
        text_color: ThemeColor::TextPrimary,
        bold: has_unread,
        show_indicator: has_unread,
        indicator_color: ThemeColor::Accent,
        badge_text,
    }
}

// ---------------------------------------------------------------------------
// CSA chats
// ---------------------------------------------------------------------------

/// Whether a CSA member is someone other than the user `me` (a bare ID).
pub open spec fn is_other_csa_member(m: CsaMember, me: Seq<char>) -> bool {
    bare_id(m.mri@) != me
}

/// Index of the first member who is not `me`.
pub open spec fn first_other_csa_member(ms: Seq<CsaMember>, me: Seq<char>) -> Option<int>
    decreases ms.len(),
{
    if ms.len() == 0 {
        None
    } else if is_other_csa_member(ms[0], me) {
        Some(0)
    } else {
        match first_other_csa_member(ms.drop_first(), me) {
            Some(k) => Some(k + 1),
            None => None,
        }
    }
}

/// The label of a member in a group chat name: its object ID, else its MRI.
pub open spec fn member_label(m: CsaMember) -> Seq<char> {
    if m.object_id@.len() > 0 {
        m.object_id@
    } else {
        m.mri@
    }
}

/// The labels of all members other than `me`, in member order.
pub open spec fn other_member_labels(ms: Seq<CsaMember>, me: Seq<char>) -> Seq<Seq<char>>
    decreases ms.len(),
{
    if ms.len() == 0 {
        Seq::empty()
    } else {
        let prev = other_member_labels(ms.drop_last(), me);
        if is_other_csa_member(ms.last(), me) {
            prev.push(member_label(ms.last()))
        } else {
            prev
        }
    }
}

/// The sender name of the last message, when someone other than `me` sent it.
pub open spec fn last_message_name(chat: CsaChat, me: Seq<char>) -> Option<Seq<char>> {
    match chat.last_message {
        Some(lm) => if lm.im_display_name@.len() > 0 && bare_id(lm.from@) != me {
            Some(lm.im_display_name@)
        } else {
            None
        },
        None => None,
    }
}

/// The name of a CSA chat without a title. A 1:1 chat is named after the
/// other person: the sender of the last message when that is not `me`, else
/// a user label of the first other member. Otherwise (and for a 1:1 chat
/// without another member) the labels of up to three other members joined
/// with ", ", else the first 30 characters of the chat ID.
pub open spec fn csa_chat_name(chat: CsaChat, me: Seq<char>) -> Seq<char> {
    let labels = other_member_labels(chat.members@, me);
    let first3 = if labels.len() <= 3 {
        labels
    } else {
        labels.take(3)
    };
    if chat.is_one_on_one && last_message_name(chat, me).is_some() {
        last_message_name(chat, me).unwrap()
    } else if chat.is_one_on_one && first_other_csa_member(chat.members@, me).is_some() {
        user_label(chat.members@[first_other_csa_member(chat.members@, me).unwrap()].object_id@)
    } else if first3.len() > 0 {
        join_seq(first3, ", "@)
    } else {
        take_chars(chat.id@, 30)
    }
}

/// Whether naming `chat` runs without panicking.
pub open spec fn csa_chat_name_safe(chat: CsaChat, me: Seq<char>) -> bool {
    (chat.is_one_on_one && last_message_name(chat, me).is_none() && first_other_csa_member(
        chat.members@,
        me,
    ).is_some()) ==> user_label_safe(
        chat.members@[first_other_csa_member(chat.members@, me).unwrap()].object_id@,
    )
}

fn first_other_csa_index(ms: &Vec<CsaMember>, me: &str) -> (r: Option<usize>)
    ensures
        match r {
            Some(k) => first_other_csa_member(ms@, me@) == Some(k as int) && k < ms.len(),
            None => first_other_csa_member(ms@, me@).is_none(),
        },
{
    let mut i: usize = 0;
    proof {
        assert(ms@.skip(0) =~= ms@);
    }
    while i < ms.len()
        invariant
            i <= ms.len(),
            first_other_csa_member(ms@, me@) == match first_other_csa_member(
                ms@.skip(i as int),
                me@,
            ) {
                Some(k) => Some(k + i),
                None => None::<int>,
            },
        decreases ms.len() - i,
    {
        proof {
            assert(ms@.skip(i as int)[0] == ms@[i as int]);
            assert(ms@.skip(i as int).drop_first() =~= ms@.skip(i + 1));
        }
        let b = bare_id_str(ms[i].mri.as_str());
        if !eq_str(b.as_str(), me) {
            return Some(i);
        }
        i = i + 1;
    }
    proof {
        assert(ms@.skip(i as int).len() == 0);
    }
    None
}

/// Resolve the display name of a CSA chat that has no title.
pub fn resolve_csa_chat_name(chat: &CsaChat, my_bare_id: &str) -> (name: String)
    requires
        csa_chat_name_safe(*chat, my_bare_id@),
    ensures
        name@ == csa_chat_name(*chat, my_bare_id@),
{
    if chat.is_one_on_one {
        match &chat.last_message {
            Some(lm) => {
                if !lm.im_display_name.as_str().is_empty() {
                    let from_bare = bare_id_str(lm.from.as_str());
                    if !eq_str(from_bare.as_str(), my_bare_id) {
                        return lm.im_display_name.clone();
                    }
                }
            },
            None => {},
        }
        match first_other_csa_index(&chat.members, my_bare_id) {
            Some(k) => {
                return user_label_str(chat.members[k].object_id.as_str());
            },
            None => {},
        }
    }
    let ghost all = other_member_labels(chat.members@, my_bare_id@);
    let mut labels: Vec<String> = Vec::new();
    let mut i: usize = 0;
    while i < chat.members.len() && labels.len() < 3
        invariant
            i <= chat.members.len(),
            all == other_member_labels(chat.members@, my_bare_id@),
            labels@.len() <= 3,
            labels@.map_values(|p: String| p@) == other_member_labels(
                chat.members@.take(i as int),
                my_bare_id@,
            ),
        decreases chat.members.len() - i,
    {
        let m = &chat.members[i];
        proof {
            assert(chat.members@.take(i + 1).drop_last() =~= chat.members@.take(i as int));
            assert(chat.members@.take(i + 1).last() == chat.members@[i as int]);
        }
        let b = bare_id_str(m.mri.as_str());
        if !eq_str(b.as_str(), my_bare_id) {
            let label = if !m.object_id.as_str().is_empty() {
                m.object_id.clone()
            } else {
                m.mri.clone()
            };
            labels.push(label);
            proof {
                assert(labels@.map_values(|p: String| p@) =~= other_member_labels(
                    chat.members@.take(i as int),
                    my_bare_id@,
                ).push(member_label(chat.members@[i as int])));
            }
        }
        i = i + 1;
    }
    proof {
        lemma_labels_prefix(chat.members@, my_bare_id@, i as int);
        let got = labels@.map_values(|p: String| p@);
        if labels@.len() < 3 {
            assert(chat.members@.take(i as int) =~= chat.members@);
        }
        if all.len() <= 3 {
            assert(got =~= all);
        } else {
            assert(got =~= all.take(3));
        }
    }
    if labels.len() > 0 {
        join_strings(&labels, ", ")
    } else {
        take_chars_str(chat.id.as_str(), 30)
    }
}

/// The labels of a prefix of the members are a prefix of all labels.
proof fn lemma_labels_prefix(ms: Seq<CsaMember>, me: Seq<char>, i: int)
    requires
        0 <= i <= ms.len(),
    ensures
        other_member_labels(ms.take(i), me).len() <= other_member_labels(ms, me).len(),
        forall|k: int|
            0 <= k < other_member_labels(ms.take(i), me).len() ==> #[trigger] other_member_labels(
                ms.take(i),
                me,
            )[k] == other_member_labels(ms, me)[k],
        other_member_labels(ms.take(i), me).len() < other_member_labels(ms, me).len() ==> i
            < ms.len(),
    decreases ms.len() - i,
{
    if i < ms.len() {
        lemma_labels_prefix(ms, me, i + 1);
        assert(ms.take(i + 1).drop_last() =~= ms.take(i));
        let a = other_member_labels(ms.take(i), me);
        let b = other_member_labels(ms.take(i + 1), me);
        assert forall|k: int| 0 <= k < a.len() implies #[trigger] a[k] == other_member_labels(
            ms,
            me,
        )[k] by {
            assert(a[k] == b[k]);
        }
    } else {
        assert(ms.take(i) =~= ms);
    }
}

/// Whether `resolve_csa_chat_name` runs without panicking on `chat`.
pub fn csa_chat_name_ok(chat: &CsaChat, my_bare_id: &str) -> (b: bool)
    ensures
        b == csa_chat_name_safe(*chat, my_bare_id@),
{
    if !chat.is_one_on_one {
        return true;
    }
    match &chat.last_message {
        Some(lm) => {
            if !lm.im_display_name.as_str().is_empty() {
                let from_bare = bare_id_str(lm.from.as_str());
                if !eq_str(from_bare.as_str(), my_bare_id) {
                    return true;
                }
            }
        },
        None => {},
    }
    match first_other_csa_index(&chat.members, my_bare_id) {
        Some(k) => user_label_ok(chat.members[k].object_id.as_str()),
        None => true,
    }
}

/// The first member who is not `me` is found where it stands.
proof fn lemma_first_other_at(ms: Seq<CsaMember>, me: Seq<char>, k: int)
    requires
        0 <= k < ms.len(),
        bare_id(ms[k].mri@) != me,
        forall|j: int| 0 <= j < k ==> bare_id(#[trigger] ms[j].mri@) == me,
    ensures
        first_other_csa_member(ms, me) == Some(k),
    decreases k,
{
    if k > 0 {
        let t = ms.drop_first();
        assert(bare_id(ms[0].mri@) == me);
        assert forall|j: int| 0 <= j < k - 1 implies bare_id(#[trigger] t[j].mri@) == me by {
            assert(t[j] == ms[j + 1]);
        }
        assert(t[k - 1] == ms[k]);
        lemma_first_other_at(t, me, k - 1);
    }
}

/// Naming law for an untitled 1:1 CSA chat, where `k` is the first member
/// who is not me: when I sent the last message (or there is none), the chat
/// is named by the user label of member `k`, never by my own display name;
/// when the other person sent it under a non-empty name, by that name. In
/// the chat list the name follows the chat symbol.
pub proof fn lemma_one_on_one_named_after_other(chat: CsaChat, me: Seq<char>, k: int)
    requires
        chat.is_one_on_one,
        0 <= k < chat.members@.len(),
        bare_id(chat.members@[k].mri@) != me,
        forall|j: int| 0 <= j < k ==> bare_id(#[trigger] chat.members@[j].mri@) == me,
    ensures
        match chat.last_message {
            Some(lm) => if bare_id(lm.from@) == me || lm.im_display_name@.len() == 0 {
                csa_chat_name(chat, me) == user_label(chat.members@[k].object_id@)
            } else {
                csa_chat_name(chat, me) == lm.im_display_name@
            },
            None => csa_chat_name(chat, me) == user_label(chat.members@[k].object_id@),
        },
        (!has_title(chat) && chat.thread_type@ == "chat"@) ==> csa_entry(chat, me).display_name
            == "💬 "@ + csa_chat_name(chat, me),
{
    lemma_first_other_at(chat.members@, me, k);
}

/// Whether CSA chat `c` is left out of the chat list.
pub open spec fn csa_skipped(c: CsaChat) -> bool {
    c.hidden || c.is_conversation_deleted || c.is_disabled
}

/// Whether `c` has a non-empty title.
pub open spec fn has_title(c: CsaChat) -> bool {
    match c.title {
        Some(t) => t@.len() > 0,
        None => false,
    }
}

/// The name of a CSA chat: its non-empty title, else the resolved name.
pub open spec fn csa_base_name(c: CsaChat, me: Seq<char>) -> Seq<char> {
    if has_title(c) {
        c.title.unwrap()@
    } else {
        csa_chat_name(c, me)
    }
}

/// `name` with the symbol of its thread type in front.
pub open spec fn type_prefixed(thread_type: Seq<char>, name: Seq<char>) -> Seq<char> {
    if thread_type == "chat"@ {
        "💬 "@ + name
    } else if thread_type == "meeting"@ {
        "📅 "@ + name
    } else if thread_type == "topic"@ {
        "📋 "@ + name
    } else {
        name
    }
}

/// The sidebar entry of a CSA chat.
pub open spec fn csa_entry(c: CsaChat, me: Seq<char>) -> ChatEntryView {
    ChatEntryView {
        id: c.id@,
        display_name: type_prefixed(c.thread_type@, csa_base_name(c, me)),
        unread_count: if c.is_read {
            0
        } else {
            1
        },
        read_horizon_id: match c.consumption_horizon {
            Some(h) => h.original_arrival_time,
            None => 0,
        },
    }
}

/// The sidebar entries of the CSA chats that are not hidden, deleted or
/// disabled, in input order.
pub open spec fn csa_entries(chats: Seq<CsaChat>, me: Seq<char>) -> Seq<ChatEntryView>
    decreases chats.len(),
{
    if chats.len() == 0 {
        Seq::empty()
    } else {
        let prev = csa_entries(chats.drop_last(), me);
        if csa_skipped(chats.last()) {
            prev
        } else {
            prev.push(csa_entry(chats.last(), me))
        }
    }
}

/// Whether converting the CSA chats runs without panicking.
pub open spec fn csa_chats_safe(chats: Seq<CsaChat>, me: Seq<char>) -> bool {
    forall|i: int|
        0 <= i < chats.len() && !csa_skipped(#[trigger] chats[i]) && !has_title(chats[i])
            ==> csa_chat_name_safe(chats[i], me)
}

fn prefix_type(thread_type: &str, name: String) -> (r: String)
    ensures
        r@ == type_prefixed(thread_type@, name@),
{
    if eq_str(thread_type, "chat") {
        concat("💬 ", name.as_str())
    } else if eq_str(thread_type, "meeting") {
        concat("📅 ", name.as_str())
    } else if eq_str(thread_type, "topic") {
        concat("📋 ", name.as_str())
    } else {
        name
    }
}

/// Whether `parse_csa_chats` runs without panicking for the user `me` (a
/// bare ID).
pub fn csa_chats_ok(chats: &[CsaChat], me: &str) -> (b: bool)
    ensures
        b == csa_chats_safe(chats@, me@),
{
    let mut i: usize = 0;
    while i < chats.len()
        invariant
            i <= chats.len(),
            forall|j: int|
                0 <= j < i && !csa_skipped(#[trigger] chats@[j]) && !has_title(chats@[j])
                    ==> csa_chat_name_safe(chats@[j], me@),
        decreases chats.len() - i,
    {
        let chat = &chats[i];
        let skipped = chat.hidden || chat.is_conversation_deleted || chat.is_disabled;
        let titled = match &chat.title {
            Some(t) => !t.as_str().is_empty(),
            None => false,
        };
        if !skipped && !titled && !csa_chat_name_ok(chat, me) {
            assert(!csa_skipped(chats@[i as int]) && !has_title(chats@[i as int]));
            return false;
        }
        i = i + 1;
    }
    true
}

/// Convert CSA chat objects to the sidebar's chat entries.
pub fn parse_csa_chats(chats: &[CsaChat], my_user_id: &str) -> (entries: Vec<ChatEntry>)
    requires
        csa_chats_safe(chats@, bare_id(my_user_id@)),
    ensures
        entries_view(entries@) == csa_entries(chats@, bare_id(my_user_id@)),
{
    let my_bare_id = bare_id_str(my_user_id);
    let mut entries: Vec<ChatEntry> = Vec::new();
    let mut i: usize = 0;
    while i < chats.len()
        invariant
            my_bare_id@ == bare_id(my_user_id@),
            csa_chats_safe(chats@, my_bare_id@),
            i <= chats.len(),
            entries_view(entries@) == csa_entries(chats@.take(i as int), my_bare_id@),
        decreases chats.len() - i,
    {
        let chat = &chats[i];
        proof {
            assert(chats@.take(i + 1).drop_last() =~= chats@.take(i as int));
            assert(chats@.take(i + 1).last() == chats@[i as int]);
        }
        if !(chat.hidden || chat.is_conversation_deleted || chat.is_disabled) {
            let name = match &chat.title {
                Some(t) => {
                    if !t.as_str().is_empty() {
                        t.clone()
                    } else {
                        resolve_csa_chat_name(chat, my_bare_id.as_str())
                    }
                },
                None => resolve_csa_chat_name(chat, my_bare_id.as_str()),
            };
            let display_name = prefix_type(chat.thread_type.as_str(), name);
            let unread_count: u32 = if chat.is_read {
                0
            } else {
                1
            };
            let read_horizon_id: u64 = match &chat.consumption_horizon {
                Some(h) => h.original_arrival_time,
                None => 0,
            };
            let entry = ChatEntry { id: chat.id.clone(), display_name, unread_count, read_horizon_id };
            proof {
                assert(entry@ == csa_entry(chats@[i as int], my_bare_id@));
                assert(entries_view(entries@.push(entry)) =~= entries_view(entries@).push(entry@));
            }
            entries.push(entry);
        }
        i = i + 1;
    }
    proof {
        assert(chats@.take(chats.len() as int) =~= chats@);
    }
    entries
}

// ---------------------------------------------------------------------------
// Placeholders for folder conversations missing from the chat list
// ---------------------------------------------------------------------------

/// Whether some entry has the ID `id`.
pub open spec fn has_entry_id(es: Seq<ChatEntryView>, id: Seq<char>) -> bool {
    exists|j: int| 0 <= j < es.len() && (#[trigger] es[j]).id == id
}

/// The symbol that marks a placeholder of the given thread type.
pub open spec fn thread_prefix(thread_type: Seq<char>) -> Seq<char> {
    if thread_type == "chat"@ {
        "💬 "@
    } else if thread_type == "meeting"@ {
        "📅 "@
    } else if thread_type == "topic"@ {
        "📋 "@
    } else if thread_type == "space"@ {
        "📌 "@
    } else {
        "💬 "@
    }
}

/// The placeholder entry of a folder conversation.
pub open spec fn placeholder_entry(item: CsaFolderItem) -> ChatEntryView {
    ChatEntryView {
        id: item.conversation_id@,
        display_name: thread_prefix(item.thread_type@) + short_id_spec(item.conversation_id@),
        unread_count: 0,
        read_horizon_id: 0,
    }
}

/// Placeholders for the items whose conversation is not among `known`.
pub open spec fn item_placeholders(
    items: Seq<CsaFolderItem>,
    known: Seq<ChatEntryView>,
) -> Seq<ChatEntryView>
    decreases items.len(),
{
    if items.len() == 0 {
        Seq::empty()
    } else {
        let prev = item_placeholders(items.drop_last(), known);
        if has_entry_id(known, items.last().conversation_id@) {
            prev
        } else {
            prev.push(placeholder_entry(items.last()))
        }
    }
}

/// Placeholders for the conversations of non-deleted folders that are not
/// among `known`, folder by folder.
pub open spec fn folder_placeholders(
    folders: Seq<CsaFolder>,
    known: Seq<ChatEntryView>,
) -> Seq<ChatEntryView>
    decreases folders.len(),
{
    if folders.len() == 0 {
        Seq::empty()
    } else {
        let prev = folder_placeholders(folders.drop_last(), known);
        if folders.last().is_deleted {
            prev
        } else {
            prev + item_placeholders(folders.last().conversation_folder_items@, known)
        }
    }
}

/// The chat list after filling in placeholders.
pub open spec fn fill_spec(folders: Seq<CsaFolder>, known: Seq<ChatEntryView>) -> Seq<
    ChatEntryView,
> {
    known + folder_placeholders(folders, known)
}

/// Whether making the placeholders runs without panicking.
pub open spec fn fill_safe(folders: Seq<CsaFolder>, known: Seq<ChatEntryView>) -> bool {
    forall|k: int, t: int|
        0 <= k < folders.len() && !folders[k].is_deleted && 0 <= t
            < folders[k].conversation_folder_items@.len() && !has_entry_id(
            known,
            (#[trigger] folders[k].conversation_folder_items@[t]).conversation_id@,
        ) ==> short_id_safe(folders[k].conversation_folder_items@[t].conversation_id@)
}

fn prefix_of_thread(thread_type: &str) -> (r: &'static str)
    ensures
        r@ == thread_prefix(thread_type@),
{
    if eq_str(thread_type, "chat") {
        "💬 "
    } else if eq_str(thread_type, "meeting") {
        "📅 "
    } else if eq_str(thread_type, "topic") {
        "📋 "
    } else if eq_str(thread_type, "space") {
        "📌 "
    } else {
        "💬 "
    }
}

fn has_id_before(chats: &Vec<ChatEntry>, n: usize, id: &String) -> (b: bool)
    requires
        n <= chats.len(),
    ensures
        b == has_entry_id(entries_view(chats@).take(n as int), id@),
{
    let ghost es = entries_view(chats@).take(n as int);
    let mut j: usize = 0;
    while j < n
        invariant
            n <= chats.len(),
            es == entries_view(chats@).take(n as int),
            j <= n,
            forall|m: int| 0 <= m < j ==> (#[trigger] es[m]).id != id@,
        decreases n - j,
    {
        if chats[j].id == *id {
            assert(es[j as int].id == id@);
            return true;
        }
        j = j + 1;
    }
    false
}

/// Whether `fill_missing_folder_chats` runs without panicking on `chats`.
pub fn fill_ok(chats: &Vec<ChatEntry>, folders: &[CsaFolder]) -> (b: bool)
    ensures
        b == fill_safe(folders@, entries_view(chats@)),
{
    let ghost known = entries_view(chats@);
    let mut k: usize = 0;
    while k < folders.len()
        invariant
            known == entries_view(chats@),
            k <= folders.len(),
            forall|kk: int, t: int|
                0 <= kk < k && !folders@[kk].is_deleted && 0 <= t
                    < folders@[kk].conversation_folder_items@.len() && !has_entry_id(
                    known,
                    (#[trigger] folders@[kk].conversation_folder_items@[t]).conversation_id@,
                ) ==> short_id_safe(folders@[kk].conversation_folder_items@[t].conversation_id@),
        decreases folders.len() - k,
    {
        let folder = &folders[k];
        if !folder.is_deleted {
            let items = &folder.conversation_folder_items;
            let mut t: usize = 0;
            while t < items.len()
                invariant
                    known == entries_view(chats@),
                    k < folders.len(),
                    *items == folders@[k as int].conversation_folder_items,
                    !folders@[k as int].is_deleted,
                    t <= items.len(),
                    forall|kk: int, tt: int|
                        0 <= kk < k && !folders@[kk].is_deleted && 0 <= tt
                            < folders@[kk].conversation_folder_items@.len() && !has_entry_id(
                            known,
                            (#[trigger] folders@[kk].conversation_folder_items@[tt]).conversation_id@,
                        ) ==> short_id_safe(
                            folders@[kk].conversation_folder_items@[tt].conversation_id@,
                        ),
                    forall|tt: int|
                        0 <= tt < t && !has_entry_id(
                            known,
                            (#[trigger] items@[tt]).conversation_id@,
                        ) ==> short_id_safe(items@[tt].conversation_id@),
                decreases items.len() - t,
            {
                let item = &items[t];
                let n = chats.len();
                proof {
                    assert(entries_view(chats@).take(n as int) =~= known);
                }
                if !has_id_before(chats, n, &item.conversation_id) && !short_id_ok(
                    item.conversation_id.as_str(),
                ) {
                    assert(folders@[k as int].conversation_folder_items@[t as int] == *item);
                    return false;
                }
                t = t + 1;
            }
            assert forall|kk: int, tt: int|
                0 <= kk < k + 1 && !folders@[kk].is_deleted && 0 <= tt
                    < folders@[kk].conversation_folder_items@.len() && !has_entry_id(
                    known,
                    (#[trigger] folders@[kk].conversation_folder_items@[tt]).conversation_id@,
                ) implies short_id_safe(
                folders@[kk].conversation_folder_items@[tt].conversation_id@,
            ) by {
                if kk == k {
                    assert(items@[tt] == folders@[kk].conversation_folder_items@[tt]);
                }
            }
        }
        k = k + 1;
    }
    true
}

/// Fill in placeholder entries for conversations referenced by folders but
/// missing from the chat list, so that a folder with conversation IDs is
/// never shown empty.
pub fn fill_missing_folder_chats(chats: &mut Vec<ChatEntry>, folders: &[CsaFolder])
    requires
        fill_safe(folders@, entries_view(old(chats)@)),
    ensures
        entries_view(final(chats)@) == fill_spec(folders@, entries_view(old(chats)@)),
{
    let n0 = chats.len();
    let ghost known = entries_view(chats@);
    let mut k: usize = 0;
    proof {
        assert(known + Seq::<ChatEntryView>::empty() =~= known);
    }
    while k < folders.len()
        invariant
            n0 <= chats.len(),
            known.len() == n0,
            fill_safe(folders@, known),
            k <= folders.len(),
            entries_view(chats@) == known + folder_placeholders(folders@.take(k as int), known),
        decreases folders.len() - k,
    {
        let folder = &folders[k];
        proof {
            assert(folders@.take(k + 1).drop_last() =~= folders@.take(k as int));
            assert(folders@.take(k + 1).last() == folders@[k as int]);
        }
        if !folder.is_deleted {
            let ghost base = entries_view(chats@);
            let items = &folder.conversation_folder_items;
            let mut t: usize = 0;
            proof {
                assert(base + Seq::<ChatEntryView>::empty() =~= base);
            }
            while t < items.len()
                invariant
                    n0 <= chats.len(),
                    known.len() == n0,
                    fill_safe(folders@, known),
                    k < folders.len(),
                    !folders@[k as int].is_deleted,
                    *items == folders@[k as int].conversation_folder_items,
                    t <= items.len(),
                    base.len() >= n0,
                    base.take(n0 as int) == known,
                    entries_view(chats@) == base + item_placeholders(items@.take(t as int), known),
                decreases items.len() - t,
            {
                let item = &items[t];
                proof {
                    assert(items@.take(t + 1).drop_last() =~= items@.take(t as int));
                    assert(items@.take(t + 1).last() == items@[t as int]);
                    assert(entries_view(chats@).take(n0 as int) =~= known);
                }
                if !has_id_before(chats, n0, &item.conversation_id) {
                    proof {
                        assert(short_id_safe(item.conversation_id@)) by {
                            assert(folders@[k as int].conversation_folder_items@[t as int] == *item);
                        }
                    }
                    let prefix = prefix_of_thread(item.thread_type.as_str());
                    let sid = short_id(item.conversation_id.as_str());
                    let entry = ChatEntry {
                        id: item.conversation_id.clone(),
                        display_name: concat(prefix, sid.as_str()),
                        unread_count: 0,
                        read_horizon_id: 0,
                    };
                    proof {
                        assert(entry@ == placeholder_entry(*item));
                        assert(entries_view(chats@.push(entry)) =~= entries_view(chats@).push(
                            entry@,
                        ));
                        assert(base + item_placeholders(items@.take(t as int), known).push(entry@)
                            =~= (base + item_placeholders(items@.take(t as int), known)).push(
                            entry@,
                        ));
                    }
                    chats.push(entry);
                }
                t = t + 1;
            }
            proof {
                assert(items@.take(items.len() as int) =~= items@);
                assert(known + folder_placeholders(folders@.take(k as int), known) + item_placeholders(
                    items@,
                    known,
                ) =~= known + (folder_placeholders(folders@.take(k as int), known)
                    + item_placeholders(items@, known)));
            }
        }
        k = k + 1;
    }
    proof {
        assert(folders@.take(folders.len() as int) =~= folders@);
    }
}

// ---------------------------------------------------------------------------
// Merging the chat service's list into the CSA list
// ---------------------------------------------------------------------------

/// Whether a display name is only a raw conversation ID.
pub open spec fn is_placeholder_name(n: Seq<char>) -> bool {
    is_prefix_of("19:"@, n) || contains_seq(n, "@thread.v2"@) || contains_seq(
        n,
        "@unq.gbl.spaces"@,
    )
}

/// Index of the last entry with ID `id`, or -1.
pub open spec fn last_index_of(es: Seq<ChatEntryView>, id: Seq<char>) -> int
    decreases es.len(),
{
    if es.len() == 0 {
        -1
    } else if es.last().id == id {
        es.len() - 1
    } else {
        last_index_of(es.drop_last(), id)
    }
}

/// One incoming entry merged into the list: an entry with the same ID (the
/// last one) takes the incoming unread count and read horizon, and its name
/// unless the incoming name is a raw ID; a new ID is appended.
pub open spec fn merge_step(es: Seq<ChatEntryView>, c: ChatEntryView) -> Seq<ChatEntryView> {
    let j = last_index_of(es, c.id);
    if j >= 0 {
        es.update(
            j,
            ChatEntryView {
                id: es[j].id,
                display_name: if is_placeholder_name(c.display_name) {
                    es[j].display_name
                } else {
                    c.display_name
                },
                unread_count: c.unread_count,
                read_horizon_id: c.read_horizon_id,
            },
        )
    } else {
        es.push(c)
    }
}

/// All incoming entries merged, in order.
pub open spec fn merge_spec(es: Seq<ChatEntryView>, incoming: Seq<ChatEntryView>) -> Seq<
    ChatEntryView,
>
    decreases incoming.len(),
{
    if incoming.len() == 0 {
        es
    } else {
        merge_step(merge_spec(es, incoming.drop_last()), incoming.last())
    }
}

/// `last_index_of` finds the last matching entry.
pub proof fn lemma_last_index_of(es: Seq<ChatEntryView>, id: Seq<char>)
    ensures
        -1 <= last_index_of(es, id) < es.len(),
        last_index_of(es, id) >= 0 ==> es[last_index_of(es, id)].id == id,
        forall|m: int| last_index_of(es, id) < m < es.len() ==> (#[trigger] es[m]).id != id,
    decreases es.len(),
{
    if es.len() > 0 {
        lemma_last_index_of(es.drop_last(), id);
        if es.last().id != id {
            assert forall|m: int| last_index_of(es, id) < m < es.len() implies (
            #[trigger] es[m]).id != id by {
                if m < es.len() - 1 {
                    assert(es[m] == es.drop_last()[m]);
                }
            }
        }
    }
}

fn last_index(existing: &Vec<ChatEntry>, id: &String) -> (r: Option<usize>)
    ensures
        match r {
            Some(j) => last_index_of(entries_view(existing@), id@) == j as int && j
                < existing@.len(),
            None => last_index_of(entries_view(existing@), id@) == -1,
        },
{
    let ghost es = entries_view(existing@);
    let mut j: usize = existing.len();
    proof {
        assert(es.take(j as int) =~= es);
    }
    while j > 0
        invariant
            es == entries_view(existing@),
            j <= existing.len(),
            last_index_of(es, id@) == last_index_of(es.take(j as int), id@),
        decreases j,
    {
        proof {
            assert(es.take(j as int).last() == es[j - 1]);
            assert(es.take(j as int).drop_last() =~= es.take(j - 1));
        }
        if existing[j - 1].id == *id {
            assert(es[j - 1].id == id@);
            return Some(j - 1);
        }
        j = j - 1;
    }
    None
}

/// Merge chat-service entries into the existing chat list: an existing ID
/// takes the incoming name (unless that is a raw conversation ID), unread
/// count and read horizon; a new ID is appended.
pub fn merge_chatsvc_into_existing(existing: &mut Vec<ChatEntry>, incoming: Vec<ChatEntry>)
    ensures
        entries_view(final(existing)@) == merge_spec(
            entries_view(old(existing)@),
            entries_view(incoming@),
        ),
{
    let ghost start = entries_view(existing@);
    let mut i: usize = 0;
    proof {
        assert(entries_view(incoming@).take(0) =~= Seq::<ChatEntryView>::empty());
    }
    while i < incoming.len()
        invariant
            i <= incoming.len(),
            entries_view(existing@) == merge_spec(start, entries_view(incoming@).take(i as int)),
        decreases incoming.len() - i,
    {
        let chat = &incoming[i];
        proof {
            let inc = entries_view(incoming@);
            assert(inc.take(i + 1).drop_last() =~= inc.take(i as int));
            assert(inc.take(i + 1).last() == chat@);
        }
        match last_index(existing, &chat.id) {
            Some(j) => {
                let placeholder = starts_with(chat.display_name.as_str(), "19:") || contains(
                    chat.display_name.as_str(),
                    "@thread.v2",
                ) || contains(chat.display_name.as_str(), "@unq.gbl.spaces");
                let display_name = if placeholder {
                    existing[j].display_name.clone()
                } else {
                    chat.display_name.clone()
                };
                let entry = ChatEntry {
                    id: existing[j].id.clone(),
                    display_name,
                    unread_count: chat.unread_count,
                    read_horizon_id: chat.read_horizon_id,
                };
                proof {
                    lemma_last_index_of(entries_view(existing@), chat.id@);
                }
                existing.set(j, entry);
                proof {
                    assert(entries_view(existing@) =~= merge_step(
                        merge_spec(start, entries_view(incoming@).take(i as int)),
                        chat@,
                    ));
                }
            },
            None => {
                let entry = chat.duplicate();
                existing.push(entry);
                proof {
                    assert(entries_view(existing@) =~= merge_step(
                        merge_spec(start, entries_view(incoming@).take(i as int)),
                        chat@,
                    ));
                }
            },
        }
        i = i + 1;
    }
    proof {
        assert(entries_view(incoming@).take(incoming.len() as int) =~= entries_view(incoming@));
    }
}

// ---------------------------------------------------------------------------
// Laws of filling and merging
// ---------------------------------------------------------------------------

/// An ID present in `a` is present in `a + b`, and one present in `b` too.
pub proof fn lemma_has_entry_id_concat(a: Seq<ChatEntryView>, b: Seq<ChatEntryView>, id: Seq<char>)
    ensures
        has_entry_id(a, id) ==> has_entry_id(a + b, id),
        has_entry_id(b, id) ==> has_entry_id(a + b, id),
{
    if has_entry_id(a, id) {
        let j = choose|j: int| 0 <= j < a.len() && (#[trigger] a[j]).id == id;
        assert((a + b)[j] == a[j]);
    }
    if has_entry_id(b, id) {
        let j = choose|j: int| 0 <= j < b.len() && (#[trigger] b[j]).id == id;
        assert((a + b)[a.len() as int + j] == b[j]);
    }
}

proof fn lemma_items_cover(items: Seq<CsaFolderItem>, known: Seq<ChatEntryView>, base: Seq<ChatEntryView>)
    requires
        forall|id: Seq<char>| has_entry_id(known, id) ==> has_entry_id(base, id),
    ensures
        forall|t: int|
            0 <= t < items.len() ==> has_entry_id(
                base + item_placeholders(items, known),
                (#[trigger] items[t]).conversation_id@,
            ),
    decreases items.len(),
{
    if items.len() > 0 {
        let prev = item_placeholders(items.drop_last(), known);
        lemma_items_cover(items.drop_last(), known, base);
        let cur = item_placeholders(items, known);
        assert forall|t: int| 0 <= t < items.len() implies has_entry_id(
            base + cur,
            (#[trigger] items[t]).conversation_id@,
        ) by {
            let id = items[t].conversation_id@;
            if t < items.len() - 1 {
                assert(items[t] == items.drop_last()[t]);
                let j = choose|j: int| 0 <= j < (base + prev).len() && (#[trigger] (base + prev)[j]).id == id;
                assert((base + cur)[j] == (base + prev)[j]);
            } else if has_entry_id(known, id) {
                lemma_has_entry_id_concat(base, cur, id);
            } else {
                assert(cur == prev.push(placeholder_entry(items.last())));
                assert((base + cur)[(base.len() + prev.len()) as int] == placeholder_entry(items.last()));
            }
        }
    }
}

proof fn lemma_folders_cover(folders: Seq<CsaFolder>, known: Seq<ChatEntryView>)
    ensures
        forall|k: int, t: int|
            0 <= k < folders.len() && !folders[k].is_deleted && 0 <= t
                < folders[k].conversation_folder_items@.len() ==> has_entry_id(
                fill_spec(folders, known),
                (#[trigger] folders[k].conversation_folder_items@[t]).conversation_id@,
            ),
    decreases folders.len(),
{
    if folders.len() > 0 {
        let init = folders.drop_last();
        lemma_folders_cover(init, known);
        let prev = fill_spec(init, known);
        let cur = fill_spec(folders, known);
        assert forall|k: int, t: int|
            0 <= k < folders.len() && !folders[k].is_deleted && 0 <= t
                < folders[k].conversation_folder_items@.len() implies has_entry_id(
            cur,
            (#[trigger] folders[k].conversation_folder_items@[t]).conversation_id@,
        ) by {
            let id = folders[k].conversation_folder_items@[t].conversation_id@;
            if k < folders.len() - 1 {
                assert(folders[k] == init[k]);
                assert(has_entry_id(prev, init[k].conversation_folder_items@[t].conversation_id@));
                if !folders.last().is_deleted {
                    assert(cur =~= prev + item_placeholders(
                        folders.last().conversation_folder_items@,
                        known,
                    ));
                    lemma_has_entry_id_concat(prev, item_placeholders(
                        folders.last().conversation_folder_items@,
                        known,
                    ), id);
                }
            } else {
                let items = folders.last().conversation_folder_items@;
                assert(cur =~= prev + item_placeholders(items, known));
                assert forall|id2: Seq<char>| has_entry_id(known, id2) implies has_entry_id(
                    prev,
                    id2,
                ) by {
                    lemma_has_entry_id_concat(known, folder_placeholders(init, known), id2);
                }
                lemma_items_cover(items, known, prev);
                assert(items[t].conversation_id@ == id);
            }
        }
    }
}

proof fn lemma_no_placeholders(folders: Seq<CsaFolder>, known: Seq<ChatEntryView>)
    requires
        forall|k: int, t: int|
            0 <= k < folders.len() && !folders[k].is_deleted && 0 <= t
                < folders[k].conversation_folder_items@.len() ==> has_entry_id(
                known,
                (#[trigger] folders[k].conversation_folder_items@[t]).conversation_id@,
            ),
    ensures
        folder_placeholders(folders, known) == Seq::<ChatEntryView>::empty(),
    decreases folders.len(),
{
    if folders.len() > 0 {
        let init = folders.drop_last();
        assert forall|k: int, t: int|
            0 <= k < init.len() && !init[k].is_deleted && 0 <= t
                < init[k].conversation_folder_items@.len() implies has_entry_id(
            known,
            (#[trigger] init[k].conversation_folder_items@[t]).conversation_id@,
        ) by {
            assert(init[k] == folders[k]);
        }
        lemma_no_placeholders(init, known);
        if !folders.last().is_deleted {
            let items = folders.last().conversation_folder_items@;
            lemma_no_item_placeholders(items, known, folders, folders.len() - 1);
            assert(Seq::<ChatEntryView>::empty() + Seq::<ChatEntryView>::empty() =~= Seq::<
                ChatEntryView,
            >::empty());
        }
    }
}

proof fn lemma_no_item_placeholders(
    items: Seq<CsaFolderItem>,
    known: Seq<ChatEntryView>,
    folders: Seq<CsaFolder>,
    k: int,
)
    requires
        0 <= k < folders.len(),
        items.len() <= folders[k].conversation_folder_items@.len(),
        forall|t: int| 0 <= t < items.len() ==> #[trigger] items[t] == folders[k].conversation_folder_items@[t],
        forall|t: int|
            0 <= t < items.len() ==> has_entry_id(known, (#[trigger] items[t]).conversation_id@),
    ensures
        item_placeholders(items, known) == Seq::<ChatEntryView>::empty(),
    decreases items.len(),
{
    if items.len() > 0 {
        let init = items.drop_last();
        assert forall|t: int| 0 <= t < init.len() implies #[trigger] init[t]
            == folders[k].conversation_folder_items@[t] by {
            assert(init[t] == items[t]);
        }
        assert forall|t: int| 0 <= t < init.len() implies has_entry_id(
            known,
            (#[trigger] init[t]).conversation_id@,
        ) by {
            assert(init[t] == items[t]);
        }
        lemma_no_item_placeholders(init, known, folders, k);
        assert(has_entry_id(known, items[items.len() - 1].conversation_id@));
    }
}

/// Placeholder law: filling keeps the existing entries in front, leaves every
/// conversation of every non-deleted folder present in the list, and filling
/// a second time adds nothing.
pub proof fn lemma_fill_missing_laws(folders: Seq<CsaFolder>, known: Seq<ChatEntryView>)
    ensures
        fill_spec(folders, known).take(known.len() as int) == known,
        forall|k: int, t: int|
            0 <= k < folders.len() && !folders[k].is_deleted && 0 <= t
                < folders[k].conversation_folder_items@.len() ==> has_entry_id(
                fill_spec(folders, known),
                (#[trigger] folders[k].conversation_folder_items@[t]).conversation_id@,
            ),
        fill_spec(folders, fill_spec(folders, known)) == fill_spec(folders, known),
{
    assert(fill_spec(folders, known).take(known.len() as int) =~= known);
    lemma_folders_cover(folders, known);
    lemma_no_placeholders(folders, fill_spec(folders, known));
    assert(fill_spec(folders, known) + Seq::<ChatEntryView>::empty() =~= fill_spec(folders, known));
}

proof fn lemma_merge_step(es: Seq<ChatEntryView>, c: ChatEntryView)
    ensures
        merge_step(es, c).len() >= es.len(),
        forall|m: int| 0 <= m < es.len() ==> (#[trigger] merge_step(es, c)[m]).id == es[m].id,
        forall|m: int|
            0 <= m < es.len() && es[m].id != c.id ==> #[trigger] merge_step(es, c)[m] == es[m],
        has_entry_id(merge_step(es, c), c.id),
{
    lemma_last_index_of(es, c.id);
    let j = last_index_of(es, c.id);
    let r = merge_step(es, c);
    if j >= 0 {
        assert(r[j].id == c.id);
    } else {
        assert(r[es.len() as int] == c);
    }
}

/// Merge law: the merged list keeps every existing entry at its position with
/// its ID, contains every incoming ID, and leaves unchanged each existing
/// entry whose ID no incoming entry carries; merging nothing changes nothing.
pub proof fn lemma_merge_laws(es: Seq<ChatEntryView>, incoming: Seq<ChatEntryView>)
    ensures
        merge_spec(es, incoming).len() >= es.len(),
        forall|m: int| 0 <= m < es.len() ==> (#[trigger] merge_spec(es, incoming)[m]).id == es[m].id,
        forall|t: int|
            0 <= t < incoming.len() ==> has_entry_id(
                merge_spec(es, incoming),
                (#[trigger] incoming[t]).id,
            ),
        forall|m: int|
            0 <= m < es.len() && (forall|t: int| 0 <= t < incoming.len() ==> (#[trigger] incoming[t]).id != es[m].id)
                ==> #[trigger] merge_spec(es, incoming)[m] == es[m],
        merge_spec(es, Seq::empty()) == es,
    decreases incoming.len(),
{
    if incoming.len() > 0 {
        let init = incoming.drop_last();
        let c = incoming.last();
        lemma_merge_laws(es, init);
        let prev = merge_spec(es, init);
        let cur = merge_spec(es, incoming);
        lemma_merge_step(prev, c);
        assert forall|t: int| 0 <= t < incoming.len() implies has_entry_id(
            cur,
            (#[trigger] incoming[t]).id,
        ) by {
            if t < incoming.len() - 1 {
                assert(incoming[t] == init[t]);
                let j = choose|j: int| 0 <= j < prev.len() && (#[trigger] prev[j]).id == init[t].id;
                assert(cur[j].id == prev[j].id);
            }
        }
        assert forall|m: int|
            0 <= m < es.len() && (forall|t: int| 0 <= t < incoming.len() ==> (#[trigger] incoming[t]).id != es[m].id)
                implies #[trigger] cur[m] == es[m] by {
            assert forall|t: int| 0 <= t < init.len() implies (#[trigger] init[t]).id != es[m].id by {
                assert(init[t] == incoming[t]);
            }
            assert(incoming[incoming.len() - 1].id != es[m].id);
            assert(prev[m] == es[m]);
        }
    }
}

} // verus!
