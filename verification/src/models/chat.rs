//! Chats as the sidebar shows them, and HTML tag stripping.

use crate::api::types::{GraphChat, GraphChatMember};
use crate::text::{
    chars_of, eq_str, is_ws, lead_ws, push_char, take_chars, take_chars_str, trail_ws, trim_seq,
    trim_str, to_string,
};
use vstd::prelude::*;

verus! {

#[derive(Debug, Clone)]
pub enum ChatType {
    OneOnOne,
    Group,
    Meeting,
}

#[derive(Debug, Clone)]
pub struct Chat {
    pub id: String,
    pub display_name: String,
    pub chat_type: ChatType,
    pub last_message_preview: Option<String>,
    pub last_activity: Option<String>,
    pub members: Vec<ChatMember>,
}

#[derive(Debug, Clone)]
pub struct ChatMember {
    pub user_id: String,
    pub display_name: String,
}

// ---------------------------------------------------------------------------
// HTML stripping
// ---------------------------------------------------------------------------

/// The characters of `s` that lie outside `<...>` tags, scanning left to
/// right from the state `in_tag`; the brackets themselves are dropped.
pub open spec fn tag_scan(s: Seq<char>, in_tag: bool) -> Seq<char>
    decreases s.len(),
{
    if s.len() == 0 {
        Seq::empty()
    } else if s[0] == '<' {
        tag_scan(s.drop_first(), true)
    } else if s[0] == '>' {
        tag_scan(s.drop_first(), false)
    } else if !in_tag {
        seq![s[0]] + tag_scan(s.drop_first(), in_tag)
    } else {
        tag_scan(s.drop_first(), in_tag)
    }
}

/// The text of `s` outside tags, without surrounding whitespace.
pub open spec fn strip_html_spec(s: Seq<char>) -> Seq<char> {
    trim_seq(tag_scan(s, false))
}

/// Whether `s` holds no angle bracket.
pub open spec fn no_brackets(s: Seq<char>) -> bool {
    forall|i: int| 0 <= i < s.len() ==> #[trigger] s[i] != '<' && s[i] != '>'
}

/// Naive HTML tag stripper.
pub fn strip_html(s: &str) -> (r: String)
    ensures
        r@ == strip_html_spec(s@),
{
    let v = chars_of(s);
    let mut result = String::new();
    let mut in_tag = false;
    let mut i: usize = 0;
    proof {
        assert(s@.skip(0) =~= s@);
    }
    while i < v.len()
        invariant
            v@ == s@,
            i <= v.len(),
            result@ + tag_scan(s@.skip(i as int), in_tag) == tag_scan(s@, false),
        decreases v.len() - i,
    {
        let c = v[i];
        proof {
            assert(s@.skip(i as int)[0] == c);
            assert(s@.skip(i as int).drop_first() =~= s@.skip(i + 1));
        }
        if c == '<' {
            in_tag = true;
        } else if c == '>' {
            in_tag = false;
        } else if !in_tag {
            proof {
                assert(result@ + (seq![c] + tag_scan(s@.skip(i + 1), in_tag)) =~= result@.push(c)
                    + tag_scan(s@.skip(i + 1), in_tag));
            }
            push_char(&mut result, c);
        }
        i = i + 1;
    }
    proof {
        assert(s@.skip(i as int).len() == 0);
        assert(result@ + Seq::<char>::empty() =~= result@);
    }
    trim_str(result.as_str())
}

/// The scan never emits a bracket.
pub proof fn lemma_tag_scan_no_brackets(s: Seq<char>, in_tag: bool)
    ensures
        no_brackets(tag_scan(s, in_tag)),
    decreases s.len(),
{
    if s.len() > 0 {
        lemma_tag_scan_no_brackets(s.drop_first(), true);
        lemma_tag_scan_no_brackets(s.drop_first(), false);
        if s[0] != '<' && s[0] != '>' && !in_tag {
            let rest = tag_scan(s.drop_first(), in_tag);
            assert forall|i: int| 0 <= i < (seq![s[0]] + rest).len() implies #[trigger] (seq![
                s[0],
            ] + rest)[i] != '<' && (seq![s[0]] + rest)[i] != '>' by {
                if i > 0 {
                    assert((seq![s[0]] + rest)[i] == rest[i - 1]);
                }
            }
        }
    }
}

/// Text without brackets passes the scan unchanged.
pub proof fn lemma_tag_scan_identity(s: Seq<char>)
    requires
        no_brackets(s),
    ensures
        tag_scan(s, false) == s,
    decreases s.len(),
{
    if s.len() > 0 {
        assert(s[0] != '<' && s[0] != '>');
        assert(no_brackets(s.drop_first())) by {
            assert forall|i: int| 0 <= i < s.drop_first().len() implies #[trigger] s.drop_first()[i]
                != '<' && s.drop_first()[i] != '>' by {
                assert(s.drop_first()[i] == s[i + 1]);
            }
        }
        lemma_tag_scan_identity(s.drop_first());
        assert(seq![s[0]] + s.drop_first() =~= s);
    }
}

/// Basic facts about leading whitespace.
pub proof fn lemma_lead_ws_props(s: Seq<char>)
    ensures
        lead_ws(s) <= s.len(),
        forall|j: int| 0 <= j < lead_ws(s) ==> is_ws(#[trigger] s[j]),
        lead_ws(s) < s.len() ==> !is_ws(s[lead_ws(s) as int]),
    decreases s.len(),
{
    if s.len() > 0 && is_ws(s[0]) {
        lemma_lead_ws_props(s.drop_first());
        assert forall|j: int| 0 <= j < lead_ws(s) implies is_ws(#[trigger] s[j]) by {
            if j > 0 {
                assert(s[j] == s.drop_first()[j - 1]);
            }
        }
        if lead_ws(s) < s.len() {
            assert(s[lead_ws(s) as int] == s.drop_first()[lead_ws(s.drop_first()) as int]);
        }
    }
}

/// Basic facts about trailing whitespace.
pub proof fn lemma_trail_ws_props(s: Seq<char>)
    ensures
        trail_ws(s) <= s.len(),
        forall|j: int| s.len() - trail_ws(s) <= j < s.len() ==> is_ws(#[trigger] s[j]),
        trail_ws(s) < s.len() ==> !is_ws(s[s.len() - 1 - trail_ws(s)]),
    decreases s.len(),
{
    if s.len() > 0 && is_ws(s.last()) {
        lemma_trail_ws_props(s.drop_last());
        assert forall|j: int| s.len() - trail_ws(s) <= j < s.len() implies is_ws(#[trigger] s[j]) by {
            if j < s.len() - 1 {
                assert(s[j] == s.drop_last()[j]);
            }
        }
        if trail_ws(s) < s.len() {
            assert(s[s.len() - 1 - trail_ws(s)] == s.drop_last()[s.drop_last().len() - 1
                - trail_ws(s.drop_last())]);
        }
    }
}

/// A trimmed string is a well-formed sub-range and trimming it again changes
/// nothing.
pub proof fn lemma_trim_idempotent(s: Seq<char>)
    ensures
        trim_seq(trim_seq(s)) == trim_seq(s),
        lead_ws(s) < s.len() ==> lead_ws(s) < s.len() - trail_ws(s),
{
    lemma_lead_ws_props(s);
    lemma_trail_ws_props(s);
    let l = lead_ws(s);
    let t = trail_ws(s);
    if l < s.len() {
        if !(l < s.len() - t) {
            assert(is_ws(s[l as int]));
        }
        let u = s.subrange(l as int, s.len() - t);
        assert(u[0] == s[l as int]);
        assert(lead_ws(u) == 0);
        assert(u.last() == s[s.len() - 1 - t]);
        assert(trail_ws(u) == 0);
        assert(u.subrange(0, u.len() as int) =~= u);
    } else {
        assert(lead_ws(Seq::<char>::empty()) == 0);
    }
}

/// Trimming keeps a string free of brackets.
pub proof fn lemma_trim_no_brackets(s: Seq<char>)
    requires
        no_brackets(s),
    ensures
        no_brackets(trim_seq(s)),
{
    lemma_trim_idempotent(s);
    lemma_lead_ws_props(s);
    lemma_trail_ws_props(s);
    let u = trim_seq(s);
    if lead_ws(s) < s.len() {
        assert(u == s.subrange(lead_ws(s) as int, s.len() - trail_ws(s)));
        assert forall|i: int| 0 <= i < u.len() implies #[trigger] u[i] != '<' && u[i] != '>' by {
            assert(u[i] == s[lead_ws(s) + i]);
        }
    } else {
        assert(u.len() == 0);
    }
}

/// Stripping is idempotent, and its result holds no angle bracket.
pub proof fn lemma_strip_html_idempotent(s: Seq<char>)
    ensures
        strip_html_spec(strip_html_spec(s)) == strip_html_spec(s),
        no_brackets(strip_html_spec(s)),
{
    let t = tag_scan(s, false);
    lemma_tag_scan_no_brackets(s, false);
    lemma_trim_no_brackets(t);
    lemma_tag_scan_identity(trim_seq(t));
    lemma_trim_idempotent(t);
}

// ---------------------------------------------------------------------------
// Conversion from Graph chats
// ---------------------------------------------------------------------------

/// The chat type named by a Graph `chatType`.
pub open spec fn chat_type_of(t: Seq<char>) -> ChatType {
    if t == "oneOnOne"@ {
        ChatType::OneOnOne
    } else if t == "group"@ {
        ChatType::Group
    } else {
        ChatType::Meeting
    }
}

/// Whether a Graph member is someone other than `me`.
pub open spec fn is_other_member(m: GraphChatMember, me: Seq<char>) -> bool {
    match m.user_id {
        Some(u) => u@ != me,
        None => true,
    }
}

/// Index of the first member that is not `me`.
pub open spec fn first_other_member(ms: Seq<GraphChatMember>, me: Seq<char>) -> Option<int>
    decreases ms.len(),
{
    if ms.len() == 0 {
        None
    } else if is_other_member(ms[0], me) {
        Some(0)
    } else {
        match first_other_member(ms.drop_first(), me) {
            Some(k) => Some(k + 1),
            None => None,
        }
    }
}

/// The name a Graph chat is shown under: its topic, else the display name
/// of the first other member, else "Chat".
pub open spec fn graph_chat_name(graph: GraphChat, me: Seq<char>) -> Seq<char> {
    match graph.topic {
        Some(t) => t@,
        None => match graph.members {
            Some(ms) => match first_other_member(ms@, me) {
                Some(k) => match ms@[k].display_name {
                    Some(d) => d@,
                    None => "Chat"@,
                },
                None => "Chat"@,
            },
            None => "Chat"@,
        },
    }
}

/// The view of an optional string.
pub open spec fn opt_view(o: Option<String>) -> Option<Seq<char>> {
    match o {
        Some(s) => Some(s@),
        None => None,
    }
}

/// A `String` optional's value, or `default`.
pub open spec fn view_or(o: Option<String>, default: Seq<char>) -> Seq<char> {
    match o {
        Some(s) => s@,
        None => default,
    }
}

/// Clones an optional string.
pub fn clone_opt(o: &Option<String>) -> (r: Option<String>)
    ensures
        opt_view(r) == opt_view(*o),
{
    match o {
        Some(s) => Some(s.clone()),
        None => None,
    }
}

/// An optional string's value, or `default`.
pub fn string_or(o: &Option<String>, default: &str) -> (r: String)
    ensures
        r@ == view_or(*o, default@),
{
    match o {
        Some(s) => s.clone(),
        None => to_string(default),
    }
}

fn first_other_index(ms: &Vec<GraphChatMember>, me: &str) -> (r: Option<usize>)
    ensures
        match r {
            Some(k) => first_other_member(ms@, me@) == Some(k as int) && k < ms.len(),
            None => first_other_member(ms@, me@).is_none(),
        },
{
    let mut i: usize = 0;
    proof {
        assert(ms@.skip(0) =~= ms@);
    }
    while i < ms.len()
        invariant
            i <= ms.len(),
            forall|j: int| 0 <= j < i ==> !is_other_member(#[trigger] ms@[j], me@),
            first_other_member(ms@, me@) == match first_other_member(ms@.skip(i as int), me@) {
                Some(k) => Some(k + i),
                None => None::<int>,
            },
        decreases ms.len() - i,
    {
        proof {
            assert(ms@.skip(i as int)[0] == ms@[i as int]);
            assert(ms@.skip(i as int).drop_first() =~= ms@.skip(i + 1));
        }
        let other = match &ms[i].user_id {
            Some(u) => !eq_str(u.as_str(), me),
            None => true,
        };
        if other {
            return Some(i);
        }
        i = i + 1;
    }
    proof {
        assert(ms@.skip(i as int).len() == 0);
    }
    None
}

impl Chat {
    /// Whether this chat is the conversion of `graph` for the user `me`.
    pub open spec fn converts(self, graph: GraphChat, me: Seq<char>) -> bool {
        &&& self.id@ == graph.id@
        &&& self.chat_type == chat_type_of(graph.chat_type@)
        &&& self.display_name@ == graph_chat_name(graph, me)
        &&& opt_view(self.last_message_preview) == match graph.last_message_preview {
            Some(p) => Some(strip_html_spec(p.body.content@)),
            None => None,
        }
        &&& opt_view(self.last_activity) == opt_view(graph.last_updated_date_time)
        &&& self.members@.len() == match graph.members {
            Some(ms) => ms@.len(),
            None => 0,
        }
        &&& forall|j: int|
            0 <= j < self.members@.len() ==> {
                let ms = graph.members.unwrap()@;
                &&& #[trigger] self.members@[j].user_id@ == view_or(ms[j].user_id, Seq::empty())
                &&& self.members@[j].display_name@ == view_or(ms[j].display_name, "Unknown"@)
            }
    }

    /// Converts a Graph chat into the sidebar model.
    pub fn from_graph(graph: GraphChat, my_user_id: &str) -> (chat: Chat)
        ensures
            chat.converts(graph, my_user_id@),
    {
        let chat_type = if eq_str(graph.chat_type.as_str(), "oneOnOne") {
            ChatType::OneOnOne
        } else if eq_str(graph.chat_type.as_str(), "group") {
            ChatType::Group
        } else {
            ChatType::Meeting
        };

        let display_name = match &graph.topic {
            Some(t) => t.clone(),
            None => match &graph.members {
                Some(ms) => match first_other_index(ms, my_user_id) {
                    Some(k) => string_or(&ms[k].display_name, "Chat"),
                    None => to_string("Chat"),
                },
                None => to_string("Chat"),
            },
        };

        let last_message_preview = match &graph.last_message_preview {
            Some(p) => Some(strip_html(p.body.content.as_str())),
            None => None,
        };

        let mut members: Vec<ChatMember> = Vec::new();
        match &graph.members {
            Some(ms) => {
                let mut i: usize = 0;
                while i < ms.len()
                    invariant
                        graph.members == Some(*ms),
                        i <= ms.len(),
                        members@.len() == i,
                        forall|j: int|
                            0 <= j < i ==> {
                                &&& #[trigger] members@[j].user_id@ == view_or(
                                    ms@[j].user_id,
                                    Seq::empty(),
                                )
                                &&& members@[j].display_name@ == view_or(
                                    ms@[j].display_name,
                                    "Unknown"@,
                                )
                            },
                    decreases ms.len() - i,
                {
                    let user_id = string_or(&ms[i].user_id, "");
                    let display_name = string_or(&ms[i].display_name, "Unknown");
                    proof {
                        assert(""@ =~= Seq::<char>::empty()) by {
                            reveal_strlit("");
                        }
                    }
                    members.push(ChatMember { user_id, display_name });
                    i = i + 1;
                }
            },
            None => {},
        }

        let last_activity = clone_opt(&graph.last_updated_date_time);
        let id = graph.id.clone();
        assert(id@ == graph.id@);
        assert(display_name@ == graph_chat_name(graph, my_user_id@));
        assert(chat_type == chat_type_of(graph.chat_type@));
        assert(members@.len() == match graph.members {
            Some(ms) => ms@.len(),
            None => 0,
        });
        Chat { id, display_name, chat_type, last_message_preview, last_activity, members }
    }
}

impl Chat {
    /// The sidebar preview of this chat: the first 45 characters of its
    /// last message, or nothing.
    pub fn preview(&self) -> (r: String)
        ensures
            r@ == take_chars(view_or(self.last_message_preview, Seq::empty()), 45),
    {
        match &self.last_message_preview {
            Some(p) => take_chars_str(p.as_str(), 45),
            None => {
                let r = String::new();
                proof {
                    assert(take_chars(Seq::<char>::empty(), 45) =~= Seq::<char>::empty());
                }
                r
            },
        }
    }
}

} // verus!
