//! Chat messages converted from Graph messages.

use crate::api::types::GraphChatMessage;
use crate::models::chat::{opt_view, strip_html, strip_html_spec, string_or, view_or};
use crate::text::{eq_str, to_string};
use vstd::prelude::*;

verus! {

#[derive(Debug, Clone)]
pub struct ChatMessage {
    pub id: String,
    pub sender_name: String,
    pub sender_id: Option<String>,
    pub content: String,
    pub timestamp: String,
    pub is_from_me: bool,
    pub is_system: bool,
}

/// The sender's name and ID: the user, else the application, else "System".
pub open spec fn graph_sender(msg: GraphChatMessage) -> (Seq<char>, Option<Seq<char>>) {
    match msg.from {
        Some(f) => match f.user {
            Some(u) => (view_or(u.display_name, "Unknown"@), Some(u.id@)),
            None => match f.application {
                Some(a) => (view_or(a.display_name, "Bot"@), Some(a.id@)),
                None => ("System"@, None),
            },
        },
        None => ("System"@, None),
    }
}

/// Whether an optional string holds exactly `s`.
pub open spec fn opt_is(o: Option<String>, s: Seq<char>) -> bool {
    match o {
        Some(v) => v@ == s,
        None => false,
    }
}

fn opt_equals(o: &Option<String>, s: &str) -> (b: bool)
    ensures
        b == opt_is(*o, s@),
{
    match o {
        Some(v) => eq_str(v.as_str(), s),
        None => false,
    }
}

impl ChatMessage {
    /// Whether this message is the conversion of `msg` for the user `me`.
    pub open spec fn converts(self, msg: GraphChatMessage, me: Seq<char>) -> bool {
        &&& self.id@ == msg.id@
        &&& self.sender_name@ == graph_sender(msg).0
        &&& opt_view(self.sender_id) == graph_sender(msg).1
        &&& self.is_from_me == (graph_sender(msg).1 == Some(me))
        &&& self.is_system == !opt_is(msg.message_type, "message"@)
        &&& self.content@ == if opt_is(msg.body.content_type, "html"@) {
            strip_html_spec(msg.body.content@)
        } else {
            msg.body.content@
        }
        &&& self.timestamp@ == view_or(msg.created_date_time, Seq::empty())
    }

    /// Converts a Graph message into the display model.
    pub fn from_graph(msg: GraphChatMessage, my_user_id: &str) -> (m: ChatMessage)
        ensures
            m.converts(msg, my_user_id@),
    {
        let (sender_name, sender_id): (String, Option<String>) = match &msg.from {
            Some(f) => match &f.user {
                Some(u) => (string_or(&u.display_name, "Unknown"), Some(u.id.clone())),
                None => match &f.application {
                    Some(a) => (string_or(&a.display_name, "Bot"), Some(a.id.clone())),
                    None => (to_string("System"), None),
                },
            },
            None => (to_string("System"), None),
        };

        let is_from_me = match &sender_id {
            Some(s) => eq_str(s.as_str(), my_user_id),
            None => false,
        };
        let is_system = !opt_equals(&msg.message_type, "message");

        let content = if opt_equals(&msg.body.content_type, "html") {
            strip_html(msg.body.content.as_str())
        } else {
            msg.body.content.clone()
        };

        let timestamp = string_or(&msg.created_date_time, "");
        proof {
            assert(""@ =~= Seq::<char>::empty()) by {
                reveal_strlit("");
            }
        }

        ChatMessage {
            id: msg.id.clone(),
            sender_name,
            sender_id,
            content,
            timestamp,
            is_from_me,
            is_system,
        }
    }
}

} // verus!
