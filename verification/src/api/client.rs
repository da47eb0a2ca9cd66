//! Where the Teams APIs live and what the requests carry: the
//! middle-tier (/api/mt/), chat service (/api/chatsvc/) and CSA (/api/csa/)
//! URLs, the request paths and bodies, and the paging through the chat
//! list. Sending the requests is the caller's.

use crate::gui::chatsvc::{backward_link_of, nested_str};
use crate::json::{json_of_text, parse_json_text, take_field, JsonValue};
use crate::num::{push_i64, signed_string};
use crate::text::{chars_of, concat, string_from_range, to_string, utf8_bytes};
use vstd::prelude::*;

verus! {

/// Path of the CSA full sync (relative to /api/csa/{mt_region}/).
pub const FOLDERS_PATH: &'static str = "api/v3/teams/users/me?isPrefetch=false&enableMembershipSummary=true&supportsAdditionalSystemGeneratedFolders=true&supportsSliceItems=true&enableEngageCommunities=false";

/// Path of the first page of the chat list (relative to
/// /api/chatsvc/{region}/).
pub const CHATS_FIRST_PAGE_PATH: &'static str = "v1/users/ME/conversations?view=msnp24Equivalent&pageSize=200";

/// Path of the user profile lookup (relative to /api/mt/{mt_region}/).
pub const FETCH_USERS_PATH: &'static str = "beta/users/fetch?isMailAddress=false&enableGuest=true&skypeTeamsInfo=true";

/// Path of the profile lookup for users of other organizations.
pub const FETCH_FEDERATED_PATH: &'static str = "beta/users/fetchFederated?edEnabled=false&includeDisabledAccounts=true";

/// The Graph API profile of the signed-in user.
pub const GRAPH_ME_URL: &'static str = "https://graph.microsoft.com/v1.0/me";

/// The tokens and regions the Teams APIs are called with.
#[derive(Clone)]
pub struct GraphClient {
    /// Bearer token for api.spaces.skype.com (middle-tier calls)
    pub spaces_token: String,
    /// Bearer token for ic3.teams.office.com (chat service calls)
    pub ic3_token: String,
    /// Bearer token for graph.microsoft.com
    pub graph_token: String,
    /// Bearer token for chatsvcagg.teams.microsoft.com (CSA calls)
    pub csa_token: String,
    /// 2-letter region code (e.g. "de")
    pub region: String,
    /// Middle-tier region (e.g. "emea")
    pub mt_region: String,
    /// Direct chat service URL (e.g. "https://de-prod.asyncgw.teams.microsoft.com")
    pub chat_service_url: String,
}

/// `s.trim_start_matches('/')`.
pub open spec fn without_leading_slashes(s: Seq<char>) -> Seq<char>
    decreases s.len(),
{
    if s.len() > 0 && s[0] == '/' {
        without_leading_slashes(s.drop_first())
    } else {
        s
    }
}

/// `s.trim_start_matches('/')`.
pub fn trim_leading_slashes(s: &str) -> (r: String)
    ensures
        r@ == without_leading_slashes(s@),
{
    let v = chars_of(s);
    let mut i: usize = 0;
    proof {
        assert(s@.skip(0) =~= s@);
    }
    while i < v.len() && v[i] == '/'
        invariant
            v@ == s@,
            i <= v.len(),
            without_leading_slashes(s@) == without_leading_slashes(s@.skip(i as int)),
        decreases v.len() - i,
    {
        proof {
            assert(s@.skip(i as int)[0] == s@[i as int]);
            assert(s@.skip(i as int).drop_first() =~= s@.skip(i + 1));
        }
        i = i + 1;
    }
    proof {
        if i < v.len() {
            assert(s@.skip(i as int)[0] == s@[i as int]);
        }
        assert(s@.skip(i as int) =~= s@.subrange(i as int, s@.len() as int));
    }
    string_from_range(&v, i, v.len())
}

/// The URL of `path` under `base` and a region: "{base}{region}/{path}",
/// without leading slashes on the path.
pub open spec fn api_url(base: Seq<char>, region: Seq<char>, path: Seq<char>) -> Seq<char> {
    base + region + "/"@ + without_leading_slashes(path)
}

fn region_url(base: &str, region: &str, path: &str) -> (r: String)
    ensures
        r@ == api_url(base@, region@, path@),
{
    let head = concat(concat(base, region).as_str(), "/");
    let tail = trim_leading_slashes(path);
    concat(head.as_str(), tail.as_str())
}

impl GraphClient {
    pub fn new(
        spaces_token: String,
        ic3_token: String,
        graph_token: String,
        csa_token: String,
        region: String,
        mt_region: String,
        chat_service_url: String,
    ) -> (c: GraphClient)
        ensures
            c.spaces_token == spaces_token,
            c.ic3_token == ic3_token,
            c.graph_token == graph_token,
            c.csa_token == csa_token,
            c.region == region,
            c.mt_region == mt_region,
            c.chat_service_url == chat_service_url,
    {
        GraphClient {
            spaces_token,
            ic3_token,
            graph_token,
            csa_token,
            region,
            mt_region,
            chat_service_url,
        }
    }

    pub fn region(&self) -> (r: &str)
        ensures
            r@ == self.region@,
    {
        self.region.as_str()
    }

    pub fn mt_region(&self) -> (r: &str)
        ensures
            r@ == self.mt_region@,
    {
        self.mt_region.as_str()
    }

    /// The Middle-Tier API URL of a relative path.
    pub fn mt_url(&self, path: &str) -> (r: String)
        ensures
            r@ == api_url("https://teams.microsoft.com/api/mt/"@, self.mt_region@, path@),
    {
        region_url("https://teams.microsoft.com/api/mt/", self.mt_region.as_str(), path)
    }

    /// The Chat Service API URL of a relative path.
    pub fn chatsvc_url(&self, path: &str) -> (r: String)
        ensures
            r@ == api_url("https://teams.microsoft.com/api/chatsvc/"@, self.region@, path@),
    {
        region_url("https://teams.microsoft.com/api/chatsvc/", self.region.as_str(), path)
    }

    /// The CSA API URL of a relative path.
    pub fn csa_url(&self, path: &str) -> (r: String)
        ensures
            r@ == api_url("https://teams.microsoft.com/api/csa/"@, self.mt_region@, path@),
    {
        region_url("https://teams.microsoft.com/api/csa/", self.mt_region.as_str(), path)
    }
}

// ---------------------------------------------------------------------------
// Messages of a conversation
// ---------------------------------------------------------------------------

/// Whether `c` is left as it is by URL encoding: an ASCII letter or digit,
/// or one of `-`, `_`, `.`, `~`.
pub open spec fn is_unreserved(c: char) -> bool {
    ('0' <= c && c <= '9') || ('A' <= c && c <= 'Z') || ('a' <= c && c <= 'z') || c == '-' || c
        == '_' || c == '.' || c == '~'
}

/// The upper-case hexadecimal digit of `d` (below 16).
pub open spec fn hex_digit(d: int) -> char {
    if d < 10 {
        ((d + 48) as u8) as char
    } else {
        ((d + 55) as u8) as char
    }
}

/// '%' and two upper-case hex digits for each byte.
pub open spec fn percent_bytes(bytes: Seq<int>) -> Seq<char>
    decreases bytes.len(),
{
    if bytes.len() == 0 {
        Seq::empty()
    } else {
        let b = bytes.last();
        percent_bytes(bytes.drop_last()) + seq!['%', hex_digit(b / 16), hex_digit(b % 16)]
    }
}

/// Percent-encoding of text: unreserved characters stay, every byte of the
/// UTF-8 encoding of any other character becomes '%' and two upper-case hex
/// digits.
pub open spec fn percent_encoded(s: Seq<char>) -> Seq<char>
    decreases s.len(),
{
    if s.len() == 0 {
        Seq::empty()
    } else {
        let prev = percent_encoded(s.drop_last());
        let c = s.last();
        if is_unreserved(c) {
            prev.push(c)
        } else {
            prev + percent_bytes(utf8_bytes(c))
        }
    }
}

/// `urlencoding::encode`, which percent-encodes every UTF-8 byte except
/// ASCII letters, digits and `-`, `_`, `.`, `~`.
#[verifier::external_body]
fn url_encode(s: &str) -> (r: String)
    ensures
        r@ == percent_encoded(s@),
{
    urlencoding::encode(s).into_owned()
}

/// Path of the newest 50 messages of a conversation.
pub open spec fn messages_path_of(conversation_id: Seq<char>) -> Seq<char> {
    "v1/users/ME/conversations/"@ + percent_encoded(conversation_id)
        + "/messages?view=msnp24Equivalent&pageSize=50"@
}

/// Path for sending a message to a conversation.
pub open spec fn send_path_of(conversation_id: Seq<char>) -> Seq<char> {
    "v1/users/ME/conversations/"@ + percent_encoded(conversation_id) + "/messages"@
}

/// Path of the newest 50 messages of a conversation (relative to the chat
/// service).
pub fn messages_path(conversation_id: &str) -> (r: String)
    ensures
        r@ == messages_path_of(conversation_id@),
{
    let id = url_encode(conversation_id);
    let head = concat("v1/users/ME/conversations/", id.as_str());
    concat(head.as_str(), "/messages?view=msnp24Equivalent&pageSize=50")
}

/// Path for sending a message to a conversation (relative to the chat
/// service).
pub fn send_path(conversation_id: &str) -> (r: String)
    ensures
        r@ == send_path_of(conversation_id@),
{
    let id = url_encode(conversation_id);
    let head = concat("v1/users/ME/conversations/", id.as_str());
    concat(head.as_str(), "/messages")
}

fn member(key: &str, value: String) -> (r: (String, JsonValue))
    ensures
        r.0@ == key@,
        r.1 == JsonValue::Str(value),
{
    (to_string(key), JsonValue::Str(value))
}

/// The body of a sent message: its content as rich text, the sender's
/// display name, and a client message ID (the send time in milliseconds).
pub open spec fn is_send_body(
    body: JsonValue,
    content: Seq<char>,
    display_name: Seq<char>,
    client_message_id: i64,
) -> bool {
    &&& body.field_str("content"@) == Some(content)
    &&& body.field_str("messagetype"@) == Some("RichText"@)
    &&& body.field_str("contenttype"@) == Some("text"@)
    &&& body.field_str("imdisplayname"@) == Some(display_name)
    &&& body.field_str("clientmessageid"@) == Some(signed_string(client_message_id as int))
}

/// The member names of a sent message are distinct.
proof fn lemma_send_keys_distinct()
    ensures
        "content"@ != "messagetype"@,
        "content"@ != "contenttype"@,
        "content"@ != "imdisplayname"@,
        "content"@ != "clientmessageid"@,
        "messagetype"@ != "contenttype"@,
        "messagetype"@ != "imdisplayname"@,
        "messagetype"@ != "clientmessageid"@,
        "contenttype"@ != "imdisplayname"@,
        "contenttype"@ != "clientmessageid"@,
        "imdisplayname"@ != "clientmessageid"@,
{
    reveal_strlit("content");
    reveal_strlit("messagetype");
    reveal_strlit("contenttype");
    reveal_strlit("imdisplayname");
    reveal_strlit("clientmessageid");
    assert("content"@.len() == 7);
    assert("messagetype"@.len() == 11);
    assert("contenttype"@.len() == 11);
    assert("imdisplayname"@.len() == 13);
    assert("clientmessageid"@.len() == 15);
    assert("messagetype"@[0] != "contenttype"@[0]);
}

/// The body of a sent message.
pub fn send_message_body(content: &str, display_name: &str, client_message_id: i64) -> (body:
    JsonValue)
    ensures
        is_send_body(body, content@, display_name@, client_message_id),
        body matches JsonValue::Object(fields) && fields@.len() == 5,
{
    let mut id = String::new();
    push_i64(&mut id, client_message_id);
    let mut fields: Vec<(String, JsonValue)> = Vec::new();
    fields.push(member("content", to_string(content)));
    fields.push(member("messagetype", to_string("RichText")));
    fields.push(member("contenttype", to_string("text")));
    fields.push(member("imdisplayname", to_string(display_name)));
    fields.push(member("clientmessageid", id));
    proof {
        lemma_send_keys_distinct();
        assert(id@ =~= signed_string(client_message_id as int));
        let f = fields@;
        assert(f.drop_first()[0] == f[1]);
        assert(f.drop_first().drop_first()[0] == f[2]);
        assert(f.drop_first().drop_first().drop_first()[0] == f[3]);
        assert(f.drop_first().drop_first().drop_first().drop_first()[0] == f[4]);
        reveal_with_fuel(crate::json::lookup, 6);
    }
    JsonValue::Object(fields)
}

/// The body of a profile lookup: the list of MRIs.
pub fn user_ids_body(user_ids: &Vec<String>) -> (body: JsonValue)
    ensures
        body.array_of() matches Some(items) && items.len() == user_ids@.len() && forall|i: int|
            0 <= i < items.len() ==> (#[trigger] items[i]).str_of() == Some(user_ids@[i]@),
{
    let mut items: Vec<JsonValue> = Vec::new();
    let mut i: usize = 0;
    while i < user_ids.len()
        invariant
            i <= user_ids.len(),
            items@.len() == i,
            forall|k: int| 0 <= k < i ==> (#[trigger] items@[k]).str_of() == Some(user_ids@[k]@),
        decreases user_ids.len() - i,
    {
        items.push(JsonValue::Str(user_ids[i].clone()));
        i = i + 1;
    }
    JsonValue::Array(items)
}

// ---------------------------------------------------------------------------
// Paging through the chat list
// ---------------------------------------------------------------------------

/// What to do after a page of the chat list.
#[derive(Debug, PartialEq)]
pub enum PageStep {
    /// Load the page at this absolute URL next.
    Fetch(String),
    /// All pages are in.
    Done,
}

/// The conversations collected while paging through the chat list.
pub struct ChatsPager {
    pub conversations: Vec<JsonValue>,
}

/// The conversations of a page, when it has a list of them.
pub open spec fn page_conversations(page: JsonValue) -> Option<Seq<JsonValue>> {
    page.field_array("conversations"@)
}

fn take_conversations(page: JsonValue) -> (r: Option<Vec<JsonValue>>)
    ensures
        match r {
            Some(v) => page_conversations(page) == Some(v@),
            None => page_conversations(page).is_none(),
        },
{
    match take_field(page, "conversations") {
        Some(JsonValue::Array(items)) => Some(items),
        _ => None,
    }
}

fn link_of(page: &JsonValue) -> (r: Option<String>)
    ensures
        match r {
            Some(l) => nested_str(*page, "_metadata"@, "backwardLink"@) == Some(l@),
            None => nested_str(*page, "_metadata"@, "backwardLink"@).is_none(),
        },
{
    match page.get("_metadata") {
        Some(m) => match m.get_str("backwardLink") {
            Some(s) => Some(to_string(s)),
            None => None,
        },
        None => None,
    }
}

impl ChatsPager {
    /// A pager with nothing collected yet; the first page to load is
    /// `CHATS_FIRST_PAGE_PATH`.
    pub fn new() -> (p: ChatsPager)
        ensures
            p.conversations@ == Seq::<JsonValue>::empty(),
    {
        ChatsPager { conversations: Vec::new() }
    }

    /// Take the first page: collect its conversations and follow its
    /// backward link, whatever it holds.
    fn first_page_value(&mut self, page: JsonValue) -> (step: PageStep)
        ensures
            final(self).conversations@ == old(self).conversations@ + match page_conversations(
                page,
            ) {
                Some(c) => c,
                None => Seq::empty(),
            },
            match step {
                PageStep::Fetch(url) => nested_str(page, "_metadata"@, "backwardLink"@) == Some(
                    url@,
                ),
                PageStep::Done => nested_str(page, "_metadata"@, "backwardLink"@).is_none(),
            },
    {
        let link = link_of(&page);
        match take_conversations(page) {
            Some(mut items) => {
                self.conversations.append(&mut items);
            },
            None => {
                proof {
                    assert(self.conversations@ + Seq::<JsonValue>::empty() =~= self.conversations@);
                }
            },
        }
        match link {
            Some(url) => PageStep::Fetch(url),
            None => PageStep::Done,
        }
    }

    /// Take a later page: an empty or missing list ends the paging;
    /// otherwise its conversations are collected and a non-empty backward
    /// link is followed.
    fn next_page_value(&mut self, page: JsonValue) -> (step: PageStep)
        ensures
            match page_conversations(page) {
                Some(c) => if c.len() > 0 {
                    &&& final(self).conversations@ == old(self).conversations@ + c
                    &&& match step {
                        PageStep::Fetch(url) => backward_link_of(page) == Some(url@),
                        PageStep::Done => backward_link_of(page).is_none(),
                    }
                } else {
                    final(self).conversations@ == old(self).conversations@ && step is Done
                },
                None => final(self).conversations@ == old(self).conversations@ && step is Done,
            },
    {
        let link = link_of(&page);
        match take_conversations(page) {
            Some(mut items) => {
                if items.len() == 0 {
                    return PageStep::Done;
                }
                self.conversations.append(&mut items);
                match link {
                    Some(url) => if url.as_str().is_empty() {
                        PageStep::Done
                    } else {
                        PageStep::Fetch(url)
                    },
                    None => PageStep::Done,
                }
            },
            None => PageStep::Done,
        }
    }

    /// Take the first page, given as text: `None`, with nothing collected,
    /// when it is not JSON (the listing fails); otherwise as
    /// `first_page_value`.
    pub fn first_page(&mut self, text: &str) -> (step: Option<PageStep>)
        ensures
            match json_of_text(text@) {
                None => step is None && final(self).conversations@ == old(self).conversations@,
                Some(page) => step matches Some(st) && final(self).conversations@
                    == old(self).conversations@ + match page_conversations(page) {
                    Some(c) => c,
                    None => Seq::empty(),
                } && match st {
                    PageStep::Fetch(url) => nested_str(page, "_metadata"@, "backwardLink"@)
                        == Some(url@),
                    PageStep::Done => nested_str(page, "_metadata"@, "backwardLink"@).is_none(),
                },
            },
    {
        match parse_json_text(text) {
            Some(page) => Some(self.first_page_value(page)),
            None => None,
        }
    }

    /// Take a later page, given as text: `None`, with nothing collected, when
    /// it is not JSON (the listing fails); otherwise as `next_page_value`.
    pub fn next_page(&mut self, text: &str) -> (step: Option<PageStep>)
        ensures
            match json_of_text(text@) {
                None => step is None && final(self).conversations@ == old(self).conversations@,
                Some(page) => step matches Some(st) && match page_conversations(page) {
                    Some(c) => if c.len() > 0 {
                        &&& final(self).conversations@ == old(self).conversations@ + c
                        &&& match st {
                            PageStep::Fetch(url) => backward_link_of(page) == Some(url@),
                            PageStep::Done => backward_link_of(page).is_none(),
                        }
                    } else {
                        final(self).conversations@ == old(self).conversations@ && st is Done
                    },
                    None => final(self).conversations@ == old(self).conversations@ && st is Done,
                },
            },
    {
        match parse_json_text(text) {
            Some(page) => Some(self.next_page_value(page)),
            None => None,
        }
    }

    /// All collected conversations as one response: `{"conversations": [...]}`.
    pub fn finish(self) -> (r: JsonValue)
        ensures
            r.field_array("conversations"@) == Some(self.conversations@),
            r matches JsonValue::Object(fields) && fields@.len() == 1,
    {
        let mut fields: Vec<(String, JsonValue)> = Vec::new();
        fields.push((to_string("conversations"), JsonValue::Array(self.conversations)));
        proof {
            reveal_strlit("conversations");
        }
        JsonValue::Object(fields)
    }
}

} // verus!
