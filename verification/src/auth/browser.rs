//! What the browser login reads out of the Teams web app: the session's
//! tokens and user details, its cookies and its chat folders.

use crate::gui::chatsvc::or_empty;
use crate::gui::refresh::string_views;
use crate::json::{json_error_of_text, json_of_text, parse_json_or_error, parse_json_text, JsonValue};
use crate::text::{all_ascii, ascii_lower, concat, contains, contains_seq, to_string};
use vstd::prelude::*;

verus! {

/// A chat folder from Teams IndexedDB (conversation-folder-manager).
#[derive(Debug, Clone)]
pub struct ChatFolder {
    pub id: String,
    pub name: String,
    pub folder_type: String,
    pub sort_type: String,
    pub is_expanded: bool,
    pub is_deleted: bool,
    pub version: u64,
    pub conversation_ids: Vec<String>,
}

/// The mathematical content of a chat folder.
pub struct ChatFolderView {
    pub id: Seq<char>,
    pub name: Seq<char>,
    pub folder_type: Seq<char>,
    pub sort_type: Seq<char>,
    pub is_expanded: bool,
    pub is_deleted: bool,
    pub version: u64,
    pub conversation_ids: Seq<Seq<char>>,
}

impl View for ChatFolder {
    type V = ChatFolderView;

    open spec fn view(&self) -> ChatFolderView {
        ChatFolderView {
            id: self.id@,
            name: self.name@,
            folder_type: self.folder_type@,
            sort_type: self.sort_type@,
            is_expanded: self.is_expanded,
            is_deleted: self.is_deleted,
            version: self.version,
            conversation_ids: self.conversation_ids@.map_values(|s: String| s@),
        }
    }
}

/// The strings among `items`, in order.
pub open spec fn strings_of(items: Seq<JsonValue>) -> Seq<Seq<char>>
    decreases items.len(),
{
    if items.len() == 0 {
        Seq::empty()
    } else {
        let prev = strings_of(items.drop_last());
        match items.last().str_of() {
            Some(s) => prev.push(s),
            None => prev,
        }
    }
}

/// The `id` strings of `items`, in order (items without one are skipped).
pub open spec fn ids_of(items: Seq<JsonValue>) -> Seq<Seq<char>>
    decreases items.len(),
{
    if items.len() == 0 {
        Seq::empty()
    } else {
        let prev = ids_of(items.drop_last());
        match items.last().field_str("id"@) {
            Some(s) => prev.push(s),
            None => prev,
        }
    }
}

/// The folder that an IndexedDB folder record describes.
pub open spec fn idb_folder(f: JsonValue) -> ChatFolderView {
    ChatFolderView {
        id: or_empty(f.field_str("id"@)),
        name: or_empty(f.field_str("name"@)),
        folder_type: or_empty(f.field_str("folderType"@)),
        sort_type: or_empty(f.field_str("sortType"@)),
        is_expanded: match f.field_bool("isExpanded"@) {
            Some(b) => b,
            None => false,
        },
        is_deleted: match f.field_bool("isDeleted"@) {
            Some(b) => b,
            None => false,
        },
        version: match f.field_u64("version"@) {
            Some(v) => v,
            None => 0,
        },
        conversation_ids: match f.field_array("conversations"@) {
            Some(cs) => ids_of(cs),
            None => Seq::empty(),
        },
    }
}

/// The folders of the records that have a non-empty ID, in order.
pub open spec fn idb_folders(records: Seq<JsonValue>) -> Seq<ChatFolderView>
    decreases records.len(),
{
    if records.len() == 0 {
        Seq::empty()
    } else {
        let prev = idb_folders(records.drop_last());
        if idb_folder(records.last()).id.len() > 0 {
            prev.push(idb_folder(records.last()))
        } else {
            prev
        }
    }
}

/// The folders and folder order of an IndexedDB folder query result.
pub open spec fn idb_response(parsed: JsonValue) -> (Seq<ChatFolderView>, Seq<Seq<char>>) {
    (
        match parsed.field_array("folders"@) {
            Some(records) => idb_folders(records),
            None => Seq::empty(),
        },
        match parsed.field_array("folderOrder"@) {
            Some(items) => strings_of(items),
            None => Seq::empty(),
        },
    )
}

/// The views of a sequence of folders.
pub open spec fn folders_view(s: Seq<ChatFolder>) -> Seq<ChatFolderView> {
    s.map_values(|f: ChatFolder| f@)
}

fn collect_ids(items: &Vec<JsonValue>) -> (r: Vec<String>)
    ensures
        string_views(r@) == ids_of(items@),
{
    let mut r: Vec<String> = Vec::new();
    let mut i: usize = 0;
    while i < items.len()
        invariant
            i <= items@.len(),
            string_views(r@) == ids_of(items@.take(i as int)),
        decreases items@.len() - i,
    {
        proof {
            assert(items@.take(i + 1).drop_last() =~= items@.take(i as int));
            assert(items@.take(i + 1).last() == items@[i as int]);
        }
        match items[i].get_str("id") {
            Some(s) => {
                r.push(s.to_owned());
                proof {
                    assert(string_views(r@) =~= ids_of(items@.take(i as int)).push(s@));
                }
            },
            None => {},
        }
        i = i + 1;
    }
    proof {
        assert(items@.take(items@.len() as int) =~= items@);
    }
    r
}

fn collect_strings(items: &Vec<JsonValue>) -> (r: Vec<String>)
    ensures
        string_views(r@) == strings_of(items@),
{
    let mut r: Vec<String> = Vec::new();
    let mut i: usize = 0;
    while i < items.len()
        invariant
            i <= items@.len(),
            string_views(r@) == strings_of(items@.take(i as int)),
        decreases items@.len() - i,
    {
        proof {
            assert(items@.take(i + 1).drop_last() =~= items@.take(i as int));
            assert(items@.take(i + 1).last() == items@[i as int]);
        }
        match items[i].as_str() {
            Some(s) => {
                r.push(s.to_owned());
                proof {
                    assert(string_views(r@) =~= strings_of(items@.take(i as int)).push(s@));
                }
            },
            None => {},
        }
        i = i + 1;
    }
    proof {
        assert(items@.take(items@.len() as int) =~= items@);
    }
    r
}

fn folder_of_record(f: &JsonValue) -> (r: ChatFolder)
    ensures
        r@ == idb_folder(*f),
{
    proof {
        assert(""@ =~= Seq::<char>::empty()) by {
            reveal_strlit("");
        }
    }
    let conversation_ids = match f.get_array("conversations") {
        Some(cs) => collect_ids(cs),
        None => Vec::new(),
    };
    let r = ChatFolder {
        id: f.get_str_or("id", ""),
        name: f.get_str_or("name", ""),
        folder_type: f.get_str_or("folderType", ""),
        sort_type: f.get_str_or("sortType", ""),
        is_expanded: match f.get_bool("isExpanded") {
            Some(b) => b,
            None => false,
        },
        is_deleted: match f.get_bool("isDeleted") {
            Some(b) => b,
            None => false,
        },
        version: match f.get_u64("version") {
            Some(v) => v,
            None => 0,
        },
        conversation_ids,
    };
    proof {
        assert(r@.conversation_ids =~= idb_folder(*f).conversation_ids);
    }
    r
}

/// Parse the result of the IndexedDB folder query into folders (records
/// without an ID are skipped) and the folder display order.
pub fn parse_folder_idb_response(parsed: &JsonValue) -> (r: (Vec<ChatFolder>, Vec<String>))
    ensures
        folders_view(r.0@) == idb_response(*parsed).0,
        string_views(r.1@) == idb_response(*parsed).1,
{
    let mut folders: Vec<ChatFolder> = Vec::new();
    match parsed.get_array("folders") {
        Some(records) => {
            let mut i: usize = 0;
            while i < records.len()
                invariant
                    i <= records@.len(),
                    folders_view(folders@) == idb_folders(records@.take(i as int)),
                decreases records@.len() - i,
            {
                proof {
                    assert(records@.take(i + 1).drop_last() =~= records@.take(i as int));
                    assert(records@.take(i + 1).last() == records@[i as int]);
                }
                let folder = folder_of_record(&records[i]);
                if !folder.id.as_str().is_empty() {
                    proof {
                        assert(folders_view(folders@.push(folder)) =~= folders_view(folders@).push(
                            folder@,
                        ));
                    }
                    folders.push(folder);
                }
                i = i + 1;
            }
            proof {
                assert(records@.take(records@.len() as int) =~= records@);
            }
        },
        None => {},
    }
    let folder_order = match parsed.get_array("folderOrder") {
        Some(items) => collect_strings(items),
        None => Vec::new(),
    };
    proof {
        if parsed.field_array("folderOrder"@).is_none() {
            assert(string_views(folder_order@) =~= Seq::<Seq<char>>::empty());
        }
        if parsed.field_array("folders"@).is_none() {
            assert(folders_view(folders@) =~= Seq::<ChatFolderView>::empty());
        }
    }
    (folders, folder_order)
}

/// The folders of a folder query result: none when it reports an `error`.
pub open spec fn idb_result(parsed: JsonValue) -> (Seq<ChatFolderView>, Seq<Seq<char>>) {
    if parsed.field_str("error"@).is_some() {
        (Seq::empty(), Seq::empty())
    } else {
        idb_response(parsed)
    }
}

/// The folders of a folder query result, or none when the query reported an
/// error.
pub fn folders_from_idb_result(parsed: &JsonValue) -> (r: (Vec<ChatFolder>, Vec<String>))
    ensures
        folders_view(r.0@) == idb_result(*parsed).0,
        string_views(r.1@) == idb_result(*parsed).1,
{
    match parsed.get_str("error") {
        Some(_) => {
            let a: Vec<ChatFolder> = Vec::new();
            let b: Vec<String> = Vec::new();
            proof {
                assert(folders_view(a@) =~= Seq::<ChatFolderView>::empty());
                assert(string_views(b@) =~= Seq::<Seq<char>>::empty());
            }
            (a, b)
        },
        None => parse_folder_idb_response(parsed),
    }
}

// ---------------------------------------------------------------------------
// Session
// ---------------------------------------------------------------------------

/// What the login reads from the Teams web app's local storage.
#[derive(Debug, Clone)]
pub struct SessionInfo {
    /// Bearer token for api.spaces.skype.com (middle-tier calls)
    pub skype_spaces_token: String,
    /// Bearer token for ic3.teams.office.com (chat service calls)
    pub ic3_token: String,
    /// Bearer token for chatsvcagg.teams.microsoft.com (CSA calls)
    pub csa_token: String,
    /// Bearer token for graph.microsoft.com
    pub graph_token: String,
    /// The region prefix (e.g. "de")
    pub region: String,
    /// The middle-tier region (e.g. "emea")
    pub mt_region: String,
    /// The full chat service URL
    pub chat_service_url: String,
    /// User's display name
    pub display_name: String,
    /// User's object ID
    pub user_id: String,
    /// Expiry of the spaces token, in seconds since the Unix epoch
    pub expires_ts: i64,
}

/// `value.get(key).and_then(as_str).unwrap_or(default)`.
pub open spec fn str_or(v: JsonValue, key: Seq<char>, default: Seq<char>) -> Seq<char> {
    match v.field_str(key) {
        Some(s) => s,
        None => default,
    }
}

/// Whether `info` holds the fields of a successful extraction result.
pub open spec fn session_info_of(info: SessionInfo, parsed: JsonValue) -> bool {
    &&& info.skype_spaces_token@ == str_or(parsed, "spaces_token"@, Seq::empty())
    &&& info.ic3_token@ == str_or(parsed, "ic3_token"@, Seq::empty())
    &&& info.csa_token@ == str_or(parsed, "csa_token"@, Seq::empty())
    &&& info.graph_token@ == str_or(parsed, "graph_token"@, Seq::empty())
    &&& info.region@ == str_or(parsed, "region"@, "de"@)
    &&& info.mt_region@ == str_or(parsed, "mt_region"@, "emea"@)
    &&& info.chat_service_url@ == str_or(parsed, "chat_service_url"@, Seq::empty())
    &&& info.display_name@ == str_or(parsed, "display_name"@, Seq::empty())
    &&& info.user_id@ == str_or(parsed, "user_id"@, Seq::empty())
    &&& info.expires_ts == match parsed.field_i64("spaces_expires"@) {
        Some(t) => t,
        None => 0,
    }
}

/// Read the session out of the extraction script's result: an error with its
/// `reason` (or "unknown") unless `found` is true.
pub fn parse_session_info(parsed: &JsonValue) -> (r: Result<SessionInfo, String>)
    ensures
        match r {
            Ok(info) => parsed.field_bool("found"@) == Some(true) && session_info_of(
                info,
                *parsed,
            ),
            Err(reason) => parsed.field_bool("found"@) != Some(true) && reason@ == str_or(
                *parsed,
                "reason"@,
                "unknown"@,
            ),
        },
{
    proof {
        assert(""@ =~= Seq::<char>::empty()) by {
            reveal_strlit("");
        }
    }
    let found = match parsed.get_bool("found") {
        Some(b) => b,
        None => false,
    };
    if !found {
        return Err(parsed.get_str_or("reason", "unknown"));
    }
    Ok(
        SessionInfo {
            skype_spaces_token: parsed.get_str_or("spaces_token", ""),
            ic3_token: parsed.get_str_or("ic3_token", ""),
            csa_token: parsed.get_str_or("csa_token", ""),
            graph_token: parsed.get_str_or("graph_token", ""),
            region: parsed.get_str_or("region", "de"),
            mt_region: parsed.get_str_or("mt_region", "emea"),
            chat_service_url: parsed.get_str_or("chat_service_url", ""),
            display_name: parsed.get_str_or("display_name", ""),
            user_id: parsed.get_str_or("user_id", ""),
            expires_ts: match parsed.get_i64("spaces_expires") {
                Some(t) => t,
                None => 0,
            },
        },
    )
}

/// A browser cookie.
#[derive(Debug, Clone)]
pub struct BrowserCookie {
    pub domain: String,
    pub name: String,
    pub value: String,
}

/// Whether a cookie belongs to Teams or another microsoft.com service.
pub open spec fn is_teams_cookie(c: BrowserCookie) -> bool {
    contains_seq(c.domain@, "teams.microsoft.com"@) || contains_seq(c.domain@, ".microsoft.com"@)
}

/// The (name, value) pairs of the Teams cookies, in order.
pub open spec fn teams_cookies(cs: Seq<BrowserCookie>) -> Seq<(Seq<char>, Seq<char>)>
    decreases cs.len(),
{
    if cs.len() == 0 {
        Seq::empty()
    } else {
        let prev = teams_cookies(cs.drop_last());
        if is_teams_cookie(cs.last()) {
            prev.push((cs.last().name@, cs.last().value@))
        } else {
            prev
        }
    }
}

/// The views of a sequence of string pairs.
pub open spec fn pairs_view(s: Seq<(String, String)>) -> Seq<(Seq<char>, Seq<char>)> {
    s.map_values(|p: (String, String)| (p.0@, p.1@))
}

/// Keep the cookies of teams.microsoft.com and microsoft.com, as (name,
/// value) pairs.
pub fn select_teams_cookies(cookies: &Vec<BrowserCookie>) -> (r: Vec<(String, String)>)
    ensures
        pairs_view(r@) == teams_cookies(cookies@),
{
    let mut r: Vec<(String, String)> = Vec::new();
    let mut i: usize = 0;
    while i < cookies.len()
        invariant
            i <= cookies@.len(),
            pairs_view(r@) == teams_cookies(cookies@.take(i as int)),
        decreases cookies@.len() - i,
    {
        let c = &cookies[i];
        proof {
            assert(cookies@.take(i + 1).drop_last() =~= cookies@.take(i as int));
            assert(cookies@.take(i + 1).last() == cookies@[i as int]);
        }
        if contains(c.domain.as_str(), "teams.microsoft.com") || contains(
            c.domain.as_str(),
            ".microsoft.com",
        ) {
            let p = (c.name.clone(), c.value.clone());
            proof {
                assert(pairs_view(r@.push(p)) =~= pairs_view(r@).push((p.0@, p.1@)));
            }
            r.push(p);
        }
        i = i + 1;
    }
    proof {
        assert(cookies@.take(cookies@.len() as int) =~= cookies@);
    }
    r
}

// ---------------------------------------------------------------------------
// Login polling
// ---------------------------------------------------------------------------

/// What the login loop does next.
#[derive(Debug, Clone, Copy, PartialEq, Eq, Structural)]
pub enum LoginPoll {
    /// The login took too long; give up.
    TimedOut,
    /// The browser is not on Teams yet; poll again.
    NotOnTeams,
    /// The browser is on Teams; try to read the session.
    TryExtract,
}

/// The result of `str::to_lowercase`.
pub uninterp spec fn lowercased(s: Seq<char>) -> Seq<char>;

/// `str::to_lowercase`: the Unicode lowercase mapping of `s`. The contract
/// names the result and states it for ASCII text, where each letter `A` to
/// `Z` becomes `a` to `z` and every other character stays; what non-ASCII
/// characters become (some expand to several) is left unsaid.
#[verifier::external_body]
fn to_lowercase(s: &str) -> (r: String)
    ensures
        r@ == lowercased(s@),
        all_ascii(s@) ==> r@ == s@.map_values(|c: char| ascii_lower(c)),
{
    s.to_lowercase()
}

/// The next step of the login loop: give up after the deadline, else try to
/// read the session once the (lowercased) URL is on teams.microsoft.com.
pub fn login_poll_step(past_deadline: bool, current_url: &str) -> (p: LoginPoll)
    ensures
        p == if past_deadline {
            LoginPoll::TimedOut
        } else if contains_seq(lowercased(current_url@), "teams.microsoft.com"@) {
            LoginPoll::TryExtract
        } else {
            LoginPoll::NotOnTeams
        },
        all_ascii(current_url@) ==> p == if past_deadline {
            LoginPoll::TimedOut
        } else if contains_seq(
            current_url@.map_values(|c: char| ascii_lower(c)),
            "teams.microsoft.com"@,
        ) {
            LoginPoll::TryExtract
        } else {
            LoginPoll::NotOnTeams
        },
{
    if past_deadline {
        return LoginPoll::TimedOut;
    }
    let lowered = to_lowercase(current_url);
    if contains(lowered.as_str(), "teams.microsoft.com") {
        LoginPoll::TryExtract
    } else {
        LoginPoll::NotOnTeams
    }
}

/// The session read from the text the extraction script returns: when the
/// text is not JSON, "Parse failed: " and serde_json's message; else as
/// `parse_session_info` reads it.
pub fn parse_session_text(text: &str) -> (r: Result<SessionInfo, String>)
    ensures
        match json_of_text(text@) {
            None => r matches Err(reason) && reason@ == "Parse failed: "@ + json_error_of_text(
                text@,
            ),
            Some(parsed) => match r {
                Ok(info) => parsed.field_bool("found"@) == Some(true) && session_info_of(
                    info,
                    parsed,
                ),
                Err(reason) => parsed.field_bool("found"@) != Some(true) && reason@ == str_or(
                    parsed,
                    "reason"@,
                    "unknown"@,
                ),
            },
        },
{
    match parse_json_or_error(text) {
        Ok(parsed) => parse_session_info(&parsed),
        Err(message) => Err(concat("Parse failed: ", message.as_str())),
    }
}

/// The folders read from the text the folder query returns: none when the
/// text is not JSON or the query reported an error.
pub fn folders_from_idb_text(text: &str) -> (r: (Vec<ChatFolder>, Vec<String>))
    ensures
        match json_of_text(text@) {
            Some(parsed) => folders_view(r.0@) == idb_result(parsed).0 && string_views(r.1@)
                == idb_result(parsed).1,
            None => r.0@.len() == 0 && r.1@.len() == 0,
        },
{
    match parse_json_text(text) {
        Some(parsed) => folders_from_idb_result(&parsed),
        None => (Vec::new(), Vec::new()),
    }
}

} // verus!
