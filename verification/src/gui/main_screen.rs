//! The main screen's state machine. Every message from the outside world
//! (a loaded response, a click, a key) gives the next screen state and the
//! work to start next; the caller performs that work and hands the outcome
//! back as another message.

use crate::api::csa::{CsaConversationFolders, CsaFolder, CsaFolderItem, CsaUpdatesResponse};
use crate::auth::browser::ChatFolder;
use crate::gui::chatsvc::{
    backward_link_of_text, chatsvc_entries, chatsvc_ok, chatsvc_safe, messages_of_text,
    messages_view,
    parse_chats, parse_messages, or_empty,
};
use crate::gui::names::{
    federated_profiles_of_text, parse_federated_profiles, resolve_display_name, resolved_name, NameMap,
};
use crate::gui::refresh::{
    apply_fetched_names, apply_name_pairs, apply_names, fetched_names, mris_to_resolve,
    mris_to_resolve_spec, string_views,
};
use crate::gui::screen::{
    bare_id, bare_id_str, csa_chats_ok, csa_chats_safe, csa_entries, entries_view,
    fill_missing_folder_chats, fill_ok, fill_safe, fill_spec, has_entry_id, lemma_fill_missing_laws,
    lemma_merge_laws, merge_chatsvc_into_existing, merge_spec, parse_csa_chats, ChatEntry,
    ChatEntryView, ParsedMessage, ParsedMessageView,
};
use crate::json::{json_of_text, parse_json_text, JsonValue};
use crate::models::chat::{clone_opt, opt_view};
use crate::num::{decimal_string, push_decimal};
use crate::text::{concat, to_string, trim_seq, trim_str};
use vstd::prelude::*;

verus! {

// ---------------------------------------------------------------------------
// Messages and effects
// ---------------------------------------------------------------------------

/// What happened: a response came back, or the user did something.
pub enum Message {
    /// The CSA full sync: chats and folders in one response.
    CsaSyncLoaded(Result<CsaUpdatesResponse, String>),
    /// The chat service's paged chat list, as text.
    ChatsLoaded(Result<String, String>),
    /// A chat was clicked: its ID and display name.
    ChatSelected(String, String),
    /// A messages response, as text.
    MessagesLoaded(Result<String, String>),
    InputChanged(String),
    SendPressed,
    MessageSent(Result<(), String>),
    /// The users/fetch response, as text.
    ProfileLoaded(Result<String, String>),
    /// The users/fetchFederated response (users of other organizations), as
    /// text.
    FederatedProfileLoaded(Result<String, String>),
    OlderMessagesLoaded(Result<String, String>),
    PollMessagesLoaded(Result<String, String>),
    PollTick,
    /// The message list was scrolled; whether it is now near its top.
    ScrollChanged(bool),
    /// The number of unread messages of one chat.
    UnreadCountLoaded(String, u32),
    /// Folders and their order, from the CSA API.
    FoldersLoaded(Result<(Vec<CsaFolder>, Vec<String>), String>),
    /// Collapse or expand a sidebar folder.
    FolderToggle(String),
    /// Start renaming the selected chat.
    RenameStart,
    RenameChanged(String),
    RenameSubmit,
}

/// Work for the caller to do; each kind names the message its outcome comes
/// back as.
#[derive(Debug, PartialEq)]
pub enum Effect {
    /// Run the CSA full sync (gives `CsaSyncLoaded`).
    SyncCsa,
    /// Page through the chat service's chat list (gives `ChatsLoaded`).
    LoadAllChats,
    /// Load the newest messages of a chat (gives `MessagesLoaded`).
    LoadMessages(String),
    /// Send a message (gives `MessageSent`).
    SendMessage { chat_id: String, content: String, display_name: String },
    /// Resolve user names (gives `ProfileLoaded`).
    FetchUsers(Vec<String>),
    /// Resolve user names of other organizations (gives
    /// `FederatedProfileLoaded`).
    FetchFederated(Vec<String>),
    /// Load a chat's messages and count those after its read marker (gives
    /// `UnreadCountLoaded`, with 0 when loading fails).
    CountUnread { chat_id: String, read_horizon_id: u64 },
    /// Load the newest messages of the open chat again (gives
    /// `PollMessagesLoaded`).
    PollMessages(String),
    /// Load older messages from a backward link (gives
    /// `OlderMessagesLoaded`).
    LoadOlder(String),
    /// Store the custom chat names.
    SaveCustomNames,
}

/// The mathematical content of an effect.
pub enum EffectView {
    SyncCsa,
    LoadAllChats,
    LoadMessages(Seq<char>),
    SendMessage { chat_id: Seq<char>, content: Seq<char>, display_name: Seq<char> },
    FetchUsers(Seq<Seq<char>>),
    FetchFederated(Seq<Seq<char>>),
    CountUnread { chat_id: Seq<char>, read_horizon_id: u64 },
    PollMessages(Seq<char>),
    LoadOlder(Seq<char>),
    SaveCustomNames,
}

impl View for Effect {
    type V = EffectView;

    open spec fn view(&self) -> EffectView {
        match self {
            Effect::SyncCsa => EffectView::SyncCsa,
            Effect::LoadAllChats => EffectView::LoadAllChats,
            Effect::LoadMessages(id) => EffectView::LoadMessages(id@),
            Effect::SendMessage { chat_id, content, display_name } => EffectView::SendMessage {
                chat_id: chat_id@,
                content: content@,
                display_name: display_name@,
            },
            Effect::FetchUsers(ids) => EffectView::FetchUsers(string_views(ids@)),
            Effect::FetchFederated(ids) => EffectView::FetchFederated(string_views(ids@)),
            Effect::CountUnread { chat_id, read_horizon_id } => EffectView::CountUnread {
                chat_id: chat_id@,
                read_horizon_id: *read_horizon_id,
            },
            Effect::PollMessages(id) => EffectView::PollMessages(id@),
            Effect::LoadOlder(url) => EffectView::LoadOlder(url@),
            Effect::SaveCustomNames => EffectView::SaveCustomNames,
        }
    }
}

/// The views of a sequence of effects.
pub open spec fn effects_view(s: Seq<Effect>) -> Seq<EffectView> {
    s.map_values(|e: Effect| e@)
}

// ---------------------------------------------------------------------------
// The screen state
// ---------------------------------------------------------------------------

/// The state of the main screen.
pub struct MainScreen {
    pub my_display_name: String,
    pub my_user_id: String,
    /// Text of the last chat-service chat list, or a status line.
    pub chats_json: String,
    pub chats: Vec<ChatEntry>,
    pub folders: Vec<CsaFolder>,
    /// Folder IDs in display order.
    pub folder_order: Vec<String>,
    /// IDs of the folders collapsed in the sidebar.
    pub collapsed_folders: Vec<String>,
    pub selected_chat_id: Option<String>,
    pub selected_chat_name: Option<String>,
    /// Messages of the open chat, newest first as the service sends them.
    pub messages: Vec<ParsedMessage>,
    /// Link to the page of older messages.
    pub backward_link: Option<String>,
    pub loading_older: bool,
    pub messages_error: Option<String>,
    pub input_value: String,
    pub loading: bool,
    /// Chat ID to the name the user gave the chat.
    pub custom_chat_names: NameMap,
    pub renaming_chat: bool,
    pub rename_value: String,
}

/// The mathematical content of the main screen's state.
pub struct MainScreenView {
    pub my_display_name: Seq<char>,
    pub my_user_id: Seq<char>,
    pub chats_json: Seq<char>,
    pub chats: Seq<ChatEntryView>,
    pub folders: Seq<CsaFolder>,
    pub folder_order: Seq<Seq<char>>,
    pub collapsed_folders: Set<Seq<char>>,
    pub selected_chat_id: Option<Seq<char>>,
    pub selected_chat_name: Option<Seq<char>>,
    pub messages: Seq<ParsedMessageView>,
    pub backward_link: Option<Seq<char>>,
    pub loading_older: bool,
    pub messages_error: Option<Seq<char>>,
    pub input_value: Seq<char>,
    pub loading: bool,
    pub custom_chat_names: Map<Seq<char>, Seq<char>>,
    pub renaming_chat: bool,
    pub rename_value: Seq<char>,
}

/// The set of strings listed in `v`.
pub open spec fn listed_set(v: Seq<String>) -> Set<Seq<char>> {
    Set::new(|s: Seq<char>| exists|i: int| 0 <= i < v.len() && (#[trigger] v[i])@ == s)
}

impl View for MainScreen {
    type V = MainScreenView;

    open spec fn view(&self) -> MainScreenView {
        MainScreenView {
            my_display_name: self.my_display_name@,
            my_user_id: self.my_user_id@,
            chats_json: self.chats_json@,
            chats: entries_view(self.chats@),
            folders: self.folders@,
            folder_order: string_views(self.folder_order@),
            collapsed_folders: listed_set(self.collapsed_folders@),
            selected_chat_id: opt_view(self.selected_chat_id),
            selected_chat_name: opt_view(self.selected_chat_name),
            messages: messages_view(self.messages@),
            backward_link: opt_view(self.backward_link),
            loading_older: self.loading_older,
            messages_error: opt_view(self.messages_error),
            input_value: self.input_value@,
            loading: self.loading,
            custom_chat_names: self.custom_chat_names@,
            renaming_chat: self.renaming_chat,
            rename_value: self.rename_value@,
        }
    }
}

// ---------------------------------------------------------------------------
// The transitions, one spec function per message
// ---------------------------------------------------------------------------

/// The folders after a CSA sync: the response's folders when it has any.
pub open spec fn synced_folders(s: MainScreenView, resp: CsaUpdatesResponse) -> Seq<CsaFolder> {
    match resp.conversation_folders {
        Some(cf) => if cf.conversation_folders@.len() > 0 {
            cf.conversation_folders@
        } else {
            s.folders
        },
        None => s.folders,
    }
}

/// The folder order after a CSA sync: the response's order when it has one.
pub open spec fn synced_order(s: MainScreenView, resp: CsaUpdatesResponse) -> Seq<Seq<char>> {
    match resp.conversation_folders {
        Some(cf) => if cf.conversation_folder_order@.len() > 0 {
            string_views(cf.conversation_folder_order@)
        } else {
            s.folder_order
        },
        None => s.folder_order,
    }
}

/// The chats a CSA sync starts from: the response's chats when it has any,
/// else the current list.
pub open spec fn synced_known(s: MainScreenView, resp: CsaUpdatesResponse) -> Seq<ChatEntryView> {
    if resp.chats@.len() > 0 {
        csa_entries(resp.chats@, bare_id(s.my_user_id))
    } else {
        s.chats
    }
}

/// The state after a successful CSA sync: its folders and chats are taken,
/// with placeholders for the folders' missing conversations.
pub open spec fn csa_synced(s: MainScreenView, resp: CsaUpdatesResponse) -> MainScreenView {
    let folders = synced_folders(s, resp);
    let chats = fill_spec(folders, synced_known(s, resp));
    MainScreenView {
        loading: false,
        folders: folders,
        folder_order: synced_order(s, resp),
        chats: chats,
        chats_json: if resp.chats@.len() > 0 {
            decimal_string(chats.len()) + " chats from CSA sync"@
        } else {
            s.chats_json
        },
        ..s
    }
}

/// The chat service's chats merged into the current list (or taking its
/// place when it is empty).
pub open spec fn merged_chats(s: MainScreenView, page: JsonValue) -> Seq<ChatEntryView> {
    let incoming = chatsvc_entries(page, s.my_user_id);
    if s.chats.len() == 0 {
        incoming
    } else {
        merge_spec(s.chats, incoming)
    }
}

/// The state after the chat service's chat list came back as `json`: the
/// text is kept; when it is JSON, its chats are merged in and placeholders
/// added, else the chats stay as they are.
pub open spec fn chats_loaded(s: MainScreenView, json: Seq<char>) -> MainScreenView {
    MainScreenView {
        chats_json: json,
        loading: false,
        chats: match json_of_text(json) {
            Some(page) => fill_spec(s.folders, merged_chats(s, page)),
            None => s.chats,
        },
        ..s
    }
}

/// An unread check for every chat with unread messages, in chat order.
pub open spec fn unread_checks(chats: Seq<ChatEntryView>) -> Seq<EffectView>
    decreases chats.len(),
{
    if chats.len() == 0 {
        Seq::empty()
    } else {
        let prev = unread_checks(chats.drop_last());
        let c = chats.last();
        if c.unread_count > 0 {
            prev.push(EffectView::CountUnread { chat_id: c.id, read_horizon_id: c.read_horizon_id })
        } else {
            prev
        }
    }
}

/// The follow-up work on a fresh chat list: resolving the names of the
/// chats that still show a user label (in this organization and in others),
/// then counting the unread messages of each unread chat.
pub open spec fn chat_followups(chats: Seq<ChatEntryView>, my_user_id: Seq<char>) -> Seq<EffectView> {
    let mris = mris_to_resolve_spec(chats, bare_id(my_user_id));
    let lookups = if mris.len() > 0 {
        seq![EffectView::FetchUsers(mris), EffectView::FetchFederated(mris)]
    } else {
        Seq::empty()
    };
    lookups + unread_checks(chats)
}

/// The index of the first chat with ID `id`.
pub open spec fn first_with_id(chats: Seq<ChatEntryView>, id: Seq<char>) -> Option<int>
    decreases chats.len(),
{
    if chats.len() == 0 {
        None
    } else if chats[0].id == id {
        Some(0)
    } else {
        match first_with_id(chats.drop_first(), id) {
            Some(k) => Some(k + 1),
            None => None,
        }
    }
}

/// The chats after an unread count came back: the first chat with that ID
/// takes the count, unless it is zero (a count never clears the unread
/// mark that the chat list set).
pub open spec fn with_unread_count(chats: Seq<ChatEntryView>, id: Seq<char>, count: u32) -> Seq<
    ChatEntryView,
> {
    if count > 0 {
        match first_with_id(chats, id) {
            Some(k) => chats.update(k, ChatEntryView { unread_count: count, ..chats[k] }),
            None => chats,
        }
    } else {
        chats
    }
}

/// The messages after a poll: the newest page replaces as many of the
/// newest messages as it holds, and the older ones stay.
pub open spec fn polled_messages(old: Seq<ParsedMessageView>, page: Seq<ParsedMessageView>) -> Seq<
    ParsedMessageView,
> {
    if old.len() <= page.len() {
        page
    } else {
        old.take(old.len() - page.len()) + page
    }
}

/// The custom names after a rename of chat `id` to `name` (trimmed): an
/// empty name removes the custom name.
pub open spec fn renamed(custom: Map<Seq<char>, Seq<char>>, id: Seq<char>, name: Seq<char>) -> Map<
    Seq<char>,
    Seq<char>,
> {
    if trim_seq(name).len() == 0 {
        custom.remove(id)
    } else {
        custom.insert(id, trim_seq(name))
    }
}

/// The state after a rename is submitted.
pub open spec fn rename_submitted(s: MainScreenView) -> MainScreenView {
    match s.selected_chat_id {
        Some(id) => {
            let custom = renamed(s.custom_chat_names, id, s.rename_value);
            MainScreenView {
                renaming_chat: false,
                custom_chat_names: custom,
                selected_chat_name: match first_with_id(s.chats, id) {
                    Some(k) => Some(resolved_name(id, s.chats[k].display_name, custom)),
                    None => s.selected_chat_name,
                },
                ..s
            }
        },
        None => MainScreenView { renaming_chat: false, ..s },
    }
}

/// The state after a scroll: near the top, with older messages to load and
/// none loading, loading starts.
pub open spec fn scrolled(s: MainScreenView, near_top: bool) -> MainScreenView {
    if near_top && !s.loading_older && s.backward_link is Some {
        MainScreenView { loading_older: true, ..s }
    } else {
        s
    }
}

/// Whether a message is a loaded list of federated profiles, whose names are
/// applied in the order the profile map is walked.
pub open spec fn is_federated_reply(msg: Message) -> bool {
    msg matches Message::FederatedProfileLoaded(Ok(_))
}

/// Whether `order` lists the entries of `m`: every pair is an entry, and
/// every key is listed, each key once.
pub open spec fn is_listing(order: Seq<(Seq<char>, Seq<char>)>, m: Map<Seq<char>, Seq<char>>) -> bool {
    &&& order.len() == m.len()
    &&& forall|j: int|
        0 <= j < order.len() ==> m.contains_key((#[trigger] order[j]).0) && m[order[j].0]
            == order[j].1
    &&& forall|k: Seq<char>|
        #[trigger] m.contains_key(k) ==> exists|j: int| 0 <= j < order.len() && (#[trigger] order[j]).0 == k
}

/// The state after federated profiles came back, applied in `order`.
pub open spec fn federated_applied(s: MainScreenView, order: Seq<(Seq<char>, Seq<char>)>) -> MainScreenView {
    MainScreenView { chats: apply_names(s.chats, order), ..s }
}

/// The next state for every message but a loaded list of federated profiles
/// (see `federated_applied`).
pub open spec fn next(s: MainScreenView, msg: Message) -> MainScreenView {
    match msg {
        Message::CsaSyncLoaded(Ok(resp)) => csa_synced(s, resp),
        Message::CsaSyncLoaded(Err(_)) => s,
        Message::ChatsLoaded(Ok(json)) => chats_loaded(s, json@),
        Message::ChatsLoaded(Err(e)) => MainScreenView {
            chats_json: "Error: "@ + e@,
            loading: false,
            ..s
        },
        Message::ChatSelected(id, name) => MainScreenView {
            selected_chat_id: Some(id@),
            selected_chat_name: Some(name@),
            messages: Seq::empty(),
            backward_link: None,
            loading_older: false,
            renaming_chat: false,
            messages_error: None,
            ..s
        },
        Message::MessagesLoaded(Ok(v)) => MainScreenView {
            messages: messages_of_text(v@, s.my_user_id),
            backward_link: backward_link_of_text(v@),
            messages_error: None,
            ..s
        },
        Message::MessagesLoaded(Err(e)) => MainScreenView {
            messages_error: Some("Error: "@ + e@),
            ..s
        },
        Message::InputChanged(v) => MainScreenView { input_value: v@, ..s },
        Message::SendPressed => if trim_seq(s.input_value).len() == 0 {
            s
        } else {
            MainScreenView { input_value: Seq::empty(), ..s }
        },
        Message::MessageSent(_) => s,
        Message::ProfileLoaded(Ok(v)) => MainScreenView {
            chats: match json_of_text(v@) {
                Some(val) => apply_names(s.chats, fetched_names(val)),
                None => s.chats,
            },
            ..s
        },
        Message::ProfileLoaded(Err(_)) => s,
        Message::FederatedProfileLoaded(_) => s,
        Message::OlderMessagesLoaded(Ok(v)) => MainScreenView {
            loading_older: false,
            backward_link: backward_link_of_text(v@),
            messages: messages_of_text(v@, s.my_user_id) + s.messages,
            ..s
        },
        Message::OlderMessagesLoaded(Err(_)) => MainScreenView { loading_older: false, ..s },
        Message::PollMessagesLoaded(Ok(v)) => MainScreenView {
            messages: polled_messages(s.messages, messages_of_text(v@, s.my_user_id)),
            ..s
        },
        Message::PollMessagesLoaded(Err(_)) => s,
        Message::PollTick => s,
        Message::ScrollChanged(near_top) => scrolled(s, near_top),
        Message::UnreadCountLoaded(id, count) => MainScreenView {
            chats: with_unread_count(s.chats, id@, count),
            ..s
        },
        Message::FoldersLoaded(Ok((folders, order))) => MainScreenView {
            folders: folders@,
            folder_order: if order@.len() > 0 {
                string_views(order@)
            } else {
                s.folder_order
            },
            ..s
        },
        Message::FoldersLoaded(Err(_)) => s,
        Message::FolderToggle(id) => MainScreenView {
            collapsed_folders: if s.collapsed_folders.contains(id@) {
                s.collapsed_folders.remove(id@)
            } else {
                s.collapsed_folders.insert(id@)
            },
            ..s
        },
        Message::RenameStart => match s.selected_chat_name {
            Some(n) => MainScreenView { renaming_chat: true, rename_value: n, ..s },
            None => s,
        },
        Message::RenameChanged(v) => MainScreenView { rename_value: v@, ..s },
        Message::RenameSubmit => rename_submitted(s),
    }
}

/// The work that a message starts.
pub open spec fn next_effects(s: MainScreenView, msg: Message) -> Seq<EffectView> {
    match msg {
        Message::CsaSyncLoaded(_) => seq![EffectView::LoadAllChats],
        Message::ChatsLoaded(Ok(json)) => chat_followups(chats_loaded(s, json@).chats, s.my_user_id),
        Message::ChatSelected(id, _) => seq![EffectView::LoadMessages(id@)],
        Message::SendPressed => if trim_seq(s.input_value).len() == 0 {
            Seq::empty()
        } else {
            seq![
                EffectView::SendMessage {
                    chat_id: or_empty(s.selected_chat_id),
                    content: trim_seq(s.input_value),
                    display_name: s.my_display_name,
                },
            ]
        },
        Message::MessageSent(Ok(_)) => match s.selected_chat_id {
            Some(id) => seq![EffectView::LoadMessages(id)],
            None => Seq::empty(),
        },
        Message::PollTick => match s.selected_chat_id {
            Some(id) => seq![EffectView::PollMessages(id)],
            None => Seq::empty(),
        },
        Message::ScrollChanged(near_top) => if near_top && !s.loading_older
            && s.backward_link is Some {
            seq![EffectView::LoadOlder(s.backward_link.unwrap())]
        } else {
            Seq::empty()
        },
        Message::RenameSubmit => if s.selected_chat_id is Some {
            seq![EffectView::SaveCustomNames]
        } else {
            Seq::empty()
        },
        _ => Seq::empty(),
    }
}

/// Whether handling a message runs without panicking: naming the chats and
/// making placeholders must not cut an ID inside a character.
pub open spec fn accepts(s: MainScreenView, msg: Message) -> bool {
    match msg {
        Message::CsaSyncLoaded(Ok(resp)) => {
            &&& resp.chats@.len() > 0 ==> csa_chats_safe(resp.chats@, bare_id(s.my_user_id))
            &&& fill_safe(synced_folders(s, resp), synced_known(s, resp))
        },
        Message::ChatsLoaded(Ok(json)) => match json_of_text(json@) {
            Some(page) => {
                &&& chatsvc_safe(page, s.my_user_id)
                &&& fill_safe(s.folders, merged_chats(s, page))
            },
            None => true,
        },
        _ => true,
    }
}

/// The federated profiles of a loaded federated reply.
pub open spec fn federated_reply_profiles(msg: Message) -> Map<Seq<char>, Seq<char>> {
    match msg {
        Message::FederatedProfileLoaded(Ok(v)) => federated_profiles_of_text(v@),
        _ => Map::empty(),
    }
}

/// Whether `new` and `effects` are the outcome of handling `msg` in `old`:
/// the next state (for a federated reply, its names applied in some listing
/// of the profile map) and the work the message starts.
pub open spec fn handled(
    old: MainScreenView,
    msg: Message,
    new: MainScreenView,
    effects: Seq<EffectView>,
) -> bool {
    &&& is_federated_reply(msg) ==> exists|order: Seq<(Seq<char>, Seq<char>)>|
        is_listing(order, federated_reply_profiles(msg)) && new == federated_applied(old, order)
    &&& !is_federated_reply(msg) ==> new == next(old, msg)
    &&& effects == next_effects(old, msg)
}

// ---------------------------------------------------------------------------
// Executable state machine
// ---------------------------------------------------------------------------

fn copy_entries(v: &Vec<ChatEntry>) -> (r: Vec<ChatEntry>)
    ensures
        entries_view(r@) == entries_view(v@),
{
    let mut r: Vec<ChatEntry> = Vec::new();
    let mut i: usize = 0;
    while i < v.len()
        invariant
            i <= v.len(),
            entries_view(r@) == entries_view(v@.take(i as int)),
        decreases v.len() - i,
    {
        let c = v[i].duplicate();
        let ghost before = r@;
        r.push(c);
        proof {
            assert(entries_view(r@) =~= entries_view(before).push(c@));
            assert(entries_view(v@.take(i as int).push(v@[i as int])) =~= entries_view(
                v@.take(i as int),
            ).push(v@[i as int]@));
            assert(v@.take(i + 1) =~= v@.take(i as int).push(v@[i as int]));
            assert(entries_view(r@) =~= entries_view(v@.take(i + 1)));
        }
        i = i + 1;
    }
    proof {
        assert(v@.take(v.len() as int) =~= v@);
    }
    r
}

fn copy_strings(v: &Vec<String>) -> (r: Vec<String>)
    ensures
        string_views(r@) == string_views(v@),
{
    let mut r: Vec<String> = Vec::new();
    let mut i: usize = 0;
    while i < v.len()
        invariant
            i <= v.len(),
            string_views(r@) == string_views(v@.take(i as int)),
        decreases v.len() - i,
    {
        let c = v[i].clone();
        let ghost before = r@;
        r.push(c);
        proof {
            assert(v@.take(i + 1) =~= v@.take(i as int).push(v@[i as int]));
            assert(string_views(r@) =~= string_views(before).push(c@));
            assert(string_views(v@.take(i as int).push(v@[i as int])) =~= string_views(
                v@.take(i as int),
            ).push(v@[i as int]@));
            assert(string_views(r@) =~= string_views(v@.take(i + 1)));
        }
        i = i + 1;
    }
    proof {
        assert(v@.take(v.len() as int) =~= v@);
    }
    r
}


/// The index of the first chat with ID `id`.
fn first_index(chats: &Vec<ChatEntry>, id: &str) -> (r: Option<usize>)
    ensures
        match r {
            Some(k) => k < chats.len() && first_with_id(entries_view(chats@), id@) == Some(
                k as int,
            ),
            None => first_with_id(entries_view(chats@), id@).is_none(),
        },
{
    let ghost es = entries_view(chats@);
    let mut i: usize = 0;
    proof {
        assert(es.skip(0) =~= es);
    }
    while i < chats.len()
        invariant
            es == entries_view(chats@),
            i <= chats.len(),
            first_with_id(es, id@) == match first_with_id(es.skip(i as int), id@) {
                Some(k) => Some(k + i),
                None => None::<int>,
            },
        decreases chats.len() - i,
    {
        proof {
            assert(es.skip(i as int)[0] == es[i as int]);
            assert(es.skip(i as int).drop_first() =~= es.skip(i + 1));
        }
        if crate::text::eq_str(chats[i].id.as_str(), id) {
            return Some(i);
        }
        i = i + 1;
    }
    proof {
        assert(es.skip(i as int).len() == 0);
    }
    None
}

/// Whether `id` is listed in `v`.
fn is_listed(v: &Vec<String>, id: &str) -> (b: bool)
    ensures
        b == listed_set(v@).contains(id@),
{
    let mut i: usize = 0;
    while i < v.len()
        invariant
            i <= v.len(),
            forall|j: int| 0 <= j < i ==> (#[trigger] v@[j])@ != id@,
        decreases v.len() - i,
    {
        if crate::text::eq_str(v[i].as_str(), id) {
            assert(listed_set(v@).contains(id@)) by {
                assert(v@[i as int]@ == id@);
            }
            return true;
        }
        i = i + 1;
    }
    false
}

/// Listing one more string adds it to the set.
proof fn lemma_listed_push(a: Seq<String>, x: String)
    ensures
        listed_set(a.push(x)) == listed_set(a).insert(x@),
{
    assert forall|s: Seq<char>| #[trigger] listed_set(a.push(x)).contains(s) implies listed_set(
        a,
    ).insert(x@).contains(s) by {
        let j = choose|j: int| 0 <= j < a.push(x).len() && (#[trigger] a.push(x)[j])@ == s;
        if j < a.len() {
            assert(a[j] == a.push(x)[j]);
        }
    }
    assert forall|s: Seq<char>| #[trigger] listed_set(a).insert(x@).contains(s) implies listed_set(
        a.push(x),
    ).contains(s) by {
        if s == x@ {
            assert(a.push(x)[a.len() as int]@ == s);
        } else {
            let j = choose|j: int| 0 <= j < a.len() && (#[trigger] a[j])@ == s;
            assert(a.push(x)[j] == a[j]);
        }
    }
    assert(listed_set(a.push(x)) =~= listed_set(a).insert(x@));
}

/// Collapse a folder that is expanded and expand one that is collapsed.
fn toggle_listed(v: &mut Vec<String>, id: String)
    ensures
        listed_set(final(v)@) == if listed_set(old(v)@).contains(id@) {
            listed_set(old(v)@).remove(id@)
        } else {
            listed_set(old(v)@).insert(id@)
        },
{
    if is_listed(v, id.as_str()) {
        let mut kept: Vec<String> = Vec::new();
        let mut i: usize = 0;
        proof {
            assert(v@.take(0) =~= Seq::<String>::empty());
            assert(listed_set(kept@) =~= listed_set(v@.take(0)).remove(id@));
        }
        while i < v.len()
            invariant
                i <= v.len(),
                listed_set(kept@) == listed_set(v@.take(i as int)).remove(id@),
            decreases v.len() - i,
        {
            proof {
                assert(v@.take(i + 1) =~= v@.take(i as int).push(v@[i as int]));
                lemma_listed_push(v@.take(i as int), v@[i as int]);
            }
            if !crate::text::eq_str(v[i].as_str(), id.as_str()) {
                let ghost before = kept@;
                let c = v[i].clone();
                kept.push(c);
                proof {
                    lemma_listed_push(before, c);
                    assert(listed_set(kept@) =~= listed_set(v@.take(i + 1)).remove(id@));
                }
            } else {
                proof {
                    assert(listed_set(kept@) =~= listed_set(v@.take(i + 1)).remove(id@));
                }
            }
            i = i + 1;
        }
        proof {
            assert(v@.take(v@.len() as int) =~= v@);
        }
        *v = kept;
    } else {
        let ghost before = v@;
        v.push(id);
        proof {
            lemma_listed_push(before, id);
        }
    }
}

impl MainScreen {
    /// The screen for a signed-in user, with the folders known so far and
    /// the stored custom chat names; it starts with the CSA full sync.
    pub fn new(
        display_name: String,
        user_id: String,
        initial_folders: Vec<CsaFolder>,
        initial_folder_order: Vec<String>,
        custom_chat_names: NameMap,
    ) -> (r: (MainScreen, Effect))
        ensures
            r.0@ == (MainScreenView {
                my_display_name: display_name@,
                my_user_id: user_id@,
                chats_json: "Loading..."@,
                chats: Seq::empty(),
                folders: initial_folders@,
                folder_order: string_views(initial_folder_order@),
                collapsed_folders: Set::empty(),
                selected_chat_id: None,
                selected_chat_name: None,
                messages: Seq::empty(),
                backward_link: None,
                loading_older: false,
                messages_error: None,
                input_value: Seq::empty(),
                loading: true,
                custom_chat_names: custom_chat_names@,
                renaming_chat: false,
                rename_value: Seq::empty(),
            }),
            r.1@ == EffectView::SyncCsa,
    {
        let screen = MainScreen {
            my_display_name: display_name,
            my_user_id: user_id,
            chats_json: to_string("Loading..."),
            chats: Vec::new(),
            folders: initial_folders,
            folder_order: initial_folder_order,
            collapsed_folders: Vec::new(),
            selected_chat_id: None,
            selected_chat_name: None,
            messages: Vec::new(),
            backward_link: None,
            loading_older: false,
            messages_error: None,
            input_value: String::new(),
            loading: true,
            custom_chat_names,
            renaming_chat: false,
            rename_value: String::new(),
        };
        proof {
            assert(listed_set(screen.collapsed_folders@) =~= Set::<Seq<char>>::empty());
            assert(entries_view(screen.chats@) =~= Seq::<ChatEntryView>::empty());
            assert(messages_view(screen.messages@) =~= Seq::<ParsedMessageView>::empty());
        }
        (screen, Effect::SyncCsa)
    }

    /// The follow-up work on the current chat list.
    fn followups(&self) -> (r: Vec<Effect>)
        ensures
            effects_view(r@) == chat_followups(entries_view(self.chats@), self.my_user_id@),
    {
        let ghost es = entries_view(self.chats@);
        let mris = mris_to_resolve(&self.chats, self.my_user_id.as_str());
        let mut effects: Vec<Effect> = Vec::new();
        if mris.len() > 0 {
            let copy = copy_strings(&mris);
            effects.push(Effect::FetchUsers(copy));
            effects.push(Effect::FetchFederated(mris));
        }
        let ghost lookups = effects_view(effects@);
        proof {
            assert(lookups + unread_checks(es.take(0)) =~= lookups);
        }
        let mut i: usize = 0;
        while i < self.chats.len()
            invariant
                es == entries_view(self.chats@),
                i <= self.chats.len(),
                lookups == (if mris_to_resolve_spec(es, bare_id(self.my_user_id@)).len() > 0 {
                    seq![
                        EffectView::FetchUsers(mris_to_resolve_spec(es, bare_id(self.my_user_id@))),
                        EffectView::FetchFederated(mris_to_resolve_spec(es, bare_id(self.my_user_id@))),
                    ]
                } else {
                    Seq::<EffectView>::empty()
                }),
                effects_view(effects@) == lookups + unread_checks(es.take(i as int)),
            decreases self.chats.len() - i,
        {
            let c = &self.chats[i];
            proof {
                assert(es.take(i + 1).drop_last() =~= es.take(i as int));
                assert(es.take(i + 1).last() == es[i as int]);
            }
            proof {
                assert(es[i as int] == c@);
            }
            if c.unread_count > 0 {
                let e = Effect::CountUnread { chat_id: c.id.clone(), read_horizon_id: c.read_horizon_id };
                let ghost before = effects@;
                effects.push(e);
                proof {
                    assert(effects_view(effects@) =~= effects_view(before).push(e@));
                    assert(effects_view(effects@) =~= lookups + unread_checks(es.take(i + 1)));
                }
            } else {
                proof {
                    assert(effects_view(effects@) =~= lookups + unread_checks(es.take(i + 1)));
                }
            }
            i = i + 1;
        }
        proof {
            assert(es.take(self.chats.len() as int) =~= es);
        }
        effects
    }

    fn on_csa_sync(&mut self, resp: CsaUpdatesResponse)
        requires
            resp.chats@.len() > 0 ==> csa_chats_safe(resp.chats@, bare_id(old(self).my_user_id@)),
            fill_safe(synced_folders(old(self)@, resp), synced_known(old(self)@, resp)),
        ensures
            final(self)@ == csa_synced(old(self)@, resp),
    {
        let ghost s = self@;
        let ghost r = resp;
        let CsaUpdatesResponse { conversation_folders, metadata: _, chats } = resp;
        self.loading = false;
        match conversation_folders {
            Some(cf) => {
                let CsaConversationFolders {
                    conversation_folders: folders,
                    conversation_folder_order: order,
                    ..
                } = cf;
                if folders.len() > 0 {
                    self.folders = folders;
                }
                if order.len() > 0 {
                    self.folder_order = order;
                }
            },
            None => {},
        }
        assert(self.folders@ == synced_folders(s, r));
        assert(string_views(self.folder_order@) == synced_order(s, r));
        if chats.len() > 0 {
            let entries = parse_csa_chats(chats.as_slice(), self.my_user_id.as_str());
            self.chats = entries;
            fill_missing_folder_chats(&mut self.chats, &self.folders);
            let mut status = String::new();
            push_decimal(&mut status, self.chats.len() as u64);
            self.chats_json = concat(status.as_str(), " chats from CSA sync");
            proof {
                assert(status@ =~= Seq::<char>::empty() + decimal_string(self.chats@.len()));
            }
        } else {
            fill_missing_folder_chats(&mut self.chats, &self.folders);
        }
        proof {
            assert(self@ == csa_synced(s, r));
        }
    }

    fn on_chats_loaded(&mut self, json: String) -> (effects: Vec<Effect>)
        requires
            accepts(old(self)@, Message::ChatsLoaded(Ok(json))),
        ensures
            final(self)@ == chats_loaded(old(self)@, json@),
            effects_view(effects@) == chat_followups(final(self)@.chats, old(self).my_user_id@),
    {
        let ghost s = self@;
        let parsed = parse_json_text(json.as_str());
        self.chats_json = json;
        self.loading = false;
        match parsed {
            Some(value) => {
                let incoming = parse_chats(&value, self.my_user_id.as_str());
                if self.chats.len() == 0 {
                    self.chats = incoming;
                } else {
                    merge_chatsvc_into_existing(&mut self.chats, incoming);
                }
                fill_missing_folder_chats(&mut self.chats, &self.folders);
            },
            None => {},
        }
        proof {
            assert(self@ == chats_loaded(s, self.chats_json@));
        }
        self.followups()
    }

    fn on_unread_count(&mut self, id: String, count: u32)
        ensures
            final(self)@ == (MainScreenView {
                chats: with_unread_count(old(self)@.chats, id@, count),
                ..old(self)@
            }),
    {
        let ghost s = self@;
        if count > 0 {
            match first_index(&self.chats, id.as_str()) {
                Some(k) => {
                    let mut c = self.chats[k].duplicate();
                    c.unread_count = count;
                    let ghost before = self.chats@;
                    self.chats.set(k, c);
                    proof {
                        assert(entries_view(self.chats@) =~= entries_view(before).update(
                            k as int,
                            c@,
                        ));
                        assert(c@ == ChatEntryView { unread_count: count, ..s.chats[k as int] });
                    }
                },
                None => {},
            }
        }
        proof {
            assert(self@ == (MainScreenView {
                chats: with_unread_count(s.chats, id@, count),
                ..s
            }));
        }
    }

    fn on_rename_submit(&mut self) -> (effects: Vec<Effect>)
        ensures
            final(self)@ == rename_submitted(old(self)@),
            effects_view(effects@) == next_effects(old(self)@, Message::RenameSubmit),
    {
        let ghost s = self@;
        self.renaming_chat = false;
        let new_name = trim_str(self.rename_value.as_str());
        let selected = clone_opt(&self.selected_chat_id);
        match selected {
            Some(cid) => {
                if new_name.as_str().is_empty() {
                    self.custom_chat_names.remove(cid.as_str());
                } else {
                    self.custom_chat_names.insert(cid.clone(), new_name);
                }
                match first_index(&self.chats, cid.as_str()) {
                    Some(k) => {
                        let resolved = resolve_display_name(
                            cid.as_str(),
                            self.chats[k].display_name.as_str(),
                            &self.custom_chat_names,
                        );
                        self.selected_chat_name = Some(resolved);
                        proof {
                            assert(entries_view(self.chats@)[k as int] == self.chats@[k as int]@);
                        }
                    },
                    None => {},
                }
                let mut effects: Vec<Effect> = Vec::new();
                effects.push(Effect::SaveCustomNames);
                proof {
                    assert(effects_view(effects@) =~= seq![EffectView::SaveCustomNames]);
                    assert(self@ == rename_submitted(s));
                }
                effects
            },
            None => {
                let effects: Vec<Effect> = Vec::new();
                proof {
                    assert(self@ == rename_submitted(s));
                    assert(effects_view(effects@) =~= Seq::<EffectView>::empty());
                }
                effects
            },
        }
    }

    fn on_poll(&mut self, v: String)
        ensures
            final(self)@ == (MainScreenView {
                messages: polled_messages(
                    old(self)@.messages,
                    messages_of_text(v@, old(self).my_user_id@),
                ),
                ..old(self)@
            }),
    {
        let ghost s = self@;
        let (mut page, _) = parse_messages(v.as_str(), self.my_user_id.as_str());
        if self.messages.len() <= page.len() {
            self.messages = page;
        } else {
            let older = self.messages.len() - page.len();
            let ghost before = self.messages@;
            let ghost page_v = page@;
            self.messages.truncate(older);
            self.messages.append(&mut page);
            proof {
                assert(self.messages@ =~= before.take(older as int) + page_v);
                assert(messages_view(self.messages@) =~= messages_view(before).take(older as int)
                    + messages_view(page_v));
            }
        }
        proof {
            assert(self@ == (MainScreenView {
                messages: polled_messages(s.messages, messages_of_text(v@, s.my_user_id)),
                ..s
            }));
        }
    }

    fn on_federated(&mut self, v: String)
        ensures
            exists|order: Seq<(Seq<char>, Seq<char>)>|
                is_listing(order, federated_profiles_of_text(v@)) && final(self)@ == federated_applied(
                    old(self)@,
                    order,
                ),
    {
        let ghost s = self@;
        let profiles = parse_federated_profiles(v.as_str());
        let pairs = profiles.pairs();
        apply_name_pairs(&mut self.chats, &pairs);
        proof {
            let order = pairs@.map_values(|p: (String, String)| (p.0@, p.1@));
            let m = federated_profiles_of_text(v@);
            assert forall|j: int| 0 <= j < order.len() implies m.contains_key(
                (#[trigger] order[j]).0,
            ) && m[order[j].0] == order[j].1 by {
                assert(order[j] == (pairs@[j].0@, pairs@[j].1@));
            }
            assert forall|k: Seq<char>| #[trigger] m.contains_key(k) implies exists|j: int|
                0 <= j < order.len() && (#[trigger] order[j]).0 == k by {
                let j = choose|j: int| 0 <= j < pairs@.len() && (#[trigger] pairs@[j]).0@ == k;
                assert(order[j] == (pairs@[j].0@, pairs@[j].1@));
            }
            assert(is_listing(order, m));
            assert(self@ == federated_applied(s, order));
        }
    }

    /// Handle one message: move to the next state and return the work to
    /// start. The caller must first check `accepts`.
    pub fn update(&mut self, msg: Message) -> (effects: Vec<Effect>)
        requires
            accepts(old(self)@, msg),
        ensures
            handled(old(self)@, msg, final(self)@, effects_view(effects@)),
    {
        let ghost s = self@;
        let ghost m = msg;
        let mut effects: Vec<Effect> = Vec::new();
        match msg {
            Message::CsaSyncLoaded(Ok(resp)) => {
                self.on_csa_sync(resp);
                effects.push(Effect::LoadAllChats);
            },
            Message::CsaSyncLoaded(Err(_)) => {
                effects.push(Effect::LoadAllChats);
            },
            Message::ChatsLoaded(Ok(json)) => {
                effects = self.on_chats_loaded(json);
            },
            Message::ChatsLoaded(Err(e)) => {
                self.chats_json = concat("Error: ", e.as_str());
                self.loading = false;
            },
            Message::ChatSelected(id, name) => {
                let load = Effect::LoadMessages(id.clone());
                self.selected_chat_id = Some(id);
                self.selected_chat_name = Some(name);
                self.messages = Vec::new();
                self.backward_link = None;
                self.loading_older = false;
                self.renaming_chat = false;
                self.messages_error = None;
                effects.push(load);
                proof {
                    assert(messages_view(self.messages@) =~= Seq::<ParsedMessageView>::empty());
                }
            },
            Message::MessagesLoaded(Ok(v)) => {
                let (msgs, link) = parse_messages(v.as_str(), self.my_user_id.as_str());
                self.messages = msgs;
                self.backward_link = link;
                self.messages_error = None;
            },
            Message::MessagesLoaded(Err(e)) => {
                self.messages_error = Some(concat("Error: ", e.as_str()));
            },
            Message::InputChanged(v) => {
                self.input_value = v;
            },
            Message::SendPressed => {
                let content = trim_str(self.input_value.as_str());
                if !content.as_str().is_empty() {
                    self.input_value = String::new();
                    let chat_id = match &self.selected_chat_id {
                        Some(id) => id.clone(),
                        None => String::new(),
                    };
                    effects.push(
                        Effect::SendMessage {
                            chat_id,
                            content,
                            display_name: self.my_display_name.clone(),
                        },
                    );
                }
            },
            Message::MessageSent(Ok(_)) => {
                match &self.selected_chat_id {
                    Some(id) => effects.push(Effect::LoadMessages(id.clone())),
                    None => {},
                }
            },
            Message::MessageSent(Err(_)) => {},
            Message::ProfileLoaded(Ok(v)) => {
                match parse_json_text(v.as_str()) {
                    Some(val) => apply_fetched_names(&mut self.chats, &val),
                    None => {},
                }
            },
            Message::ProfileLoaded(Err(_)) => {},
            Message::FederatedProfileLoaded(Ok(v)) => {
                proof {
                    assert(federated_reply_profiles(m) == federated_profiles_of_text(v@));
                }
                self.on_federated(v);
            },
            Message::FederatedProfileLoaded(Err(_)) => {},
            Message::OlderMessagesLoaded(Ok(v)) => {
                self.loading_older = false;
                let (mut older, link) = parse_messages(v.as_str(), self.my_user_id.as_str());
                self.backward_link = link;
                let ghost older_v = older@;
                let ghost current = self.messages@;
                let mut rest: Vec<ParsedMessage> = Vec::new();
                std::mem::swap(&mut rest, &mut self.messages);
                older.append(&mut rest);
                self.messages = older;
                proof {
                    assert(self.messages@ =~= older_v + current);
                    assert(messages_view(self.messages@) =~= messages_view(older_v)
                        + messages_view(current));
                }
            },
            Message::OlderMessagesLoaded(Err(_)) => {
                self.loading_older = false;
            },
            Message::PollMessagesLoaded(Ok(v)) => {
                self.on_poll(v);
            },
            Message::PollMessagesLoaded(Err(_)) => {},
            Message::PollTick => {
                match &self.selected_chat_id {
                    Some(id) => effects.push(Effect::PollMessages(id.clone())),
                    None => {},
                }
            },
            Message::ScrollChanged(near_top) => {
                if near_top && !self.loading_older {
                    match &self.backward_link {
                        Some(url) => {
                            let u = url.clone();
                            self.loading_older = true;
                            effects.push(Effect::LoadOlder(u));
                        },
                        None => {},
                    }
                }
            },
            Message::UnreadCountLoaded(id, count) => {
                self.on_unread_count(id, count);
            },
            Message::FoldersLoaded(Ok((folders, order))) => {
                self.folders = folders;
                if order.len() > 0 {
                    self.folder_order = order;
                }
            },
            Message::FoldersLoaded(Err(_)) => {},
            Message::FolderToggle(id) => {
                toggle_listed(&mut self.collapsed_folders, id);
            },
            Message::RenameStart => {
                match &self.selected_chat_name {
                    Some(n) => {
                        let v = n.clone();
                        self.renaming_chat = true;
                        self.rename_value = v;
                    },
                    None => {},
                }
            },
            Message::RenameChanged(v) => {
                self.rename_value = v;
            },
            Message::RenameSubmit => {
                effects = self.on_rename_submit();
            },
        }
        proof {
            assert(effects_view(effects@) =~= next_effects(s, m));
        }
        effects
    }

    /// Handle one message, unless handling it would cut a conversation ID
    /// inside a character: then `None`, with the state unchanged.
    pub fn try_update(&mut self, msg: Message) -> (r: Option<Vec<Effect>>)
        ensures
            match r {
                Some(effects) => accepts(old(self)@, msg) && handled(
                    old(self)@,
                    msg,
                    final(self)@,
                    effects_view(effects@),
                ),
                None => !accepts(old(self)@, msg) && final(self)@ == old(self)@,
            },
    {
        if !self.accepts(&msg) {
            return None;
        }
        Some(self.update(msg))
    }

    /// Whether `update` can handle `msg` without panicking; where it cannot,
    /// handling it would cut a conversation ID inside a character.
    pub fn accepts(&self, msg: &Message) -> (b: bool)
        ensures
            b == accepts(self@, *msg),
    {
        match msg {
            Message::CsaSyncLoaded(Ok(resp)) => {
                let my_bare = bare_id_str(self.my_user_id.as_str());
                let folders: &Vec<CsaFolder> = match &resp.conversation_folders {
                    Some(cf) => if cf.conversation_folders.len() > 0 {
                        &cf.conversation_folders
                    } else {
                        &self.folders
                    },
                    None => &self.folders,
                };
                if resp.chats.len() > 0 {
                    if !csa_chats_ok(resp.chats.as_slice(), my_bare.as_str()) {
                        return false;
                    }
                    let entries = parse_csa_chats(resp.chats.as_slice(), self.my_user_id.as_str());
                    fill_ok(&entries, folders.as_slice())
                } else {
                    fill_ok(&self.chats, folders.as_slice())
                }
            },
            Message::ChatsLoaded(Ok(json)) => {
                let value = match parse_json_text(json.as_str()) {
                    Some(v) => v,
                    None => {
                        return true;
                    },
                };
                if !chatsvc_ok(&value, self.my_user_id.as_str()) {
                    return false;
                }
                let incoming = parse_chats(&value, self.my_user_id.as_str());
                let merged = if self.chats.len() == 0 {
                    incoming
                } else {
                    let mut current = copy_entries(&self.chats);
                    merge_chatsvc_into_existing(&mut current, incoming);
                    current
                };
                fill_ok(&merged, self.folders.as_slice())
            },
            _ => true,
        }
    }
}

/// Whether `f` is the CSA form of the browser's chat folder `c`: the same
/// folder, its conversations as items with no thread type.
pub open spec fn is_csa_folder_of(f: CsaFolder, c: ChatFolder) -> bool {
    &&& f.id@ == c.id@
    &&& f.name@ == c.name@
    &&& f.folder_type@ == c.folder_type@
    &&& f.sort_type@ == c.sort_type@
    &&& f.is_expanded == c.is_expanded
    &&& f.is_deleted == c.is_deleted
    &&& f.version == c.version
    &&& f.conversation_folder_items@.len() == c.conversation_ids@.len()
    &&& forall|t: int|
        0 <= t < f.conversation_folder_items@.len() ==> {
            let item = #[trigger] f.conversation_folder_items@[t];
            &&& item.conversation_id@ == c.conversation_ids@[t]@
            &&& item.thread_type@ == Seq::<char>::empty()
            &&& item.item_type@ == Seq::<char>::empty()
            &&& item.created_time == 0
            &&& item.last_updated_time == 0
        }
}

/// The browser's chat folders in the form the main screen starts from.
pub fn folders_from_chat_folders(folders: &Vec<ChatFolder>) -> (r: Vec<CsaFolder>)
    ensures
        r@.len() == folders@.len(),
        forall|k: int| 0 <= k < r@.len() ==> is_csa_folder_of(#[trigger] r@[k], folders@[k]),
{
    let mut r: Vec<CsaFolder> = Vec::new();
    let mut k: usize = 0;
    while k < folders.len()
        invariant
            k <= folders.len(),
            r@.len() == k,
            forall|q: int| 0 <= q < k ==> is_csa_folder_of(#[trigger] r@[q], folders@[q]),
        decreases folders.len() - k,
    {
        let f = &folders[k];
        let mut items: Vec<CsaFolderItem> = Vec::new();
        let mut t: usize = 0;
        while t < f.conversation_ids.len()
            invariant
                t <= f.conversation_ids.len(),
                items@.len() == t,
                forall|q: int|
                    0 <= q < t ==> {
                        let item = #[trigger] items@[q];
                        &&& item.conversation_id@ == f.conversation_ids@[q]@
                        &&& item.thread_type@ == Seq::<char>::empty()
                        &&& item.item_type@ == Seq::<char>::empty()
                        &&& item.created_time == 0
                        &&& item.last_updated_time == 0
                    },
            decreases f.conversation_ids.len() - t,
        {
            items.push(
                CsaFolderItem {
                    conversation_id: f.conversation_ids[t].clone(),
                    thread_type: String::new(),
                    item_type: String::new(),
                    created_time: 0,
                    last_updated_time: 0,
                },
            );
            t = t + 1;
        }
        r.push(
            CsaFolder {
                id: f.id.clone(),
                name: f.name.clone(),
                folder_type: f.folder_type.clone(),
                sort_type: f.sort_type.clone(),
                is_expanded: f.is_expanded,
                is_deleted: f.is_deleted,
                version: f.version,
                conversation_folder_items: items,
            },
        );
        k = k + 1;
    }
    r
}

// ---------------------------------------------------------------------------
// Laws
// ---------------------------------------------------------------------------

/// The first chat with an ID has that ID, and no chat before it does.
pub proof fn lemma_first_with_id(chats: Seq<ChatEntryView>, id: Seq<char>)
    ensures
        match first_with_id(chats, id) {
            Some(k) => 0 <= k < chats.len() && chats[k].id == id && forall|j: int|
                0 <= j < k ==> (#[trigger] chats[j]).id != id,
            None => forall|j: int| 0 <= j < chats.len() ==> (#[trigger] chats[j]).id != id,
        },
    decreases chats.len(),
{
    if chats.len() > 0 && chats[0].id != id {
        lemma_first_with_id(chats.drop_first(), id);
        assert forall|j: int| 1 <= j < chats.len() implies (#[trigger] chats[j]) == chats.drop_first()[j - 1] by {}
    }
}

/// Folder law: after the CSA sync, or the chat service's list given as JSON
/// text, is taken in, every conversation of every folder that is not deleted
/// has a chat entry, so no such folder is shown empty; the chats known before
/// stay in front.
pub proof fn lemma_loaded_folders_never_empty(s: MainScreenView, msg: Message)
    requires
        (msg matches Message::CsaSyncLoaded(Ok(_))) || (msg matches Message::ChatsLoaded(Ok(json))
            && json_of_text(json@) is Some),
    ensures
        forall|k: int, t: int|
            0 <= k < next(s, msg).folders.len() && !next(s, msg).folders[k].is_deleted && 0 <= t
                < next(s, msg).folders[k].conversation_folder_items@.len() ==> has_entry_id(
                next(s, msg).chats,
                (#[trigger] next(s, msg).folders[k].conversation_folder_items@[t]).conversation_id@,
            ),
        msg matches Message::ChatsLoaded(Ok(_)) && s.chats.len() > 0 ==> next(s, msg).chats.take(
            s.chats.len() as int,
        ).map_values(|c: ChatEntryView| c.id) == s.chats.map_values(|c: ChatEntryView| c.id),
{
    match msg {
        Message::CsaSyncLoaded(Ok(resp)) => {
            lemma_fill_missing_laws(synced_folders(s, resp), synced_known(s, resp));
        },
        Message::ChatsLoaded(Ok(json)) => {
            let page = json_of_text(json@).unwrap();
            let merged = merged_chats(s, page);
            lemma_fill_missing_laws(s.folders, merged);
            if s.chats.len() > 0 {
                lemma_merge_laws(s.chats, chatsvc_entries(page, s.my_user_id));
                let after = next(s, msg).chats;
                assert(after.take(merged.len() as int) == merged);
                assert(after.take(s.chats.len() as int).map_values(|c: ChatEntryView| c.id)
                    =~= s.chats.map_values(|c: ChatEntryView| c.id)) by {
                    assert forall|m: int| 0 <= m < s.chats.len() implies after[m].id == s.chats[m].id by {
                        assert(after[m] == after.take(merged.len() as int)[m]);
                        assert(merged[m].id == s.chats[m].id);
                    }
                }
            }
        },
        _ => {},
    }
}

/// An unread count never clears a chat's unread mark and never reorders or
/// drops chats; a positive count lands on the first chat with that ID.
pub proof fn lemma_unread_count_never_cleared(s: MainScreenView, id: String, count: u32)
    ensures
        next(s, Message::UnreadCountLoaded(id, count)).chats.len() == s.chats.len(),
        forall|j: int|
            0 <= j < s.chats.len() ==> {
                let after = (#[trigger] next(s, Message::UnreadCountLoaded(id, count)).chats[j]);
                &&& after.id == s.chats[j].id
                &&& after.display_name == s.chats[j].display_name
                &&& s.chats[j].unread_count > 0 ==> after.unread_count > 0
            },
        count > 0 ==> match first_with_id(s.chats, id@) {
            Some(k) => next(s, Message::UnreadCountLoaded(id, count)).chats[k].unread_count == count,
            None => next(s, Message::UnreadCountLoaded(id, count)).chats == s.chats,
        },
{
    lemma_first_with_id(s.chats, id@);
}

/// Toggling a folder twice leaves the collapsed folders as they were.
pub proof fn lemma_folder_toggle_twice(s: MainScreenView, id: String)
    ensures
        next(next(s, Message::FolderToggle(id)), Message::FolderToggle(id)).collapsed_folders
            == s.collapsed_folders,
        next(s, Message::FolderToggle(id)).collapsed_folders.contains(id@) != s.collapsed_folders.contains(id@),
{
    let once = next(s, Message::FolderToggle(id)).collapsed_folders;
    let twice = next(next(s, Message::FolderToggle(id)), Message::FolderToggle(id)).collapsed_folders;
    if s.collapsed_folders.contains(id@) {
        assert(twice =~= s.collapsed_folders);
    } else {
        assert(twice =~= s.collapsed_folders);
    }
}

/// After renaming the open chat, the header shows the new (trimmed) name;
/// renaming it to a blank name brings back the chat's own name.
pub proof fn lemma_rename_shows_new_name(s: MainScreenView, id: Seq<char>, k: int)
    requires
        s.selected_chat_id == Some(id),
        first_with_id(s.chats, id) == Some(k),
    ensures
        trim_seq(s.rename_value).len() > 0 ==> next(s, Message::RenameSubmit).selected_chat_name
            == Some(trim_seq(s.rename_value)),
        trim_seq(s.rename_value).len() == 0 ==> next(s, Message::RenameSubmit).selected_chat_name
            == Some(s.chats[k].display_name),
        !next(s, Message::RenameSubmit).renaming_chat,
{
}

/// Polling replaces the newest messages with the newest page and keeps the
/// older history in front of it.
pub proof fn lemma_poll_keeps_history(old: Seq<ParsedMessageView>, page: Seq<ParsedMessageView>)
    ensures
        polled_messages(old, page).len() == if old.len() <= page.len() {
            page.len()
        } else {
            old.len()
        },
        polled_messages(old, page).skip(polled_messages(old, page).len() - page.len()) == page,
        forall|j: int|
            0 <= j < polled_messages(old, page).len() - page.len() ==> #[trigger] polled_messages(
                old,
                page,
            )[j] == old[j],
{
    let r = polled_messages(old, page);
    assert(r.skip(r.len() - page.len()) =~= page);
}

} // verus!
