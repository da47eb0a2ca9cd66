use teams_rs::api::csa::{
    CsaChat, CsaConversationFolders, CsaFolder, CsaFolderItem, CsaUpdatesResponse,
};
use teams_rs::auth::browser::ChatFolder;
use teams_rs::gui::login::{Action, LoginScreen, LoginState, LoginTask, Message as LoginMessage};
use teams_rs::gui::main_screen::{folders_from_chat_folders, Effect, MainScreen, Message};
use teams_rs::gui::names::NameMap;
use teams_rs::gui::presentation::{MainPane, MessagePane, SidebarRow, TimelineRow};
use teams_rs::gui::screen::{ChatEntry, ParsedMessage};

fn folder(id: &str, name: &str, conv_ids: &[&str]) -> CsaFolder {
    CsaFolder {
        id: id.to_string(),
        name: name.to_string(),
        folder_type: "UserCreated".to_string(),
        sort_type: "UserDefinedCustomOrder".to_string(),
        is_expanded: true,
        is_deleted: false,
        version: 1,
        conversation_folder_items: conv_ids
            .iter()
            .map(|c| CsaFolderItem {
                conversation_id: c.to_string(),
                thread_type: "chat".to_string(),
                item_type: String::new(),
                created_time: 0,
                last_updated_time: 0,
            })
            .collect(),
    }
}

fn entry(id: &str, name: &str, unread: u32) -> ChatEntry {
    ChatEntry { id: id.into(), display_name: name.into(), unread_count: unread, read_horizon_id: 7 }
}

fn screen() -> MainScreen {
    let (s, effect) = MainScreen::new(
        "Me Myself".to_string(),
        "8:orgid:me".to_string(),
        vec![],
        vec![],
        NameMap::new(),
    );
    assert_eq!(effect, Effect::SyncCsa);
    s
}

fn message(sender: &str, me: bool, ts: &str, text: &str) -> ParsedMessage {
    ParsedMessage {
        sender_name: sender.to_string(),
        sender_id: String::new(),
        content: text.to_string(),
        timestamp: ts.to_string(),
        is_from_me: me,
    }
}

fn step(s: &mut MainScreen, msg: Message) -> Vec<Effect> {
    assert!(s.accepts(&msg));
    s.update(msg)
}

#[test]
fn new_screen_starts_loading() {
    let s = screen();
    assert!(s.loading);
    assert_eq!(s.chats_json, "Loading...");
    assert_eq!(s.main_pane(), MainPane::LoadingChats);
}

#[test]
fn csa_sync_takes_chats_and_folders_then_loads_all_chats() {
    let mut s = screen();
    let chat = CsaChat {
        id: "19:aaa@thread.v2".into(),
        title: Some("Alpha".into()),
        thread_type: "chat".into(),
        is_read: false,
        is_one_on_one: false,
        hidden: false,
        is_disabled: false,
        is_conversation_deleted: false,
        members: vec![],
        last_message: None,
        consumption_horizon: None,
    };
    let resp = CsaUpdatesResponse {
        conversation_folders: Some(CsaConversationFolders {
            folder_hierarchy_version: None,
            conversation_folders: vec![folder("f1", "Work", &["19:aaa@thread.v2", "19:bbb@thread.v2"])],
            conversation_folder_order: vec!["f1".into()],
            migrated_pinned_to_favorites: false,
            is_partial_response: false,
        }),
        metadata: None,
        chats: vec![chat],
    };
    let effects = step(&mut s, Message::CsaSyncLoaded(Ok(resp)));
    assert_eq!(effects, vec![Effect::LoadAllChats]);
    assert!(!s.loading);
    assert_eq!(s.folders.len(), 1);
    assert_eq!(s.folder_order, vec!["f1".to_string()]);
    assert_eq!(s.chats.len(), 2);
    assert_eq!(s.chats[0].display_name, "💬 Alpha");
    assert_eq!(s.chats[0].unread_count, 1);
    assert_eq!(s.chats[1].id, "19:bbb@thread.v2");
    assert_eq!(s.chats[1].display_name, "💬 bbb");
    assert_eq!(s.chats_json, "2 chats from CSA sync");
}

#[test]
fn csa_sync_failure_still_loads_all_chats() {
    let mut s = screen();
    let effects = step(&mut s, Message::CsaSyncLoaded(Err("403".into())));
    assert_eq!(effects, vec![Effect::LoadAllChats]);
    assert!(s.loading);
}

#[test]
fn chats_loaded_merges_and_starts_follow_ups() {
    let mut s = screen();
    s.loading = false;
    s.chats = vec![entry("19:aaa@thread.v2", "💬 aaa", 0)];
    let text = r#"{"conversations": [
        {"id": "19:aaa@thread.v2", "lastUpdatedMessageId": 9, "threadProperties": {"threadType": "chat", "topic": "Alpha"},
         "properties": {"consumptionhorizon": "5;5;5"}},
        {"id": "19:me_bob@unq.gbl.spaces", "threadProperties": {"threadType": "chat"}}
    ]}"#;
    let effects = step(&mut s, Message::ChatsLoaded(Ok(text.to_string())));
    assert_eq!(s.chats_json, text);
    assert_eq!(s.chats.len(), 2);
    assert_eq!(s.chats[0].display_name, "💬 Alpha");
    assert_eq!(s.chats[0].unread_count, 1);
    assert_eq!(s.chats[1].display_name, "💬 User bob");
    assert_eq!(
        effects,
        vec![
            Effect::FetchUsers(vec!["8:orgid:bob".to_string()]),
            Effect::FetchFederated(vec!["8:orgid:bob".to_string()]),
            Effect::CountUnread { chat_id: "19:aaa@thread.v2".to_string(), read_horizon_id: 5 },
        ]
    );
}

#[test]
fn chats_loaded_error_shows_error() {
    let mut s = screen();
    let effects = step(&mut s, Message::ChatsLoaded(Err("timeout".into())));
    assert!(effects.is_empty());
    assert_eq!(s.chats_json, "Error: timeout");
    assert!(!s.loading);
    assert_eq!(s.main_pane(), MainPane::ChatListText);
}

#[test]
fn chat_selection_resets_the_message_view() {
    let mut s = screen();
    s.messages = vec![message("A", false, "2026-01-01T10:00:00Z", "old")];
    s.backward_link = Some("https://older".into());
    s.renaming_chat = true;
    let effects = step(&mut s, Message::ChatSelected("19:x@thread.v2".into(), "💬 X".into()));
    assert_eq!(effects, vec![Effect::LoadMessages("19:x@thread.v2".to_string())]);
    assert_eq!(s.selected_chat_id, Some("19:x@thread.v2".to_string()));
    assert_eq!(s.selected_chat_name, Some("💬 X".to_string()));
    assert!(s.messages.is_empty());
    assert_eq!(s.backward_link, None);
    assert!(!s.renaming_chat);
    assert_eq!(s.message_pane(), MessagePane::LoadingMessages);
}

#[test]
fn messages_loaded_and_failed() {
    let mut s = screen();
    let v = r#"{"messages": [{"type": "Message", "content": "Hi", "imdisplayname": "A", "from": "x/8:orgid:a", "composetime": "2026-01-01T10:00:00Z"}],
                    "_metadata": {"backwardLink": "https://older"}}"#;
    step(&mut s, Message::MessagesLoaded(Ok(v.to_string())));
    assert_eq!(s.messages.len(), 1);
    assert_eq!(s.backward_link, Some("https://older".to_string()));
    step(&mut s, Message::MessagesLoaded(Err("boom".into())));
    assert_eq!(s.messages_error, Some("Error: boom".to_string()));
    assert_eq!(s.message_pane(), MessagePane::Error);
}

#[test]
fn text_that_is_not_json_keeps_chats_and_clears_messages() {
    let mut s = screen();
    s.chats = vec![entry("19:a@thread.v2", "💬 A", 0)];
    let effects = step(&mut s, Message::ChatsLoaded(Ok("<html>busy</html>".to_string())));
    assert_eq!(s.chats_json, "<html>busy</html>");
    assert!(!s.loading);
    assert_eq!(s.chats.len(), 1);
    assert_eq!(s.chats[0].display_name, "💬 A");
    assert_eq!(effects, vec![]);
    s.messages = vec![message("A", false, "t", "old")];
    s.backward_link = Some("https://older".into());
    step(&mut s, Message::MessagesLoaded(Ok("not json".to_string())));
    assert!(s.messages.is_empty());
    assert_eq!(s.backward_link, None);
    step(&mut s, Message::ProfileLoaded(Ok("not json".to_string())));
    assert_eq!(s.chats[0].display_name, "💬 A");
}

#[test]
fn try_update_refuses_what_accepts_refuses() {
    let mut s = screen();
    let id = "19:aaaaaaaaaaaaaaaaaaaé@thread.v2";
    s.folders = vec![folder("f", "F", &[id])];
    let resp = CsaUpdatesResponse { conversation_folders: None, metadata: None, chats: vec![] };
    assert_eq!(s.try_update(Message::CsaSyncLoaded(Ok(resp))), None);
    assert!(s.chats.is_empty());
    assert!(s.loading);
    assert_eq!(s.try_update(Message::InputChanged("hi".into())), Some(vec![]));
    assert_eq!(s.input_value, "hi");
}

#[test]
fn send_pressed_sends_trimmed_text_and_clears_input() {
    let mut s = screen();
    step(&mut s, Message::ChatSelected("19:x@thread.v2".into(), "X".into()));
    step(&mut s, Message::InputChanged("   ".into()));
    assert!(step(&mut s, Message::SendPressed).is_empty());
    assert_eq!(s.input_value, "   ");
    step(&mut s, Message::InputChanged("  hello  ".into()));
    let effects = step(&mut s, Message::SendPressed);
    assert_eq!(
        effects,
        vec![Effect::SendMessage {
            chat_id: "19:x@thread.v2".to_string(),
            content: "hello".to_string(),
            display_name: "Me Myself".to_string(),
        }]
    );
    assert_eq!(s.input_value, "");
    let effects = step(&mut s, Message::MessageSent(Ok(())));
    assert_eq!(effects, vec![Effect::LoadMessages("19:x@thread.v2".to_string())]);
}

#[test]
fn unread_count_never_resets_to_zero() {
    let mut s = screen();
    s.chats = vec![entry("19:a@thread.v2", "A", 1), entry("19:b@thread.v2", "B", 0)];
    step(&mut s, Message::UnreadCountLoaded("19:a@thread.v2".into(), 0));
    assert_eq!(s.chats[0].unread_count, 1);
    step(&mut s, Message::UnreadCountLoaded("19:a@thread.v2".into(), 4));
    assert_eq!(s.chats[0].unread_count, 4);
    step(&mut s, Message::UnreadCountLoaded("19:zzz@thread.v2".into(), 2));
    assert_eq!(s.chats[1].unread_count, 0);
}

#[test]
fn folder_toggle_twice_restores_the_sidebar() {
    let mut s = screen();
    step(&mut s, Message::FolderToggle("f1".into()));
    assert_eq!(s.collapsed_folders, vec!["f1".to_string()]);
    step(&mut s, Message::FolderToggle("f1".into()));
    assert!(s.collapsed_folders.is_empty());
}

#[test]
fn rename_sets_and_clears_custom_name() {
    let mut s = screen();
    s.loading = false;
    s.chats = vec![entry("19:a@thread.v2", "💬 Alice", 0)];
    step(&mut s, Message::ChatSelected("19:a@thread.v2".into(), "💬 Alice".into()));
    step(&mut s, Message::RenameStart);
    assert!(s.renaming_chat);
    assert_eq!(s.rename_value, "💬 Alice");
    step(&mut s, Message::RenameChanged("  Projekt  ".into()));
    let effects = step(&mut s, Message::RenameSubmit);
    assert_eq!(effects, vec![Effect::SaveCustomNames]);
    assert!(!s.renaming_chat);
    assert_eq!(s.selected_chat_name, Some("Projekt".to_string()));
    assert_eq!(s.custom_chat_names.get("19:a@thread.v2").unwrap(), "Projekt");
    step(&mut s, Message::RenameChanged("   ".into()));
    step(&mut s, Message::RenameSubmit);
    assert_eq!(s.selected_chat_name, Some("💬 Alice".to_string()));
    assert!(s.custom_chat_names.get("19:a@thread.v2").is_none());
}

#[test]
fn rename_without_selection_saves_nothing() {
    let mut s = screen();
    s.renaming_chat = true;
    let effects = step(&mut s, Message::RenameSubmit);
    assert!(effects.is_empty());
    assert!(!s.renaming_chat);
}

#[test]
fn older_messages_load_once_and_are_appended_behind() {
    let mut s = screen();
    s.messages = vec![message("A", false, "2026-01-02T10:00:00Z", "new")];
    s.backward_link = Some("https://older".into());
    assert!(step(&mut s, Message::ScrollChanged(false)).is_empty());
    let effects = step(&mut s, Message::ScrollChanged(true));
    assert_eq!(effects, vec![Effect::LoadOlder("https://older".to_string())]);
    assert!(s.loading_older);
    assert!(step(&mut s, Message::ScrollChanged(true)).is_empty());
    let v = r#"{"messages": [{"type": "Message", "content": "old", "imdisplayname": "B", "composetime": "2026-01-01T10:00:00Z"}]}"#;
    step(&mut s, Message::OlderMessagesLoaded(Ok(v.to_string())));
    assert!(!s.loading_older);
    assert_eq!(s.backward_link, None);
    assert_eq!(s.messages.len(), 2);
    assert_eq!(s.messages[0].content, "old");
    assert_eq!(s.messages[1].content, "new");
}

#[test]
fn poll_replaces_newest_page_and_keeps_history() {
    let mut s = screen();
    s.messages = vec![
        message("A", false, "t", "h1"),
        message("A", false, "t", "h2"),
        message("A", false, "t", "h3"),
    ];
    step(&mut s, Message::ChatSelected("19:x@thread.v2".into(), "X".into()));
    // selecting clears the list; start again from a longer history
    s.messages = vec![
        message("A", false, "t", "h1"),
        message("A", false, "t", "h2"),
        message("A", false, "t", "h3"),
    ];
    assert_eq!(step(&mut s, Message::PollTick), vec![Effect::PollMessages("19:x@thread.v2".to_string())]);
    let v = r#"{"messages": [{"type": "Message", "content": "n1", "imdisplayname": "B"}, {"type": "Message", "content": "n2", "imdisplayname": "B"}]}"#;
    step(&mut s, Message::PollMessagesLoaded(Ok(v.to_string())));
    let texts: Vec<&str> = s.messages.iter().map(|m| m.content.as_str()).collect();
    assert_eq!(texts, vec!["h1", "n1", "n2"]);
}

#[test]
fn federated_profiles_resolve_user_labels() {
    let mut s = screen();
    s.chats = vec![entry("19:me_bob@unq.gbl.spaces", "💬 User bob", 0), entry("19:x@thread.v2", "💬 Team", 0)];
    let v = r#"{"value": [{"mri": "8:orgid:bob", "displayName": "Bob Extern"}]}"#;
    step(&mut s, Message::FederatedProfileLoaded(Ok(v.to_string())));
    assert_eq!(s.chats[0].display_name, "💬 Bob Extern");
    assert_eq!(s.chats[1].display_name, "💬 Team");
}

#[test]
fn folders_loaded_keeps_order_when_empty() {
    let mut s = screen();
    s.folder_order = vec!["old".into()];
    step(&mut s, Message::FoldersLoaded(Ok((vec![folder("a", "A", &[])], vec![]))));
    assert_eq!(s.folders.len(), 1);
    assert_eq!(s.folder_order, vec!["old".to_string()]);
    step(&mut s, Message::FoldersLoaded(Ok((vec![], vec!["a".into()]))));
    assert!(s.folders.is_empty());
    assert_eq!(s.folder_order, vec!["a".to_string()]);
}

#[test]
fn accepts_rejects_placeholder_cut_inside_a_character() {
    let mut s = screen();
    // 19 ASCII bytes then "é": byte 20 falls inside the "é".
    let id = "19:aaaaaaaaaaaaaaaaaaaé@thread.v2";
    s.folders = vec![folder("f", "F", &[id])];
    let msg = Message::CsaSyncLoaded(Err("x".into()));
    assert!(s.accepts(&msg));
    let resp = CsaUpdatesResponse { conversation_folders: None, metadata: None, chats: vec![] };
    assert!(!s.accepts(&Message::CsaSyncLoaded(Ok(resp))));
}

#[test]
fn sidebar_rows_follow_sections_and_collapse() {
    let mut s = screen();
    s.loading = false;
    s.chats = vec![entry("19:a@thread.v2", "💬 A", 2), entry("19:b@thread.v2", "💬 B", 0)];
    s.folders = vec![folder("f1", "Work", &["19:a@thread.v2"])];
    s.folder_order = vec!["f1".into()];
    s.selected_chat_id = Some("19:b@thread.v2".into());
    s.custom_chat_names.insert("19:a@thread.v2".into(), "Alpha".into());
    let rows = s.sidebar_rows();
    assert_eq!(
        rows,
        vec![
            SidebarRow::FolderHeader { folder_id: "f1".into(), name: "Work".into(), collapsed: false, count: 1 },
            SidebarRow::Chat { index: 0, label: "Alpha".into(), selected: false },
            SidebarRow::OtherHeader("── Sonstige ──".into()),
            SidebarRow::Chat { index: 1, label: "💬 B".into(), selected: true },
        ]
    );
    step(&mut s, Message::FolderToggle("f1".into()));
    let rows = s.sidebar_rows();
    assert_eq!(rows.len(), 3);
    assert_eq!(
        rows[0],
        SidebarRow::FolderHeader { folder_id: "f1".into(), name: "Work".into(), collapsed: true, count: 1 }
    );
}

#[test]
fn sidebar_without_folders_has_no_header() {
    let mut s = screen();
    s.chats = vec![entry("19:a@thread.v2", "💬 A", 0)];
    let rows = s.sidebar_rows();
    assert_eq!(rows, vec![SidebarRow::Chat { index: 0, label: "💬 A".into(), selected: false }]);
}

#[test]
fn timeline_puts_date_lines_and_names() {
    let mut s = screen();
    // newest first, as the service sends them
    s.messages = vec![
        message("Me", true, "2026-03-24T08:00:00Z", "today"),
        message("Bob", false, "2026-03-23T09:16:00Z", "again"),
        message("Bob", false, "2026-03-23T09:15:00Z", "hi"),
    ];
    let rows = s.timeline("2026-03-24");
    assert_eq!(
        rows,
        vec![
            TimelineRow::DateSeparator("Montag, 23.03.2026".into()),
            TimelineRow::Message { index: 2, show_name: true, time: "09:15".into() },
            TimelineRow::Message { index: 1, show_name: false, time: "09:16".into() },
            TimelineRow::Message { index: 0, show_name: true, time: "08:00".into() },
        ]
    );
    assert_eq!(s.longest_sender_name(), 3);
}

#[test]
fn timeline_hides_names_with_one_sender() {
    let mut s = screen();
    s.messages = vec![message("Bob", false, "2026-03-23T09:15:00Z", "hi")];
    let rows = s.timeline("2026-03-23");
    assert_eq!(rows, vec![TimelineRow::Message { index: 0, show_name: false, time: "09:15".into() }]);
}

#[test]
fn folders_from_chat_folders_converts_ids() {
    let cf = ChatFolder {
        id: "f".into(),
        name: "F".into(),
        folder_type: "UserCreated".into(),
        sort_type: "MostRecent".into(),
        is_expanded: true,
        is_deleted: false,
        version: 3,
        conversation_ids: vec!["19:a@thread.v2".into()],
    };
    let out = folders_from_chat_folders(&vec![cf]);
    assert_eq!(out.len(), 1);
    assert_eq!(out[0].id, "f");
    assert_eq!(out[0].version, 3);
    assert_eq!(out[0].conversation_folder_items.len(), 1);
    assert_eq!(out[0].conversation_folder_items[0].conversation_id, "19:a@thread.v2");
    assert_eq!(out[0].conversation_folder_items[0].thread_type, "");
}

#[test]
fn login_screen_flow() {
    let (mut login, task) = LoginScreen::new();
    assert_eq!(task, LoginTask::BrowserLogin);
    assert_eq!(login.state, LoginState::WaitingForLogin);
    let action = login.update::<u32>(LoginMessage::LoginResult(Err("Chrome missing".into())));
    assert!(matches!(action, Action::Task(LoginTask::Nothing)));
    assert_eq!(login.state, LoginState::Error("Chrome missing".into()));
    let action = login.update::<u32>(LoginMessage::Retry);
    assert!(matches!(action, Action::Task(LoginTask::BrowserLogin)));
    assert_eq!(login.state, LoginState::WaitingForLogin);
    let action = login.update(LoginMessage::LoginResult(Ok(42u32)));
    assert!(matches!(action, Action::LoggedIn(42)));
    assert_eq!(LoginScreen::refreshing().state, LoginState::Refreshing);
}
