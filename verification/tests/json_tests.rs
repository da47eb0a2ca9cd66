use teams_rs::auth::browser::{
    folders_from_idb_result, folders_from_idb_text, parse_folder_idb_response, parse_session_info, parse_session_text,
};
use teams_rs::gui::chatsvc::{chatsvc_ok, parse_chats, parse_messages, parse_messages_value, resolve_name_from_last_message};
use teams_rs::gui::names::{
    custom_names_json, federated_profiles_of_value, parse_custom_names, parse_federated_profiles, NameMap,
};
use teams_rs::gui::refresh::{apply_fetched_names, count_unread_in_text, count_unread_messages, mris_to_resolve};
use teams_rs::gui::screen::ChatEntry;
use teams_rs::json::{JsonNumber, JsonValue};

/// Reads JSON text into the library's document tree.
fn json(text: &str) -> JsonValue {
    let v: serde_json::Value = serde_json::from_str(text).expect("test JSON parses");
    convert(&v)
}

fn convert(v: &serde_json::Value) -> JsonValue {
    match v {
        serde_json::Value::Null => JsonValue::Null,
        serde_json::Value::Bool(b) => JsonValue::Bool(*b),
        serde_json::Value::Number(n) => {
            if let Some(u) = n.as_u64() {
                JsonValue::Number(JsonNumber::PosInt(u))
            } else if let Some(i) = n.as_i64() {
                JsonValue::Number(JsonNumber::NegInt(i))
            } else {
                JsonValue::Number(JsonNumber::Float)
            }
        }
        serde_json::Value::String(s) => JsonValue::Str(s.clone()),
        serde_json::Value::Array(items) => JsonValue::Array(items.iter().map(convert).collect()),
        serde_json::Value::Object(map) => {
            JsonValue::Object(map.iter().map(|(k, v)| (k.clone(), convert(v))).collect())
        }
    }
}

// ── parse_chats ───────────────────────────────────────────────

#[test]
fn parse_chats_detects_unread() {
    let val = json(r#"{
        "conversations": [{
            "id": "19:abc@unq.gbl.spaces",
            "lastUpdatedMessageId": 200,
            "threadProperties": { "threadType": "chat", "topic": "" },
            "properties": { "consumptionhorizon": "100;100;100" },
            "members": []
        }, {
            "id": "19:def@unq.gbl.spaces",
            "lastUpdatedMessageId": 100,
            "threadProperties": { "threadType": "chat", "topic": "" },
            "properties": { "consumptionhorizon": "100;100;100" },
            "members": []
        }]
    }"#);

    assert!(chatsvc_ok(&val, "8:orgid:abc"));
    let chats = parse_chats(&val, "8:orgid:abc");
    assert_eq!(chats.len(), 2);
    assert!(chats[0].unread_count > 0, "chat with newer messages should be unread");
    assert_eq!(chats[0].read_horizon_id, 100);
    assert_eq!(chats[1].unread_count, 0, "chat with no new messages should be read");
}

#[test]
fn parse_chats_names_and_skips() {
    let val = json(r#"{
        "conversations": [
            {"id": "19:t@thread.v2", "threadProperties": {"threadType": "topic", "topic": "Release"}},
            {"id": "48:calllogs", "threadProperties": {"threadType": "streamofcalllogs"}},
            {"id": "19:g@thread.v2", "threadProperties": {"threadType": "chat"},
             "members": [{"id": "8:orgid:me", "friendlyName": "Me"},
                         {"id": "8:orgid:x", "friendlyName": "Xavier"},
                         {"id": "8:orgid:y", "friendlyName": "Yvonne"}]},
            {"id": "19:me_bob@unq.gbl.spaces", "threadProperties": {"threadType": "chat"}}
        ]
    }"#);
    let chats = parse_chats(&val, "8:orgid:me");
    assert_eq!(chats.len(), 3);
    assert_eq!(chats[0].display_name, "📋 Release");
    assert_eq!(chats[1].display_name, "💬 Xavier, Yvonne");
    assert_eq!(chats[2].display_name, "💬 User bob");
}

#[test]
fn parse_chats_falls_back_to_value_list() {
    let val = json(r#"{"value": [{"id": "19:a@thread.v2", "topic": "Alpha"}, {"id": "19:b@thread.v2"}, {"topic": "no id"}]}"#);
    let chats = parse_chats(&val, "8:orgid:me");
    assert_eq!(chats.len(), 2);
    assert_eq!(chats[0].display_name, "Alpha");
    assert_eq!(chats[1].display_name, "19:b@thread.v2");
}

#[test]
fn chatsvc_rejects_id_cut_inside_a_character() {
    // The 1:1 fallback label cuts the other user's ID after 8 bytes; "€€€€"
    // has its 8th byte inside the third character.
    let val = json(r#"{"conversations": [{"id": "19:me_€€€€@unq.gbl.spaces", "threadProperties": {"threadType": "chat"}}]}"#);
    assert!(!chatsvc_ok(&val, "8:orgid:me"));
}

// ── resolve_name_from_last_message ──────────────────────────────

#[test]
fn last_message_from_other_user_resolves_name() {
    let conv = json(r#"{
        "lastMessage": {
            "imdisplayname": "Müller, Klaus",
            "from": "https://teams.microsoft.com/api/chatsvc/de/v1/users/ME/contacts/8:orgid:other-uuid"
        }
    }"#);
    assert_eq!(
        resolve_name_from_last_message(&conv, "my-uuid"),
        Some("Müller, Klaus".to_string())
    );
}

#[test]
fn last_message_from_me_returns_none() {
    let conv = json(r#"{
        "lastMessage": {
            "imdisplayname": "Baesler, Manuel",
            "from": "https://teams.microsoft.com/api/chatsvc/de/v1/users/ME/contacts/8:orgid:my-uuid"
        }
    }"#);
    assert_eq!(resolve_name_from_last_message(&conv, "my-uuid"), None);
}

#[test]
fn last_message_empty_name_returns_none() {
    let conv = json(r#"{
        "lastMessage": {
            "imdisplayname": "",
            "from": "https://teams.microsoft.com/api/chatsvc/de/v1/users/ME/contacts/8:orgid:other-uuid"
        }
    }"#);
    assert_eq!(resolve_name_from_last_message(&conv, "my-uuid"), None);
}

#[test]
fn no_last_message_returns_none() {
    let conv = json("{}");
    assert_eq!(resolve_name_from_last_message(&conv, "my-uuid"), None);
}

// ── parse_federated_profiles ────────────────────────────────────

#[test]
fn parse_federated_profiles_extracts_names() {
    let val = r#"{
        "value": [
            {
                "mri": "8:orgid:aaaaaaaa-bbbb-cccc-dddd-eeeeeeeeeeee",
                "displayName": "Mustermann, Max",
                "email": "max.mustermann@example.com",
                "type": "Federated"
            },
            {
                "mri": "8:orgid:11111111-2222-3333-4444-555555555555",
                "displayName": "Doe, Jane (Dept X/Unit Y)",
                "email": "jane.doe@example.com",
                "type": "Federated"
            }
        ]
    }"#;
    let result = parse_federated_profiles(val);
    assert_eq!(result.len(), 2);
    assert_eq!(result.get("8:orgid:aaaaaaaa-bbbb-cccc-dddd-eeeeeeeeeeee").unwrap(), "Mustermann, Max");
    assert_eq!(result.get("8:orgid:11111111-2222-3333-4444-555555555555").unwrap(), "Doe, Jane (Dept X/Unit Y)");
}

#[test]
fn parse_federated_profiles_skips_empty_names() {
    let val = r#"{
        "value": [
            { "mri": "8:orgid:aaa", "displayName": "" },
            { "mri": "8:orgid:bbb", "displayName": "Good Name" }
        ]
    }"#;
    let result = parse_federated_profiles(val);
    assert_eq!(result.len(), 1);
    assert_eq!(result.get("8:orgid:bbb").unwrap(), "Good Name");
}

#[test]
fn parse_federated_profiles_empty_response() {
    let val = r#"{ "value": [] }"#;
    let result = parse_federated_profiles(val);
    assert!(result.is_empty());
}

#[test]
fn parse_federated_profiles_later_entry_wins() {
    let val = r#"{"value": [{"mri": "8:orgid:a", "displayName": "First"}, {"mri": "8:orgid:a", "displayName": "Second"}]}"#;
    let result = parse_federated_profiles(val);
    assert_eq!(result.len(), 1);
    assert_eq!(result.get("8:orgid:a").unwrap(), "Second");
}

#[test]
fn parse_federated_profiles_invalid_json() {
    let result = parse_federated_profiles("not json");
    assert!(result.is_empty());
}

#[test]
fn federated_profiles_of_a_parsed_tree() {
    let val = json(r#"{"value": [{"mri": "8:orgid:a", "displayName": "Ann"}, {"mri": "", "displayName": "Nobody"}]}"#);
    let result = federated_profiles_of_value(&val);
    assert_eq!(result.len(), 1);
    assert_eq!(result.get("8:orgid:a").unwrap(), "Ann");
    assert!(federated_profiles_of_value(&json(r#"{"value": "x"}"#)).is_empty());
}

// ── messages ─────────────────────────────────────────────────────

#[test]
fn parse_messages_reads_messages_and_link() {
    let val = r#"{
        "messages": [
            {"type": "Message", "messagetype": "RichText/Html", "content": "<p>Hello &amp; welcome</p>",
             "imdisplayname": "Alice", "from": "https://x/contacts/8:orgid:alice",
             "originalarrivaltime": "2026-03-23T09:15:00.000Z", "id": "2"},
            {"type": "ThreadActivity/AddMember", "content": "x"},
            {"type": "Message", "messagetype": "Text", "content": "Hi",
             "imdisplayname": "Me", "from": "https://x/contacts/8:orgid:me",
             "originalarrivaltime": "2026-03-23T09:14:00.000Z", "id": "1"}
        ],
        "_metadata": {"backwardLink": "https://older"}
    }"#;
    let (msgs, link) = parse_messages(val, "8:orgid:me");
    assert_eq!(link, Some("https://older".to_string()));
    assert_eq!(msgs.len(), 2);
    assert_eq!(msgs[0].sender_name, "Alice");
    assert_eq!(msgs[0].content, "Hello & welcome");
    assert!(!msgs[0].is_from_me);
    assert_eq!(msgs[1].content, "Hi");
    assert!(msgs[1].is_from_me);
}

#[test]
fn parse_messages_empty_link_is_none() {
    let val = r#"{"messages": [], "_metadata": {"backwardLink": ""}}"#;
    let (msgs, link) = parse_messages(val, "8:orgid:me");
    assert!(msgs.is_empty());
    assert_eq!(link, None);
}

#[test]
fn parse_messages_invalid_json_gives_nothing() {
    let (msgs, link) = parse_messages("not json", "8:orgid:me");
    assert!(msgs.is_empty());
    assert_eq!(link, None);
    let (msgs, link) = parse_messages("", "8:orgid:me");
    assert!(msgs.is_empty());
    assert_eq!(link, None);
}

#[test]
fn parse_messages_value_reads_a_parsed_tree() {
    let val = json(r#"{"messages": [{"type": "Message", "content": "<b>x</b>", "imdisplayname": "Z", "from": "a/8:orgid:z"}],
        "_metadata": {"backwardLink": "https://next"}}"#);
    let (msgs, link) = parse_messages_value(&val, "8:orgid:me");
    assert_eq!(msgs.len(), 1);
    assert_eq!(msgs[0].content, "x");
    assert_eq!(msgs[0].sender_id, "8:orgid:z");
    assert_eq!(link, Some("https://next".to_string()));
}

#[test]
fn count_unread_in_text_parses_then_counts() {
    let text = r#"{"messages": [{"type": "Message", "id": "300"}, {"type": "Message", "id": "100"}]}"#;
    assert_eq!(count_unread_in_text(text, 150), 1);
    assert_eq!(count_unread_in_text(text, 0), 2);
    assert_eq!(count_unread_in_text("garbage", 0), 0);
}

#[test]
fn count_unread_counts_messages_after_horizon() {
    let val = json(r#"{"messages": [
        {"type": "Message", "id": "300"},
        {"type": "Message", "id": "250"},
        {"type": "ThreadActivity/Topic", "id": "260"},
        {"type": "Message", "id": "200"},
        {"type": "Message", "id": "abc"}
    ]}"#);
    assert_eq!(count_unread_messages(&val, 200), 2);
    assert_eq!(count_unread_messages(&val, 0), 3);
    assert_eq!(count_unread_messages(&json("{}"), 0), 0);
}

// ── name resolution ──────────────────────────────────────────────

#[test]
fn user_labels_are_resolved_by_fetched_profiles() {
    let mut chats = vec![
        ChatEntry { id: "19:me_bob@unq.gbl.spaces".into(), display_name: "💬 User bob".into(), unread_count: 0, read_horizon_id: 0 },
        ChatEntry { id: "19:group@thread.v2".into(), display_name: "💬 Team".into(), unread_count: 0, read_horizon_id: 0 },
    ];
    let mris = mris_to_resolve(&chats, "8:orgid:me");
    assert_eq!(mris, vec!["8:orgid:bob".to_string()]);
    let response = json(r#"{"value": [{"mri": "8:orgid:bob", "displayName": "Bob Builder"}, {"mri": "8:orgid:x", "displayName": ""}]}"#);
    apply_fetched_names(&mut chats, &response);
    assert_eq!(chats[0].display_name, "💬 Bob Builder");
    assert_eq!(chats[1].display_name, "💬 Team");
}

// ── browser folders and session ──────────────────────────────────

#[test]
fn parse_user_created_folder() {
    let val = json(r#"{
        "folders": [{
            "id": "bbbbbbbb-bbbb-bbbb-bbbb-bbbbbbbbbbbb",
            "name": "MyFolder",
            "folderType": "UserCreated",
            "sortType": "UserDefinedCustomOrder",
            "isExpanded": true,
            "isDeleted": false,
            "version": 1775588983643,
            "conversations": [
                {"id": "19:abc@thread.v2", "threadType": "chat"},
                {"id": "19:def@thread.v2", "threadType": "meeting"}
            ]
        }],
        "folderOrder": ["bbbbbbbb-bbbb-bbbb-bbbb-bbbbbbbbbbbb"]
    }"#);

    let (folders, order) = parse_folder_idb_response(&val);

    assert_eq!(folders.len(), 1);
    let f = &folders[0];
    assert_eq!(f.id, "bbbbbbbb-bbbb-bbbb-bbbb-bbbbbbbbbbbb");
    assert_eq!(f.name, "MyFolder");
    assert_eq!(f.folder_type, "UserCreated");
    assert_eq!(f.sort_type, "UserDefinedCustomOrder");
    assert!(f.is_expanded);
    assert!(!f.is_deleted);
    assert_eq!(f.version, 1775588983643);
    assert_eq!(f.conversation_ids, vec!["19:abc@thread.v2", "19:def@thread.v2"]);
    assert_eq!(order, vec!["bbbbbbbb-bbbb-bbbb-bbbb-bbbbbbbbbbbb"]);
}

#[test]
fn parse_system_folder() {
    let val = json(r#"{
        "folders": [{
            "id": "tenant~user~Favorites",
            "name": "Favorites",
            "folderType": "Favorites",
            "sortType": "UserDefinedCustomOrder",
            "isExpanded": false,
            "isDeleted": false,
            "version": 123,
            "conversations": []
        }],
        "folderOrder": []
    }"#);

    let (folders, order) = parse_folder_idb_response(&val);

    assert_eq!(folders.len(), 1);
    assert_eq!(folders[0].folder_type, "Favorites");
    assert_eq!(folders[0].conversation_ids.len(), 0);
    assert!(order.is_empty());
}

#[test]
fn parse_multiple_folders_with_order() {
    let val = json(r#"{
        "folders": [
            {"id": "aaa", "name": "MyFolder", "folderType": "UserCreated", "sortType": "UserDefinedCustomOrder",
             "isExpanded": true, "isDeleted": false, "version": 1,
             "conversations": [{"id": "19:chat1@thread.v2", "threadType": "chat"}]},
            {"id": "bbb", "name": "Archived", "folderType": "UserCreated", "sortType": "UserDefinedCustomOrder",
             "isExpanded": false, "isDeleted": false, "version": 2, "conversations": []},
            {"id": "ccc", "name": "MeetingChats", "folderType": "MeetingChats", "sortType": "MostRecent",
             "isExpanded": true, "isDeleted": false, "version": 3, "conversations": []}
        ],
        "folderOrder": ["ccc", "aaa", "bbb"]
    }"#);

    let (folders, order) = parse_folder_idb_response(&val);

    assert_eq!(folders.len(), 3);
    assert_eq!(folders[0].name, "MyFolder");
    assert_eq!(folders[1].name, "Archived");
    assert_eq!(folders[2].name, "MeetingChats");
    assert_eq!(order, vec!["ccc", "aaa", "bbb"]);
}

#[test]
fn browser_parse_empty_response() {
    let val = json(r#"{"folders": [], "folderOrder": []}"#);
    let (folders, order) = parse_folder_idb_response(&val);
    assert!(folders.is_empty());
    assert!(order.is_empty());
}

#[test]
fn parse_error_response_returns_empty() {
    let val = json(r#"{"error": "no folder db"}"#);
    let (folders, order) = parse_folder_idb_response(&val);
    assert!(folders.is_empty());
    assert!(order.is_empty());
    let (folders, order) = folders_from_idb_result(&val);
    assert!(folders.is_empty());
    assert!(order.is_empty());
}

#[test]
fn parse_folder_missing_conversations_key() {
    let val = json(r#"{
        "folders": [{
            "id": "abc", "name": "NoConvs", "folderType": "UserCreated", "sortType": "MostRecent",
            "isExpanded": false, "isDeleted": true, "version": 99
        }],
        "folderOrder": ["abc"]
    }"#);

    let (folders, _) = parse_folder_idb_response(&val);

    assert_eq!(folders.len(), 1);
    assert_eq!(folders[0].name, "NoConvs");
    assert!(folders[0].is_deleted);
    assert!(folders[0].conversation_ids.is_empty());
}

#[test]
fn parse_folder_skips_empty_id() {
    let val = json(r#"{
        "folders": [
            {"id": "", "name": "Empty", "folderType": "UserCreated", "sortType": "MostRecent",
             "isExpanded": false, "isDeleted": false, "version": 0},
            {"id": "valid", "name": "Valid", "folderType": "UserCreated", "sortType": "MostRecent",
             "isExpanded": false, "isDeleted": false, "version": 1}
        ],
        "folderOrder": []
    }"#);

    let (folders, _) = parse_folder_idb_response(&val);

    assert_eq!(folders.len(), 1);
    assert_eq!(folders[0].id, "valid");
}

#[test]
fn session_info_defaults_and_failure() {
    let ok = json(r#"{"found": true, "spaces_token": "S", "ic3_token": "I", "user_id": "u", "spaces_expires": 1700000000}"#);
    let info = parse_session_info(&ok).expect("session found");
    assert_eq!(info.skype_spaces_token, "S");
    assert_eq!(info.ic3_token, "I");
    assert_eq!(info.region, "de");
    assert_eq!(info.mt_region, "emea");
    assert_eq!(info.expires_ts, 1700000000);
    let missing = json(r#"{"found": false, "reason": "no token yet"}"#);
    assert_eq!(parse_session_info(&missing).err(), Some("no token yet".to_string()));
    let bare = json("{}");
    assert_eq!(parse_session_info(&bare).err(), Some("unknown".to_string()));
}

#[test]
fn session_text_parse_failure_and_success() {
    let serde_message = serde_json::from_str::<serde_json::Value>("not json").unwrap_err().to_string();
    assert_eq!(parse_session_text("not json").err(), Some(format!("Parse failed: {serde_message}")));
    let serde_message = serde_json::from_str::<serde_json::Value>("{\"found\": tru").unwrap_err().to_string();
    assert_eq!(parse_session_text("{\"found\": tru").err(), Some(format!("Parse failed: {serde_message}")));
    let info = parse_session_text(r#"{"found": true, "spaces_token": "S", "ic3_token": "I", "region": "us"}"#)
        .expect("session found");
    assert_eq!(info.skype_spaces_token, "S");
    assert_eq!(info.region, "us");
    assert_eq!(parse_session_text(r#"{"found": false}"#).err(), Some("unknown".to_string()));
}

#[test]
fn folder_query_text_is_parsed_or_ignored() {
    let (folders, order) = folders_from_idb_text("{not json");
    assert!(folders.is_empty());
    assert!(order.is_empty());
    let (folders, order) = folders_from_idb_text(r#"{"error": "no folder db"}"#);
    assert!(folders.is_empty());
    assert!(order.is_empty());
    let (folders, order) = folders_from_idb_text(
        r#"{"folders": [{"id": "f1", "name": "Work", "folderType": "UserCreated", "conversations": [{"id": "19:a"}]}], "folderOrder": ["f1"]}"#,
    );
    assert_eq!(folders.len(), 1);
    assert_eq!(folders[0].name, "Work");
    assert_eq!(folders[0].conversation_ids, vec!["19:a".to_string()]);
    assert_eq!(order, vec!["f1".to_string()]);
}

#[test]
fn custom_names_are_read_from_a_string_object() {
    let names = parse_custom_names(r#"{"19:a@thread.v2": "Team A", "19:b@thread.v2": ""}"#);
    assert_eq!(names.len(), 2);
    assert_eq!(names.get("19:a@thread.v2").unwrap(), "Team A");
    assert_eq!(names.get("19:b@thread.v2").unwrap(), "");
    let names = parse_custom_names(r#"{"k": "first", "k": "second"}"#);
    assert_eq!(names.len(), 1);
    assert_eq!(names.get("k").unwrap(), "second");
}

#[test]
fn custom_names_are_empty_on_any_error() {
    assert!(parse_custom_names("").is_empty());
    assert!(parse_custom_names("not json").is_empty());
    assert!(parse_custom_names(r#"["a", "b"]"#).is_empty());
    assert!(parse_custom_names(r#"{"a": "x", "b": 3}"#).is_empty());
    assert!(parse_custom_names(r#"{"a": null}"#).is_empty());
    assert!(parse_custom_names("{}").is_empty());
}

#[test]
fn custom_names_are_written_as_pretty_json_and_read_back() {
    let mut names = NameMap::new();
    names.insert("19:b".to_string(), "Beta".to_string());
    names.insert("19:a".to_string(), "Alpha".to_string());
    let text = custom_names_json(&names).expect("serde_json writes the names");
    assert_eq!(text, "{\n  \"19:a\": \"Alpha\",\n  \"19:b\": \"Beta\"\n}");
    let back = parse_custom_names(&text);
    assert_eq!(back.len(), 2);
    assert_eq!(back.get("19:a").unwrap(), "Alpha");
    assert_eq!(back.get("19:b").unwrap(), "Beta");
    assert_eq!(custom_names_json(&NameMap::new()).unwrap(), "{}");
}
