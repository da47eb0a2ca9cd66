use teams_rs::api::csa::{CsaChat, CsaFolder, CsaFolderItem, CsaLastMessage, CsaMember};
use teams_rs::gui::names::{resolve_display_name, NameMap};
use teams_rs::gui::screen::{
    chat_display_props, fill_missing_folder_chats, merge_chatsvc_into_existing, parse_csa_chats,
    ChatEntry,
};
use teams_rs::gui::sections::build_sidebar_sections;
use teams_rs::gui::style::{Rgb, TeamsDark, ThemeColor};

fn make_chat(unread_count: u32) -> ChatEntry {
    ChatEntry {
        id: "19:test@unq.gbl.spaces".into(),
        display_name: "💬 Test User".into(),
        unread_count,
        read_horizon_id: 100,
    }
}

// ── ChatDisplayProps contract ──────────────────────────────────

// ── unread display tests ──

#[test]
fn unread_chat_is_bold() {
    let props = chat_display_props(&make_chat(3));
    assert!(props.bold, "unread chat name must be bold");
}

#[test]
fn read_chat_is_not_bold() {
    let props = chat_display_props(&make_chat(0));
    assert!(!props.bold, "read chat name must not be bold");
}

#[test]
fn unread_chat_has_white_text() {
    let props = chat_display_props(&make_chat(3));
    assert_eq!(props.text_color, ThemeColor::TextPrimary);
    assert_eq!(TeamsDark::rgb(props.text_color), Rgb { r: 100, g: 100, b: 100 });
}

#[test]
fn read_chat_has_white_text() {
    let props = chat_display_props(&make_chat(0));
    assert_eq!(props.text_color, ThemeColor::TextPrimary);
    assert_eq!(TeamsDark::rgb(props.text_color), Rgb { r: 100, g: 100, b: 100 });
}

#[test]
fn unread_chat_shows_indicator() {
    let props = chat_display_props(&make_chat(5));
    assert!(props.show_indicator, "unread chat must show indicator bar");
}

#[test]
fn read_chat_hides_indicator() {
    let props = chat_display_props(&make_chat(0));
    assert!(!props.show_indicator, "read chat must not show indicator bar");
}

#[test]
fn unread_chat_shows_badge_with_count() {
    let props = chat_display_props(&make_chat(7));
    assert_eq!(props.badge_text, Some("7".to_string()));
}

#[test]
fn unread_chat_10_plus_shows_9_plus() {
    let props = chat_display_props(&make_chat(10));
    assert_eq!(props.badge_text, Some("9+".to_string()));

    let props = chat_display_props(&make_chat(42));
    assert_eq!(props.badge_text, Some("9+".to_string()));
}

#[test]
fn read_chat_has_no_badge() {
    let props = chat_display_props(&make_chat(0));
    assert_eq!(props.badge_text, None);
}

#[test]
fn unread_1_shows_badge_1() {
    let props = chat_display_props(&make_chat(1));
    assert_eq!(props.badge_text, Some("1".to_string()));
    assert!(props.show_indicator);
}

// ── build_sidebar_sections ────────────────────────────────────

fn make_folder(id: &str, name: &str, conv_ids: Vec<&str>) -> CsaFolder {
    CsaFolder {
        id: id.to_string(),
        name: name.to_string(),
        folder_type: "UserCreated".to_string(),
        sort_type: "UserDefinedCustomOrder".to_string(),
        is_expanded: true,
        is_deleted: false,
        version: 1,
        conversation_folder_items: conv_ids
            .into_iter()
            .map(|cid| CsaFolderItem {
                conversation_id: cid.to_string(),
                thread_type: "chat".to_string(),
                item_type: String::new(),
                created_time: 0,
                last_updated_time: 0,
            })
            .collect(),
    }
}

fn make_chat_entry(id: &str, name: &str) -> ChatEntry {
    ChatEntry {
        id: id.to_string(),
        display_name: name.to_string(),
        unread_count: 0,
        read_horizon_id: 0,
    }
}

#[test]
fn sidebar_sections_groups_chats_by_folder() {
    let chats = vec![
        make_chat_entry("19:aaa@thread.v2", "Chat A"),
        make_chat_entry("19:bbb@thread.v2", "Chat B"),
        make_chat_entry("19:ccc@thread.v2", "Chat C"),
        make_chat_entry("19:ddd@thread.v2", "Chat D"),
    ];
    let folders = vec![
        make_folder("folder-1", "Engineering", vec!["19:aaa@thread.v2", "19:ccc@thread.v2"]),
        make_folder("folder-2", "Design", vec!["19:bbb@thread.v2", "19:ddd@thread.v2"]),
    ];
    let order = vec!["folder-1".to_string(), "folder-2".to_string()];

    let sections = build_sidebar_sections(&chats, &folders, &order);

    // Should have 2 folder sections (no "Sonstige" because all chats matched)
    assert_eq!(sections.len(), 2);
    assert_eq!(sections[0].name, "Engineering");
    assert_eq!(sections[0].chat_indices, vec![0, 2]);
    assert_eq!(sections[1].name, "Design");
    assert_eq!(sections[1].chat_indices, vec![1, 3]);
}

#[test]
fn sidebar_sections_puts_unmatched_in_other() {
    let chats = vec![
        make_chat_entry("19:aaa@thread.v2", "Chat A"),
        make_chat_entry("19:zzz@thread.v2", "Orphan Chat"),
    ];
    let folders = vec![
        make_folder("folder-1", "Work", vec!["19:aaa@thread.v2"]),
    ];
    let order = vec!["folder-1".to_string()];

    let sections = build_sidebar_sections(&chats, &folders, &order);

    assert_eq!(sections.len(), 2);
    assert_eq!(sections[0].name, "Work");
    assert_eq!(sections[0].chat_indices, vec![0]);
    assert_eq!(sections[1].folder_id, "___other___");
    assert_eq!(sections[1].name, "Sonstige");
    assert_eq!(sections[1].chat_indices, vec![1]);
}

#[test]
fn sidebar_sections_respects_folder_order() {
    let chats = vec![
        make_chat_entry("19:aaa@thread.v2", "Chat A"),
    ];
    let folders = vec![
        make_folder("folder-b", "Beta", vec![]),
        make_folder("folder-a", "Alpha", vec!["19:aaa@thread.v2"]),
    ];
    // Order puts Beta before Alpha
    let order = vec!["folder-b".to_string(), "folder-a".to_string()];

    let sections = build_sidebar_sections(&chats, &folders, &order);

    // folder-b first (even though empty), then folder-a, then Sonstige only if needed
    assert!(sections.len() >= 2);
    assert_eq!(sections[0].name, "Beta");
    assert_eq!(sections[1].name, "Alpha");
    assert_eq!(sections[1].chat_indices, vec![0]);
}

#[test]
fn sidebar_sections_skips_deleted_folders() {
    let chats = vec![
        make_chat_entry("19:aaa@thread.v2", "Chat A"),
    ];
    let mut deleted_folder = make_folder("folder-del", "Deleted", vec!["19:aaa@thread.v2"]);
    deleted_folder.is_deleted = true;
    let folders = vec![deleted_folder];
    let order = vec!["folder-del".to_string()];

    let sections = build_sidebar_sections(&chats, &folders, &order);

    // Deleted folder skipped, chat goes to "Sonstige"
    assert_eq!(sections.len(), 1);
    assert_eq!(sections[0].folder_id, "___other___");
    assert_eq!(sections[0].chat_indices, vec![0]);
}

#[test]
fn sidebar_sections_empty_folder_still_shown() {
    let chats = vec![
        make_chat_entry("19:aaa@thread.v2", "Chat A"),
    ];
    let folders = vec![
        make_folder("folder-empty", "Empty Folder", vec![]),
        make_folder("folder-full", "Has Chat", vec!["19:aaa@thread.v2"]),
    ];
    let order = vec!["folder-empty".to_string(), "folder-full".to_string()];

    let sections = build_sidebar_sections(&chats, &folders, &order);

    assert_eq!(sections.len(), 2);
    assert_eq!(sections[0].name, "Empty Folder");
    assert!(sections[0].chat_indices.is_empty());
    assert_eq!(sections[1].name, "Has Chat");
    assert_eq!(sections[1].chat_indices, vec![0]);
}

#[test]
fn sidebar_sections_no_folders_returns_single_section() {
    let chats = vec![
        make_chat_entry("19:aaa@thread.v2", "Chat A"),
        make_chat_entry("19:bbb@thread.v2", "Chat B"),
    ];
    let folders: Vec<CsaFolder> = vec![];
    let order: Vec<String> = vec![];

    let sections = build_sidebar_sections(&chats, &folders, &order);

    assert_eq!(sections.len(), 1);
    assert_eq!(sections[0].folder_id, "___other___");
    assert_eq!(sections[0].chat_indices, vec![0, 1]);
}

// ── build_sidebar_sections: edge cases & robustness ───────────

#[test]
fn sidebar_sections_chat_in_multiple_folders_appears_in_all() {
    // Same chat referenced by two folders — should appear in both
    let chats = vec![
        make_chat_entry("19:aaa@thread.v2", "Chat A"),
    ];
    let folders = vec![
        make_folder("folder-1", "First", vec!["19:aaa@thread.v2"]),
        make_folder("folder-2", "Second", vec!["19:aaa@thread.v2"]),
    ];
    let order = vec!["folder-1".to_string(), "folder-2".to_string()];

    let sections = build_sidebar_sections(&chats, &folders, &order);

    // Chat appears in both folders
    assert_eq!(sections[0].name, "First");
    assert_eq!(sections[0].chat_indices, vec![0]);
    assert_eq!(sections[1].name, "Second");
    assert_eq!(sections[1].chat_indices, vec![0]);
    // No "Sonstige" because all chats are assigned to at least one folder
    assert_eq!(sections.len(), 2);
}

#[test]
fn sidebar_sections_order_references_nonexistent_folder() {
    // folder_order contains an ID that doesn't exist in folders
    let chats = vec![
        make_chat_entry("19:aaa@thread.v2", "Chat A"),
    ];
    let folders = vec![
        make_folder("folder-real", "Real", vec!["19:aaa@thread.v2"]),
    ];
    let order = vec![
        "folder-ghost".to_string(),
        "folder-real".to_string(),
    ];

    let sections = build_sidebar_sections(&chats, &folders, &order);

    // Ghost folder skipped, only "Real" section present
    assert_eq!(sections.len(), 1);
    assert_eq!(sections[0].name, "Real");
    assert_eq!(sections[0].chat_indices, vec![0]);
}

#[test]
fn sidebar_sections_folder_not_in_order_is_ignored() {
    // Folder exists but is not in folder_order — should not appear
    let chats = vec![
        make_chat_entry("19:aaa@thread.v2", "Chat A"),
    ];
    let folders = vec![
        make_folder("folder-orphan", "Orphan Folder", vec!["19:aaa@thread.v2"]),
    ];
    let order: Vec<String> = vec![]; // empty order

    let sections = build_sidebar_sections(&chats, &folders, &order);

    // No folder sections, everything in "Sonstige"
    assert_eq!(sections.len(), 1);
    assert_eq!(sections[0].folder_id, "___other___");
    assert_eq!(sections[0].chat_indices, vec![0]);
}

#[test]
fn sidebar_sections_empty_chats_and_empty_folders() {
    let chats: Vec<ChatEntry> = vec![];
    let folders: Vec<CsaFolder> = vec![];
    let order: Vec<String> = vec![];

    let sections = build_sidebar_sections(&chats, &folders, &order);

    // Single "Sonstige" section with no chats
    assert_eq!(sections.len(), 1);
    assert_eq!(sections[0].folder_id, "___other___");
    assert!(sections[0].chat_indices.is_empty());
}

#[test]
fn sidebar_sections_favorites_is_system() {
    let chats = vec![
        make_chat_entry("19:aaa@thread.v2", "Chat A"),
    ];
    let mut fav = make_folder("fav-id", "Favorites", vec!["19:aaa@thread.v2"]);
    fav.folder_type = "Favorites".to_string();
    let folders = vec![fav];
    let order = vec!["fav-id".to_string()];

    let sections = build_sidebar_sections(&chats, &folders, &order);

    assert_eq!(sections[0].name, "Favorites");
    assert!(sections[0].is_system, "Favorites folder must be marked as system");
}

#[test]
fn sidebar_sections_quickviews_is_system() {
    let chats: Vec<ChatEntry> = vec![];
    let mut qv = make_folder("qv-id", "QuickViews", vec![]);
    qv.folder_type = "QuickViews".to_string();
    let folders = vec![qv];
    let order = vec!["qv-id".to_string()];

    let sections = build_sidebar_sections(&chats, &folders, &order);

    assert!(sections[0].is_system, "QuickViews folder must be marked as system");
}

#[test]
fn sidebar_sections_user_created_is_not_system() {
    let chats: Vec<ChatEntry> = vec![];
    let folders = vec![
        make_folder("uc-id", "My Folder", vec![]),
    ];
    let order = vec!["uc-id".to_string()];

    let sections = build_sidebar_sections(&chats, &folders, &order);

    assert!(!sections[0].is_system, "UserCreated folder must not be marked as system");
}

#[test]
fn sidebar_sections_preserves_chat_index_mapping() {
    // Verify indices correctly map back to the original chats array
    let chats = vec![
        make_chat_entry("19:aaa@thread.v2", "Alpha"),   // idx 0
        make_chat_entry("19:bbb@thread.v2", "Bravo"),   // idx 1
        make_chat_entry("19:ccc@thread.v2", "Charlie"), // idx 2
        make_chat_entry("19:ddd@thread.v2", "Delta"),   // idx 3
        make_chat_entry("19:eee@thread.v2", "Echo"),    // idx 4
    ];
    let folders = vec![
        make_folder("f1", "Group1", vec!["19:bbb@thread.v2", "19:ddd@thread.v2"]),
        make_folder("f2", "Group2", vec!["19:aaa@thread.v2"]),
    ];
    let order = vec!["f1".to_string(), "f2".to_string()];

    let sections = build_sidebar_sections(&chats, &folders, &order);

    // Group1 has Bravo(1) and Delta(3)
    assert_eq!(sections[0].chat_indices, vec![1, 3]);
    // Group2 has Alpha(0)
    assert_eq!(sections[1].chat_indices, vec![0]);
    // Sonstige has Charlie(2) and Echo(4)
    assert_eq!(sections[2].folder_id, "___other___");
    assert_eq!(sections[2].chat_indices, vec![2, 4]);

    // Verify round-trip: indices actually point to correct chats
    assert_eq!(chats[sections[0].chat_indices[0]].display_name, "Bravo");
    assert_eq!(chats[sections[0].chat_indices[1]].display_name, "Delta");
    assert_eq!(chats[sections[1].chat_indices[0]].display_name, "Alpha");
    assert_eq!(chats[sections[2].chat_indices[0]].display_name, "Charlie");
    assert_eq!(chats[sections[2].chat_indices[1]].display_name, "Echo");
}

#[test]
fn sidebar_sections_many_deleted_folders_all_skipped() {
    let chats = vec![
        make_chat_entry("19:aaa@thread.v2", "Chat A"),
        make_chat_entry("19:bbb@thread.v2", "Chat B"),
    ];
    let mut d1 = make_folder("d1", "Deleted1", vec!["19:aaa@thread.v2"]);
    d1.is_deleted = true;
    let mut d2 = make_folder("d2", "Deleted2", vec!["19:bbb@thread.v2"]);
    d2.is_deleted = true;
    let mut d3 = make_folder("d3", "Deleted3", vec![]);
    d3.is_deleted = true;
    let folders = vec![d1, d2, d3];
    let order = vec!["d1".to_string(), "d2".to_string(), "d3".to_string()];

    let sections = build_sidebar_sections(&chats, &folders, &order);

    // All deleted — only "Sonstige" with both chats
    assert_eq!(sections.len(), 1);
    assert_eq!(sections[0].folder_id, "___other___");
    assert_eq!(sections[0].chat_indices, vec![0, 1]);
}

#[test]
fn sidebar_sections_no_sonstige_when_all_chats_assigned() {
    // If every chat is in a folder, no "Sonstige" section should appear
    let chats = vec![
        make_chat_entry("19:aaa@thread.v2", "Chat A"),
        make_chat_entry("19:bbb@thread.v2", "Chat B"),
    ];
    let folders = vec![
        make_folder("f1", "All Chats", vec!["19:aaa@thread.v2", "19:bbb@thread.v2"]),
    ];
    let order = vec!["f1".to_string()];

    let sections = build_sidebar_sections(&chats, &folders, &order);

    assert_eq!(sections.len(), 1, "no Sonstige section when all chats are assigned");
    assert_eq!(sections[0].name, "All Chats");
    assert_eq!(sections[0].chat_indices, vec![0, 1]);
}

// ── parse_csa_chats ───────────────────────────────────────────

fn make_csa_chat(id: &str, title: Option<&str>, thread_type: &str) -> CsaChat {
    CsaChat {
        id: id.to_string(),
        title: title.map(|s| s.to_string()),
        thread_type: thread_type.to_string(),
        is_read: true,
        is_one_on_one: false,
        hidden: false,
        is_disabled: false,
        is_conversation_deleted: false,
        members: vec![],
        last_message: None,
        consumption_horizon: None,
    }
}

#[test]
fn csa_chat_with_title_uses_title() {
    let chats = vec![make_csa_chat("19:aaa@thread.v2", Some("Project Alpha"), "chat")];
    let result = parse_csa_chats(&chats, "8:orgid:me");

    assert_eq!(result.len(), 1);
    assert!(result[0].display_name.contains("Project Alpha"));
}

#[test]
fn csa_chat_type_prefix_chat() {
    let chats = vec![make_csa_chat("19:aaa@thread.v2", Some("Test"), "chat")];
    let result = parse_csa_chats(&chats, "8:orgid:me");
    assert!(result[0].display_name.starts_with("💬"), "chat should have 💬 prefix");
}

#[test]
fn csa_chat_type_prefix_meeting() {
    let chats = vec![make_csa_chat("19:aaa@thread.v2", Some("Standup"), "meeting")];
    let result = parse_csa_chats(&chats, "8:orgid:me");
    assert!(result[0].display_name.starts_with("📅"), "meeting should have 📅 prefix");
}

#[test]
fn csa_hidden_chat_is_skipped() {
    let mut chat = make_csa_chat("19:aaa@thread.v2", Some("Hidden"), "chat");
    chat.hidden = true;
    let result = parse_csa_chats(&[chat], "8:orgid:me");
    assert!(result.is_empty(), "hidden chats must be skipped");
}

#[test]
fn csa_deleted_chat_is_skipped() {
    let mut chat = make_csa_chat("19:aaa@thread.v2", Some("Deleted"), "chat");
    chat.is_conversation_deleted = true;
    let result = parse_csa_chats(&[chat], "8:orgid:me");
    assert!(result.is_empty(), "deleted chats must be skipped");
}

#[test]
fn csa_unread_chat_has_unread_count() {
    let mut chat = make_csa_chat("19:aaa@thread.v2", Some("Unread"), "chat");
    chat.is_read = false;
    let result = parse_csa_chats(&[chat], "8:orgid:me");
    assert!(result[0].unread_count > 0, "unread chat must have unread_count > 0");
}

#[test]
fn csa_read_chat_has_zero_unread() {
    let chat = make_csa_chat("19:aaa@thread.v2", Some("Read"), "chat");
    let result = parse_csa_chats(&[chat], "8:orgid:me");
    assert_eq!(result[0].unread_count, 0, "read chat must have unread_count = 0");
}

#[test]
fn csa_one_on_one_without_title_uses_member_name() {
    let mut chat = make_csa_chat("19:abc_def@unq.gbl.spaces", None, "chat");
    chat.is_one_on_one = true;
    chat.members = vec![
        CsaMember { mri: "8:orgid:me-id".into(), object_id: "me-id".into(), role: "Admin".into(), is_muted: false },
        CsaMember { mri: "8:orgid:other-id".into(), object_id: "other-id".into(), role: "User".into(), is_muted: false },
    ];
    chat.last_message = Some(CsaLastMessage {
        id: "123".into(),
        im_display_name: "Feenstra, Vinzenz".into(),
        content: "Hi".into(),
        compose_time: "2026-04-07T19:00:00Z".into(),
        message_type: "Text".into(),
        from: "8:orgid:other-id".into(),
    });
    let result = parse_csa_chats(&[chat], "8:orgid:me-id");

    assert_eq!(result.len(), 1);
    // Should use last_message.imDisplayName or member info, not show empty
    assert!(!result[0].display_name.is_empty());
    assert!(!result[0].display_name.contains("User "), "should have resolved name, not 'User ...'");
}

#[test]
fn csa_empty_input_returns_empty() {
    let result = parse_csa_chats(&[], "8:orgid:me");
    assert!(result.is_empty());
}

#[test]
fn csa_disabled_chat_is_skipped() {
    let mut chat = make_csa_chat("19:aaa@thread.v2", Some("Disabled"), "chat");
    chat.is_disabled = true;
    let result = parse_csa_chats(&[chat], "8:orgid:me");
    assert!(result.is_empty(), "disabled chats must be skipped");
}

// ── fill_missing_folder_chats ─────────────────────────────────

#[test]
fn fill_missing_adds_placeholder_for_unknown_chat() {
    let mut chats = vec![
        make_chat_entry("19:aaa@thread.v2", "Chat A"),
    ];
    let folders = vec![
        make_folder("f1", "Group", vec!["19:aaa@thread.v2", "19:bbb@thread.v2"]),
    ];

    fill_missing_folder_chats(&mut chats, &folders);

    assert_eq!(chats.len(), 2);
    assert_eq!(chats[1].id, "19:bbb@thread.v2");
}

#[test]
fn fill_missing_does_not_duplicate_existing() {
    let mut chats = vec![
        make_chat_entry("19:aaa@thread.v2", "Chat A"),
    ];
    let folders = vec![
        make_folder("f1", "Group", vec!["19:aaa@thread.v2"]),
    ];

    fill_missing_folder_chats(&mut chats, &folders);

    assert_eq!(chats.len(), 1, "must not duplicate existing chat");
}

#[test]
fn fill_missing_skips_deleted_folders() {
    let mut chats: Vec<ChatEntry> = vec![];
    let mut folder = make_folder("f1", "Deleted", vec!["19:aaa@thread.v2"]);
    folder.is_deleted = true;

    fill_missing_folder_chats(&mut chats, &[folder]);

    assert!(chats.is_empty(), "deleted folder conversations must not be added");
}

#[test]
fn fill_missing_placeholder_has_thread_type_prefix() {
    let mut chats: Vec<ChatEntry> = vec![];
    let mut folder = make_folder("f1", "Mixed", vec!["19:aaa@thread.v2"]);
    folder.conversation_folder_items[0].thread_type = "meeting".to_string();

    fill_missing_folder_chats(&mut chats, &[folder]);

    assert!(chats[0].display_name.starts_with("📅"), "meeting placeholder must have 📅 prefix");
}

#[test]
fn fill_missing_multiple_folders() {
    let mut chats = vec![
        make_chat_entry("19:aaa@thread.v2", "Chat A"),
    ];
    let folders = vec![
        make_folder("f1", "Group1", vec!["19:bbb@thread.v2"]),
        make_folder("f2", "Group2", vec!["19:ccc@thread.v2"]),
    ];

    fill_missing_folder_chats(&mut chats, &folders);

    assert_eq!(chats.len(), 3);
    let ids: Vec<&str> = chats.iter().map(|c| c.id.as_str()).collect();
    assert!(ids.contains(&"19:bbb@thread.v2"));
    assert!(ids.contains(&"19:ccc@thread.v2"));
}

// ── merge_chatsvc_into_existing ─────────────────────────────────

#[test]
fn merge_updates_placeholder_with_real_name() {
    let mut existing = vec![
        make_chat_entry("19:aaa@thread.v2", "💬 aaa...v2"),
    ];
    let incoming = vec![
        ChatEntry {
            id: "19:aaa@thread.v2".into(),
            display_name: "💬 Alice".into(),
            unread_count: 0,
            read_horizon_id: 500,
        },
    ];

    merge_chatsvc_into_existing(&mut existing, incoming);

    assert_eq!(existing.len(), 1);
    assert_eq!(existing[0].display_name, "💬 Alice");
    assert_eq!(existing[0].read_horizon_id, 500);
}

#[test]
fn merge_adds_new_chats() {
    let mut existing = vec![
        make_chat_entry("19:aaa@thread.v2", "💬 Alice"),
    ];
    let incoming = vec![
        ChatEntry {
            id: "19:bbb@thread.v2".into(),
            display_name: "💬 Bob".into(),
            unread_count: 1,
            read_horizon_id: 200,
        },
    ];

    merge_chatsvc_into_existing(&mut existing, incoming);

    assert_eq!(existing.len(), 2);
    assert_eq!(existing[1].id, "19:bbb@thread.v2");
    assert_eq!(existing[1].display_name, "💬 Bob");
}

#[test]
fn merge_preserves_unmodified_chats() {
    let mut existing = vec![
        make_chat_entry("19:aaa@thread.v2", "💬 Alice"),
        make_chat_entry("19:bbb@thread.v2", "💬 Bob"),
    ];
    let incoming = vec![
        ChatEntry {
            id: "19:aaa@thread.v2".into(),
            display_name: "💬 Alice Updated".into(),
            unread_count: 0,
            read_horizon_id: 600,
        },
    ];

    merge_chatsvc_into_existing(&mut existing, incoming);

    assert_eq!(existing.len(), 2);
    assert_eq!(existing[0].display_name, "💬 Alice Updated");
    assert_eq!(existing[1].display_name, "💬 Bob"); // unchanged
}

#[test]
fn merge_updates_unread_count() {
    let mut existing = vec![
        ChatEntry {
            id: "19:aaa@thread.v2".into(),
            display_name: "💬 Alice".into(),
            unread_count: 0,
            read_horizon_id: 100,
        },
    ];
    let incoming = vec![
        ChatEntry {
            id: "19:aaa@thread.v2".into(),
            display_name: "💬 Alice".into(),
            unread_count: 3,
            read_horizon_id: 100,
        },
    ];

    merge_chatsvc_into_existing(&mut existing, incoming);

    assert_eq!(existing[0].unread_count, 3);
}

#[test]
fn merge_does_not_overwrite_real_name_with_placeholder() {
    let mut existing = vec![
        ChatEntry {
            id: "19:aaa@thread.v2".into(),
            display_name: "💬 Alice".into(),
            unread_count: 1,
            read_horizon_id: 100,
        },
    ];
    // Incoming has an empty/truncated name — should NOT overwrite a good name
    let incoming = vec![
        ChatEntry {
            id: "19:aaa@thread.v2".into(),
            display_name: "19:aaa@thread.v2".into(),
            unread_count: 0,
            read_horizon_id: 200,
        },
    ];

    merge_chatsvc_into_existing(&mut existing, incoming);

    // Name should stay as "Alice" since incoming is just the raw ID
    assert_eq!(existing[0].display_name, "💬 Alice");
    // But read_horizon should be updated
    assert_eq!(existing[0].read_horizon_id, 200);
}

#[test]
fn merge_empty_incoming_is_noop() {
    let mut existing = vec![
        make_chat_entry("19:aaa@thread.v2", "💬 Alice"),
    ];
    let incoming = vec![];

    merge_chatsvc_into_existing(&mut existing, incoming);

    assert_eq!(existing.len(), 1);
    assert_eq!(existing[0].display_name, "💬 Alice");
}

#[test]
fn merge_into_empty_existing() {
    let mut existing: Vec<ChatEntry> = vec![];
    let incoming = vec![
        ChatEntry {
            id: "19:aaa@thread.v2".into(),
            display_name: "💬 Alice".into(),
            unread_count: 0,
            read_horizon_id: 100,
        },
    ];

    merge_chatsvc_into_existing(&mut existing, incoming);

    assert_eq!(existing.len(), 1);
    assert_eq!(existing[0].display_name, "💬 Alice");
}

// ── resolve_display_name ────────────────────────────────────────

#[test]
fn resolve_custom_name_has_priority() {
    let mut custom = NameMap::new();
    custom.insert("19:abc@thread.v2".to_string(), "Mein Projekt".to_string());

    let result = resolve_display_name("19:abc@thread.v2", "💬 Original", &custom);
    assert_eq!(result, "Mein Projekt");
}

#[test]
fn resolve_no_custom_returns_original() {
    let custom = NameMap::new();

    let result = resolve_display_name("19:abc@thread.v2", "💬 Original", &custom);
    assert_eq!(result, "💬 Original");
}

#[test]
fn resolve_empty_custom_returns_original() {
    let mut custom = NameMap::new();
    custom.insert("19:abc@thread.v2".to_string(), "".to_string());

    let result = resolve_display_name("19:abc@thread.v2", "💬 Original", &custom);
    assert_eq!(result, "💬 Original");
}

#[test]
fn resolve_different_id_returns_original() {
    let mut custom = NameMap::new();
    custom.insert("19:other@thread.v2".to_string(), "Custom".to_string());

    let result = resolve_display_name("19:abc@thread.v2", "💬 Original", &custom);
    assert_eq!(result, "💬 Original");
}

