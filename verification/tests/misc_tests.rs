use teams_rs::api::client::{
    messages_path, send_message_body, send_path, user_ids_body, ChatsPager, GraphClient, PageStep,
    CHATS_FIRST_PAGE_PATH, FOLDERS_PATH,
};
use teams_rs::api::csa::{CsaFolder, CsaFolderItem};
use teams_rs::auth::browser::{login_poll_step, LoginPoll};
use teams_rs::gui::presentation::format_date_separator;
use teams_rs::gui::screen::{
    extract_date, extract_other_user_from_conv_id, fill_missing_folder_chats, format_time, short_id,
    ChatEntry,
};
use teams_rs::gui::style::{Rgb, TeamsDark, ThemeColor};
use teams_rs::gui::widget::{format_timestamp, initials};
use teams_rs::json::JsonValue;
use teams_rs::models::chat::strip_html;

fn str_field<'a>(v: &'a JsonValue, key: &str) -> Option<&'a str> {
    match v.get(key) {
        Some(JsonValue::Str(s)) => Some(s.as_str()),
        _ => None,
    }
}

#[test]
fn initials_take_two_words_in_upper_case() {
    assert_eq!(initials("jane doe"), "JD");
    assert_eq!(initials("max mustermann"), "MM");
    assert_eq!(initials("  ada   lovelace king "), "AL");
    assert_eq!(initials("solo"), "S");
    assert_eq!(initials(""), "");
    assert_eq!(initials("émile zola"), "ÉZ");
}

#[test]
fn format_timestamp_reads_rfc3339() {
    assert_eq!(format_timestamp("2026-03-23T09:15:00Z"), "09:15");
    assert_eq!(format_timestamp("2026-03-23T09:05:00+02:00"), "09:05");
    assert_eq!(format_timestamp("not a timestamp at all"), "not a timestamp ");
}

#[test]
fn format_date_separator_names_the_weekday() {
    assert_eq!(format_date_separator("2026-03-23"), "Montag, 23.03.2026");
    assert_eq!(format_date_separator("2024-02-29"), "Donnerstag, 29.02.2024");
    assert_eq!(format_date_separator("abcd-03-05"), "Donnerstag, 05.03.2026");
    assert_eq!(format_date_separator("2026-13-01"), "2026-13-01");
    assert_eq!(format_date_separator("2026-03"), "2026-03");
    assert_eq!(format_date_separator("2023-02-29"), "2023-02-29");
    assert_eq!(format_date_separator("1900-02-29"), "1900-02-29");
    assert_eq!(format_date_separator("2000-02-29"), "Dienstag, 29.02.2000");
    assert_eq!(format_date_separator("1970-01-01"), "Donnerstag, 01.01.1970");
    assert_eq!(format_date_separator("-4-02-29"), "-4-02-29");
    assert_eq!(format_date_separator("262142-12-31"), "Montag, 31.12.262142");
    assert_eq!(format_date_separator("262143-01-01"), "262143-01-01");
}

#[test]
fn format_time_and_extract_date() {
    assert_eq!(format_time("2026-03-23T09:15:42.123Z"), "09:15");
    assert_eq!(format_time("09:15"), "09:15");
    assert_eq!(format_time("2026-03-23T9"), "2026-");
    assert_eq!(extract_date("2026-03-23T09:15:42Z"), "2026-03-23");
    assert_eq!(extract_date(""), "");
}

#[test]
fn short_id_cuts_long_ids() {
    assert_eq!(short_id("19:abc_def@unq.gbl.spaces"), "abc_def");
    assert_eq!(short_id("19:0123456789abcdefghijXYZ@thread.v2"), "0123456789abcdefghij…");
    assert_eq!(short_id("plain"), "plain");
}

#[test]
fn other_user_of_one_on_one_chat() {
    assert_eq!(extract_other_user_from_conv_id("19:me-id_other-id@unq.gbl.spaces", "me-id"), "User other-id");
    assert_eq!(extract_other_user_from_conv_id("19:other-id-long-uuid_me-id@unq.gbl.spaces", "me-id"), "User other-id");
    assert_eq!(extract_other_user_from_conv_id("19:group@thread.v2", "me-id"), "group");
}

#[test]
fn strip_html_is_idempotent() {
    let once = strip_html("  <p>Hi <b>there</b></p>  ");
    assert_eq!(once, "Hi there");
    assert_eq!(strip_html(&once), once);
}

#[test]
fn theme_colors_are_in_hundredths() {
    assert_eq!(TeamsDark::rgb(ThemeColor::Accent), Rgb { r: 38, g: 45, b: 95 });
    assert_eq!(TeamsDark::rgb(ThemeColor::Background), Rgb { r: 13, g: 13, b: 13 });
}

#[test]
fn api_urls_trim_leading_slashes() {
    let c = GraphClient::new(
        "s".into(), "i".into(), "g".into(), "c".into(), "de".into(), "emea".into(), "https://x".into(),
    );
    assert_eq!(c.region(), "de");
    assert_eq!(c.mt_region(), "emea");
    assert_eq!(c.mt_url("//beta/users/fetch"), "https://teams.microsoft.com/api/mt/emea/beta/users/fetch");
    assert_eq!(
        c.chatsvc_url(CHATS_FIRST_PAGE_PATH),
        "https://teams.microsoft.com/api/chatsvc/de/v1/users/ME/conversations?view=msnp24Equivalent&pageSize=200"
    );
    assert!(c.csa_url(FOLDERS_PATH).starts_with("https://teams.microsoft.com/api/csa/emea/api/v3/teams/users/me?"));
}

#[test]
fn message_paths_encode_the_conversation_id() {
    assert_eq!(
        messages_path("19:abc@thread.v2"),
        "v1/users/ME/conversations/19%3Aabc%40thread.v2/messages?view=msnp24Equivalent&pageSize=50"
    );
    assert_eq!(send_path("a b~c"), "v1/users/ME/conversations/a%20b~c/messages");
    assert_eq!(send_path("19:ä€"), "v1/users/ME/conversations/19%3A%C3%A4%E2%82%AC/messages");
}

#[test]
fn send_body_carries_content_and_id() {
    let body = send_message_body("Hallo", "Me", 1700000000123);
    assert_eq!(str_field(&body, "content"), Some("Hallo"));
    assert_eq!(str_field(&body, "messagetype"), Some("RichText"));
    assert_eq!(str_field(&body, "contenttype"), Some("text"));
    assert_eq!(str_field(&body, "imdisplayname"), Some("Me"));
    assert_eq!(str_field(&body, "clientmessageid"), Some("1700000000123"));
    let negative = send_message_body("x", "y", -5);
    assert_eq!(str_field(&negative, "clientmessageid"), Some("-5"));
}

#[test]
fn user_ids_body_lists_ids() {
    match user_ids_body(&vec!["8:orgid:a".to_string(), "8:orgid:b".to_string()]) {
        JsonValue::Array(items) => {
            assert_eq!(items.len(), 2);
            assert!(matches!(&items[1], JsonValue::Str(s) if s == "8:orgid:b"));
        }
        _ => panic!("expected an array"),
    }
}

#[test]
fn pager_collects_pages_until_empty() {
    let mut pager = ChatsPager::new();
    let first = r#"{"conversations": [{"id": "a"}, {"id": "b"}], "_metadata": {"backwardLink": "https://p2"}}"#;
    assert_eq!(pager.first_page(first), Some(PageStep::Fetch("https://p2".to_string())));
    let second = r#"{"conversations": [{"id": "c"}], "_metadata": {"backwardLink": ""}}"#;
    assert_eq!(pager.next_page(second), Some(PageStep::Done));
    assert_eq!(pager.conversations.len(), 3);
    let empty = r#"{"conversations": [], "_metadata": {"backwardLink": "https://p4"}}"#;
    assert_eq!(pager.next_page(empty), Some(PageStep::Done));
    assert_eq!(pager.conversations.len(), 3);
    let all = pager.finish();
    match all.get("conversations") {
        Some(JsonValue::Array(items)) => assert_eq!(items.len(), 3),
        _ => panic!("expected the conversations"),
    }
}

#[test]
fn pager_first_page_follows_even_an_empty_link() {
    let mut pager = ChatsPager::new();
    let first = r#"{"conversations": [], "_metadata": {"backwardLink": ""}}"#;
    assert_eq!(pager.first_page(first), Some(PageStep::Fetch(String::new())));
    let mut pager = ChatsPager::new();
    assert_eq!(pager.first_page("{}"), Some(PageStep::Done));
}

#[test]
fn pager_refuses_text_that_is_not_json() {
    let mut pager = ChatsPager::new();
    assert_eq!(pager.first_page("<html>"), None);
    assert!(pager.conversations.is_empty());
    let page = r#"{"conversations": [{"id": "a"}], "_metadata": {"backwardLink": "https://p2"}}"#;
    assert_eq!(pager.first_page(page), Some(PageStep::Fetch("https://p2".to_string())));
    assert_eq!(pager.next_page("oops"), None);
    assert_eq!(pager.conversations.len(), 1);
}

#[test]
fn login_poll_reads_the_url_case_insensitively() {
    assert_eq!(login_poll_step(false, "HTTPS://TEAMS.MICROSOFT.COM/v2/"), LoginPoll::TryExtract);
    assert_eq!(login_poll_step(false, "https://login.microsoftonline.com/"), LoginPoll::NotOnTeams);
    assert_eq!(login_poll_step(true, "https://teams.microsoft.com/"), LoginPoll::TimedOut);
}

#[test]
fn fill_missing_twice_adds_nothing_more() {
    let folders = vec![CsaFolder {
        id: "f".into(),
        name: "F".into(),
        folder_type: "UserCreated".into(),
        sort_type: "MostRecent".into(),
        is_expanded: true,
        is_deleted: false,
        version: 1,
        conversation_folder_items: vec![CsaFolderItem {
            conversation_id: "19:x@thread.v2".into(),
            thread_type: "topic".into(),
            item_type: String::new(),
            created_time: 0,
            last_updated_time: 0,
        }],
    }];
    let mut chats: Vec<ChatEntry> = vec![];
    fill_missing_folder_chats(&mut chats, &folders);
    assert_eq!(chats.len(), 1);
    assert_eq!(chats[0].display_name, "📋 x");
    fill_missing_folder_chats(&mut chats, &folders);
    assert_eq!(chats.len(), 1);
}

#[test]
fn chat_preview_takes_45_characters() {
    let mut chat = teams_rs::models::chat::Chat {
        id: "19:a@thread.v2".into(),
        display_name: "A".into(),
        chat_type: teams_rs::models::chat::ChatType::Group,
        last_message_preview: Some("ä".repeat(50)),
        last_activity: None,
        members: vec![],
    };
    assert_eq!(chat.preview(), "ä".repeat(45));
    chat.last_message_preview = None;
    assert_eq!(chat.preview(), "");
}
