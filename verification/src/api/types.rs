//! Microsoft Graph response and request types.

use crate::json::JsonValue;
use vstd::prelude::*;

verus! {

/// OData collection wrapper for paginated responses.
pub struct ODataCollection<T> {
    pub value: Vec<T>,
    /// `@odata.nextLink`
    pub next_link: Option<String>,
    /// `@odata.count`
    pub count: Option<i64>,
}

/// GET /me/chats response item.
pub struct GraphChat {
    pub id: String,
    pub topic: Option<String>,
    pub chat_type: String,
    pub created_date_time: Option<String>,
    pub last_updated_date_time: Option<String>,
    pub web_url: Option<String>,
    pub members: Option<Vec<GraphChatMember>>,
    pub last_message_preview: Option<GraphMessagePreview>,
}

pub struct GraphChatMember {
    pub display_name: Option<String>,
    pub user_id: Option<String>,
    pub email: Option<String>,
}

pub struct GraphMessagePreview {
    pub id: String,
    pub created_date_time: Option<String>,
    pub body: GraphMessageBody,
    pub from: Option<GraphMessageFrom>,
}

/// GET /chats/{id}/messages response item.
pub struct GraphChatMessage {
    pub id: String,
    pub message_type: Option<String>,
    pub created_date_time: Option<String>,
    pub last_modified_date_time: Option<String>,
    pub body: GraphMessageBody,
    pub from: Option<GraphMessageFrom>,
    pub importance: Option<String>,
    pub attachments: Vec<JsonValue>,
}

pub struct GraphMessageBody {
    pub content_type: Option<String>,
    pub content: String,
}

pub struct GraphMessageFrom {
    pub user: Option<GraphUserIdentity>,
    pub application: Option<GraphAppIdentity>,
}

pub struct GraphUserIdentity {
    pub id: String,
    pub display_name: Option<String>,
}

pub struct GraphAppIdentity {
    pub id: String,
    pub display_name: Option<String>,
}

/// POST /chats/{id}/messages request body.
pub struct SendMessageBody {
    pub body: SendMessageContent,
}

pub struct SendMessageContent {
    pub content_type: String,
    pub content: String,
}

/// GET /me response.
pub struct GraphMe {
    pub id: String,
    pub display_name: String,
    pub mail: Option<String>,
    pub user_principal_name: String,
}

} // verus!
