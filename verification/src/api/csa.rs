//! CSA (Chat Service Aggregator) response types.
//!
//! Endpoint: GET /api/csa/{mt_region}/api/v3/teams/users/me, which returns
//! chat folders, chats and a sync token for delta synchronization.

use vstd::prelude::*;

verus! {

/// Top-level response from /api/csa/.../api/v3/teams/users/me.
pub struct CsaUpdatesResponse {
    pub conversation_folders: Option<CsaConversationFolders>,
    pub metadata: Option<CsaMetadata>,
    pub chats: Vec<CsaChat>,
}

/// The conversationFolders section of the updates response.
pub struct CsaConversationFolders {
    pub folder_hierarchy_version: Option<u64>,
    pub conversation_folders: Vec<CsaFolder>,
    pub conversation_folder_order: Vec<String>,
    pub migrated_pinned_to_favorites: bool,
    pub is_partial_response: bool,
}

/// A single folder from the CSA response.
pub struct CsaFolder {
    pub id: String,
    pub name: String,
    pub folder_type: String,
    pub sort_type: String,
    pub is_expanded: bool,
    pub is_deleted: bool,
    pub version: u64,
    pub conversation_folder_items: Vec<CsaFolderItem>,
}

/// A conversation reference inside a folder.
pub struct CsaFolderItem {
    pub conversation_id: String,
    pub thread_type: String,
    pub item_type: String,
    pub created_time: u64,
    pub last_updated_time: u64,
}

/// Sync metadata.
pub struct CsaMetadata {
    pub sync_token: Option<String>,
    pub is_partial_data: bool,
    pub has_more_chats: bool,
}

/// A chat from the CSA updates response `chats[]` array.
pub struct CsaChat {
    pub id: String,
    pub title: Option<String>,
    pub thread_type: String,
    pub is_read: bool,
    pub is_one_on_one: bool,
    pub hidden: bool,
    pub is_disabled: bool,
    pub is_conversation_deleted: bool,
    pub members: Vec<CsaMember>,
    pub last_message: Option<CsaLastMessage>,
    pub consumption_horizon: Option<CsaConsumptionHorizon>,
}

/// A member of a CSA chat.
pub struct CsaMember {
    pub mri: String,
    pub object_id: String,
    pub role: String,
    pub is_muted: bool,
}

/// Last message of a CSA chat, with the sender's display name inline.
/// Fields that the service sends as `null` hold the empty string.
pub struct CsaLastMessage {
    pub id: String,
    pub im_display_name: String,
    pub content: String,
    pub compose_time: String,
    pub message_type: String,
    pub from: String,
}

/// Consumption horizon (read marker) of a CSA chat.
pub struct CsaConsumptionHorizon {
    pub original_arrival_time: u64,
    pub time_stamp: u64,
    pub client_message_id: String,
}

impl CsaFolder {
    /// Whether the folder references the conversation `id`.
    pub open spec fn has_conversation(self, id: Seq<char>) -> bool {
        exists|j: int|
            0 <= j < self.conversation_folder_items@.len()
                && #[trigger] self.conversation_folder_items@[j].conversation_id@ == id
    }

    /// The conversation IDs in this folder, in folder order.
    pub fn conversation_ids(&self) -> (ids: Vec<&str>)
        ensures
            ids@.len() == self.conversation_folder_items@.len(),
            forall|j: int|
                0 <= j < ids@.len() ==> #[trigger] ids@[j]@
                    == self.conversation_folder_items@[j].conversation_id@,
    {
        let mut ids: Vec<&str> = Vec::new();
        let mut i: usize = 0;
        while i < self.conversation_folder_items.len()
            invariant
                i <= self.conversation_folder_items.len(),
                ids@.len() == i,
                forall|j: int|
                    0 <= j < i ==> #[trigger] ids@[j]@
                        == self.conversation_folder_items@[j].conversation_id@,
            decreases self.conversation_folder_items.len() - i,
        {
            ids.push(self.conversation_folder_items[i].conversation_id.as_str());
            i = i + 1;
        }
        ids
    }

    /// Whether the folder references the conversation `id`.
    pub fn contains_conversation(&self, id: &String) -> (b: bool)
        ensures
            b == self.has_conversation(id@),
    {
        let mut i: usize = 0;
        while i < self.conversation_folder_items.len()
            invariant
                i <= self.conversation_folder_items.len(),
                forall|j: int|
                    0 <= j < i ==> #[trigger] self.conversation_folder_items@[j].conversation_id@
                        != id@,
            decreases self.conversation_folder_items.len() - i,
        {
            if self.conversation_folder_items[i].conversation_id == *id {
                return true;
            }
            i = i + 1;
        }
        false
    }
}

} // verus!
