//! Records the application stores and passes around.

use vstd::prelude::*;

use crate::json::Json;

verus! {

/// A stored character. The avatar is handed out as a `data:` URL.
#[derive(Debug, Clone)]
pub struct Character {
    pub id: String,
    pub name: String,
    pub description: String,
    pub personality: String,
    pub scenario: String,
    /// Greetings; the first is the default one (`first_mes` followed by
    /// `alternate_greetings` in a card).
    pub first_messages: Vec<String>,
    /// Example dialogue (`mes_example`, with `{{user}}`/`{{char}}`).
    pub example_messages: String,
    /// Own system prompt; `None` means the one from the settings.
    pub system_prompt: Option<String>,
    pub tags: Vec<String>,
    pub nsfw: bool,
    /// `data:` URL of the avatar, if there is one.
    pub avatar: Option<String>,
    /// Card extension fields, kept as they came.
    pub extensions: Option<Json>,
    pub created_at: String,
    pub updated_at: String,
}

/// What creating or updating a character takes (id and times are made
/// by the store).
#[derive(Debug, Clone)]
pub struct CharacterInput {
    pub name: String,
    pub description: String,
    pub personality: String,
    pub scenario: String,
    pub first_messages: Vec<String>,
    pub example_messages: String,
    pub system_prompt: Option<String>,
    pub tags: Vec<String>,
    pub nsfw: bool,
    /// A `data:` URL or bare base64; `None` means no avatar / unchanged.
    pub avatar: Option<String>,
    pub extensions: Option<Json>,
}

/// A character as listed in the side bar.
#[derive(Debug, Clone)]
pub struct CharacterSummary {
    pub id: String,
    pub name: String,
    pub tags: Vec<String>,
    pub nsfw: bool,
    pub avatar: Option<String>,
    /// `_v2_extra.character_version` of the card extensions.
    pub character_version: Option<String>,
    pub updated_at: String,
}

/// A conversation with one character.
#[derive(Debug, Clone)]
pub struct Conversation {
    pub id: String,
    pub character_id: String,
    pub title: String,
    pub created_at: String,
    pub updated_at: String,
}

/// A conversation as listed, with its message count.
#[derive(Debug, Clone)]
pub struct ConversationSummary {
    pub id: String,
    pub character_id: String,
    pub title: String,
    pub created_at: String,
    pub updated_at: String,
    pub message_count: i64,
}

/// One stored chat message.
#[derive(Debug, Clone)]
pub struct Message {
    pub id: String,
    pub conversation_id: String,
    /// user | assistant | system
    pub role: String,
    pub content: String,
    pub seq: i64,
    pub created_at: String,
}

/// One world-book entry (SillyTavern `character_book.entries`).
#[derive(Debug, Clone)]
pub struct LoreEntry {
    pub id: String,
    pub keys: Vec<String>,
    pub secondary_keys: Vec<String>,
    pub comment: String,
    pub content: String,
    /// Always injected.
    pub constant: bool,
    /// Needs a primary and a secondary key hit.
    pub selective: bool,
    /// Injection order (smaller first).
    pub insertion_order: i64,
    pub enabled: bool,
    /// before_char | after_char
    pub position: String,
    pub created_at: String,
    pub updated_at: String,
}

/// A world book: at most one per character, with its entries.
#[derive(Debug, Clone)]
pub struct Lorebook {
    pub id: String,
    pub character_id: String,
    pub name: String,
    pub description: String,
    /// How many recent messages are scanned for keys.
    pub scan_depth: i64,
    /// Token budget of one injection.
    pub token_budget: i64,
    pub recursive_scanning: bool,
    pub enabled: bool,
    pub entries: Vec<LoreEntry>,
    pub created_at: String,
    pub updated_at: String,
}

/// What saving a world book takes (the whole book is replaced).
#[derive(Debug, Clone)]
pub struct LorebookInput {
    pub name: String,
    pub description: String,
    pub scan_depth: i64,
    pub token_budget: i64,
    pub recursive_scanning: bool,
    pub enabled: bool,
    pub entries: Vec<LoreEntryInput>,
}

/// One entry of a world book being saved.
#[derive(Debug, Clone)]
pub struct LoreEntryInput {
    pub keys: Vec<String>,
    pub secondary_keys: Vec<String>,
    pub comment: String,
    pub content: String,
    pub constant: bool,
    pub selective: bool,
    pub insertion_order: i64,
    pub enabled: bool,
    pub position: String,
}

/// Default number of recent messages scanned for world-book keys.
pub fn default_scan_depth() -> (r: i64)
    ensures
        r == 4,
{
    4
}

/// Default per-turn world-book token budget.
pub fn default_token_budget() -> (r: i64)
    ensures
        r == 500,
{
    500
}

} // verus!
