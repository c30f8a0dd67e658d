//! The conversation data model: raw records as decoded from JSON, the typed
//! role, the normalized turn, the conversation with its system preamble and
//! accumulated warnings, and the fatal load errors.

use vstd::prelude::*;

verus! {

/// One record exactly as decoded from a JSON object.
pub struct RawRecord {
    pub role: String,
    pub content: String,
}

/// The views of a sequence of raw records: each record as a pair of character
/// sequences (role, content).
pub open spec fn records_view(rs: Seq<RawRecord>) -> Seq<(Seq<char>, Seq<char>)> {
    rs.map_values(|r: RawRecord| (r.role@, r.content@))
}

/// A chat role. Unrecognized role strings are preserved verbatim in `Other`.
pub enum Role {
    System,
    User,
    Assistant,
    Other(String),
}

/// The mathematical view of a role.
pub enum RoleView {
    System,
    User,
    Assistant,
    Other(Seq<char>),
}

impl View for Role {
    type V = RoleView;

    open spec fn view(&self) -> RoleView {
        match self {
            Role::System => RoleView::System,
            Role::User => RoleView::User,
            Role::Assistant => RoleView::Assistant,
            Role::Other(s) => RoleView::Other(s@),
        }
    }
}

/// One message attributed to a role within the conversation body.
pub struct Turn {
    pub role: Role,
    pub content: String,
}

/// The mathematical view of a turn.
pub struct TurnView {
    pub role: RoleView,
    pub content: Seq<char>,
}

impl View for Turn {
    type V = TurnView;

    open spec fn view(&self) -> TurnView {
        TurnView { role: self.role@, content: self.content@ }
    }
}

/// A normalized conversation: at most one system preamble, the ordered turns,
/// and the warnings accumulated while loading.
pub struct Conversation {
    pub system: Option<String>,
    pub turns: Vec<Turn>,
    pub warnings: Vec<String>,
}

/// The mathematical view of a conversation.
pub struct ConversationView {
    pub system: Option<Seq<char>>,
    pub turns: Seq<TurnView>,
    pub warnings: Seq<Seq<char>>,
}

impl View for Conversation {
    type V = ConversationView;

    open spec fn view(&self) -> ConversationView {
        ConversationView {
            system: match self.system {
                Some(s) => Some(s@),
                None => None,
            },
            turns: self.turns@.map_values(|t: Turn| t@),
            warnings: self.warnings@.map_values(|w: String| w@),
        }
    }
}

/// The fatal load failures: they abort a load and leave prior state untouched.
#[derive(Debug)]
pub enum LoadError {
    /// The byte buffer is not valid UTF-8.
    NonUtf8,
    /// The input was detected as a JSON array and the array failed to decode.
    ArrayParse,
}

impl LoadError {
    /// The human-readable message for this error.
    pub fn message(&self) -> (r: &'static str)
        ensures
            *self matches LoadError::NonUtf8 ==> r@ == "Non-UTF8 file"@,
            *self matches LoadError::ArrayParse ==> r@ == "JSON array parse error"@,
    {
        match self {
            LoadError::NonUtf8 => "Non-UTF8 file",
            LoadError::ArrayParse => "JSON array parse error",
        }
    }
}

} // verus!
