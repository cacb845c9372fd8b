//! Reader for a legacy game's resource archive: an index ("map") file paired
//! with a data blob, exposing raw resource extraction for patch generation and
//! a cross-referenced in-memory model ("book") of the narrative content.

pub mod book;
pub mod builder;
pub mod datafile;
pub mod error;
pub mod handles;
pub mod mapfile;
pub mod patch;
pub mod progress;
pub mod restype;
pub mod store;

pub use book::{
    Book, ConditionId, ConversationId, ConversationKey, LineId, NounId, RoleId, RoomId, TalkerId,
    VerbId,
};
pub use builder::BookBuilder;
pub use datafile::{Contents, DataFile, RawContents, RecordHeader};
pub use error::{BuildError, FormatError, PatchError, StoreError};
pub use handles::{Condition, Conversation, Line, Noun, Role, Room, Talker, Verb};
pub use mapfile::{Location, ResourceLocations};
pub use restype::{ResourceId, ResourceType};
pub use store::ResourceStore;
