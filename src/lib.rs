//! Session table and session-scoped key lookup for a token provider whose keys
//! live in a remote key service.
pub mod attr;
pub mod cache;
pub mod error;
pub mod manager;
pub mod session;

pub use attr::{choose_filter, find_key_id, RawAttr, ATTR_ID, ATTR_LABEL};
pub use cache::{CachedObject, KeyObject, KeyRecord, ObjectCache};
pub use error::SessionError;
pub use manager::SessionManager;
pub use session::{
    DecryptCtx, EncryptCtx, EnumCtx, PendingSearch, RemoteReply, SearchAction, Session,
    SessionInfo, SignCtx, SlotConfig,
};
