//! Core of a realtime collaboration hub: sessions partitioned into rooms,
//! signal relay between named peers, and reassembly of chunked uploads.
//!
//! The library decides; its caller moves bytes. Operations of the room
//! coordinator return the frames to deliver, connection events return the
//! actions to carry out, and the session registry returns the expiry timers
//! to arm.

pub mod chat_server;
pub mod config;
pub mod consts;
pub mod error;
pub mod message;
pub mod outside;
pub mod protocol;
pub mod reassembler;
pub mod routes;
pub mod session;
pub mod session_manager;
pub mod session_store;
pub mod text;
pub mod text_map;

pub use chat_server::{ClientMetadata, Delivery, Room, WsChatServer};
pub use config::ServerConfig;
pub use consts::{
    CLEANUP_INTERVAL, CONTENT_TYPE_TEXT_PLAIN, CORS_MAX_AGE, HEARTBEAT_INTERVAL, HEARTBEAT_TIMEOUT,
    KEEP_ALIVE_INTERVAL, MAX_FRAME_SIZE, MAX_SIGNAL_SIZE, MIN_USER_AGENT_LENGTH, SAFE_CHARSET,
    SESSION_CODE_LENGTH, SESSION_EXPIRATION_TIME, WS_PREFIX_SIGNAL_MESSAGE, WS_PREFIX_SYSTEM_ERROR,
    WS_PREFIX_SYSTEM_JOIN, WS_PREFIX_SYSTEM_MEMBERS, WS_PREFIX_SYSTEM_NAME, WS_PREFIX_SYSTEM_ROOMS,
    WS_PREFIX_USER_COMMAND, WS_PREFIX_USER_DISCONNECTED,
};
pub use error::ServerError;
pub use message::{
    ChatMessage, CleanupSession, JoinRoom, LeaveRoom, ListRooms, RelaySignalMessage,
    ValidateAndRelaySignal,
};
pub use protocol::FileChunkMetadata;
pub use reassembler::FileReassembler;
pub use session::{Action, Phase, WsChatSession};
pub use session_manager::SessionManager;
pub use session_store::{ReleaseOutcome, ResolveError, SessionData, SessionStore};
