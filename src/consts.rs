use vstd::prelude::*;

verus! {

/// Largest WebSocket frame, in bytes, for uploads and fan-out.
pub const MAX_FRAME_SIZE: usize = 65536;

/// Largest signal message, in bytes of UTF-8.
pub const MAX_SIGNAL_SIZE: usize = 1048576;

/// HTTP keep-alive, in seconds.
pub const KEEP_ALIVE_INTERVAL: u64 = 3600;

/// Time between two heartbeat checks of a connection, in seconds.
pub const HEARTBEAT_INTERVAL: u64 = 120;

/// Silence after which a connection is dropped, in seconds.
pub const HEARTBEAT_TIMEOUT: u64 = 300;

/// Grace period of an empty private session, in seconds.
pub const SESSION_EXPIRATION_TIME: u64 = 60;

/// Time between two sweeps of the room tree for empty sessions, in seconds.
pub const CLEANUP_INTERVAL: u64 = 3600;

/// Length of a private session code.
pub const SESSION_CODE_LENGTH: usize = 10;

/// The alphabet of private session codes: letters and digits without the
/// look-alikes `I`, `O`, `l`, `0` and `1`.
pub const SAFE_CHARSET: &'static str = "ABCDEFGHJKLMNPQRSTUVWXYZabcdefghijkmnopqrstuvwxyz23456789";

pub const CORS_MAX_AGE: usize = 3600;

pub const CONTENT_TYPE_TEXT_PLAIN: &'static str = "text/plain; charset=utf-8";

/// A user agent shorter than this is logged as suspicious.
pub const MIN_USER_AGENT_LENGTH: usize = 5;

pub const WS_PREFIX_SYSTEM_ERROR: &'static str = "[SystemError]";

pub const WS_PREFIX_SYSTEM_ROOMS: &'static str = "[SystemRooms]";

pub const WS_PREFIX_SYSTEM_NAME: &'static str = "[SystemName]";

pub const WS_PREFIX_SYSTEM_JOIN: &'static str = "[SystemJoin]";

pub const WS_PREFIX_SYSTEM_MEMBERS: &'static str = "[SystemMembers]";

pub const WS_PREFIX_SIGNAL_MESSAGE: &'static str = "[SignalMessage]";

pub const WS_PREFIX_USER_COMMAND: &'static str = "[UserCommand]";

pub const WS_PREFIX_USER_DISCONNECTED: &'static str = "[UserDisconnected]";

} // verus!
