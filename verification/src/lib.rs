//! The user and session core of a small multi-user file host.
//!
//! * `user`, `session`, `state` and `manager` hold the registry of users and
//!   the table of live sessions: registration, login, and the resolution of
//!   a client's cookie to a user.
//! * `decimal` reads and writes session tokens as the text of a cookie.
//! * `journal` frames the records of the persistent user journal.
//! * `namespace` decides where under the storage root a user's files live
//!   and which names are safe.
//! * `template` and `page` fill in the pages shown to a client.
//! * `error` names the failures and what the transport makes of each.

pub mod bytes;
pub mod decimal;
pub mod error;
pub mod journal;
pub mod manager;
pub mod namespace;
pub mod page;
pub mod session;
pub mod state;
pub mod template;
pub mod user;
