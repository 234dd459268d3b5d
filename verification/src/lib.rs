//! Verified core of a login/session library for Actix Web: redirect URL
//! construction, authentication session state, an in-memory session store,
//! access decisions and the responses sent to denied requests.

pub mod access;
pub mod form;
pub mod redirect;
pub mod response;
pub mod service;
pub mod session;
pub mod store;
