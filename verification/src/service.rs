//! The middleware that makes an authentication session available to each
//! request: what it holds and how its configuration is settled.

use vstd::prelude::*;
use std::rc::Rc;

verus! {

/// The session key under which the authentication data is stored when none
/// is configured.
pub const DEFAULT_DATA_KEY: &'static str = "actix-login.data";

/// The session key to store authentication data under: the configured one,
/// or [`DEFAULT_DATA_KEY`].
pub fn data_key_or_default(configured: Option<&'static str>) -> (r: &'static str)
    ensures
        r@ == match configured {
            Some(k) => k@,
            None => DEFAULT_DATA_KEY@,
        },
{
    match configured {
        Some(k) => k,
        None => DEFAULT_DATA_KEY,
    }
}

/// What the middleware does with a request once it has tried to derive the
/// auth session from the request's session.
#[derive(Debug, Clone, Copy, PartialEq, Eq, Structural)]
pub enum ManagerStep {
    /// Attach the auth session and forward the request to the wrapped
    /// service.
    Forward,
    /// Fail the request with `500 Internal Server Error`.
    InternalError,
}

/// The step for a request: forward it when the auth session was derived,
/// fail it with an internal server error when it could not be.
pub fn manager_step(derived: bool) -> (r: ManagerStep)
    ensures
        r == (if derived {
            ManagerStep::Forward
        } else {
            ManagerStep::InternalError
        }),
{
    if derived {
        ManagerStep::Forward
    } else {
        ManagerStep::InternalError
    }
}

/// A middleware that provides the authentication session to the service it
/// wraps: the wrapped service, the backend, and the session key of the
/// authentication data.
pub struct AuthManager<S, Backend> {
    inner: Rc<S>,
    backend: Backend,
    data_key: &'static str,
}

impl<S, Backend> AuthManager<S, Backend> {
    /// The wrapped service.
    pub closed spec fn spec_inner(&self) -> S {
        *self.inner
    }

    /// The backend.
    pub closed spec fn spec_backend(&self) -> Backend {
        self.backend
    }

    /// The session key of the authentication data.
    pub closed spec fn spec_data_key(&self) -> Seq<char> {
        self.data_key@
    }

    /// Creates a manager wrapping `inner`, with `backend`, storing the
    /// authentication data under `data_key`.
    pub fn new(inner: S, backend: Backend, data_key: &'static str) -> (r: Self)
        ensures
            r.spec_inner() == inner,
            r.spec_backend() == backend,
            r.spec_data_key() == data_key@,
    {
        AuthManager { inner: Rc::new(inner), backend, data_key }
    }

    /// The wrapped service, shared.
    pub fn inner(&self) -> (r: &Rc<S>)
        ensures
            **r == self.spec_inner(),
    {
        &self.inner
    }

    /// The backend.
    pub fn backend(&self) -> (r: &Backend)
        ensures
            *r == self.spec_backend(),
    {
        &self.backend
    }

    /// The session key of the authentication data.
    pub fn data_key(&self) -> (r: &'static str)
        ensures
            r@ == self.spec_data_key(),
    {
        self.data_key
    }
}

} // verus!
