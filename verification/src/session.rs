//! The authentication state of a session: which user it is logged in as,
//! and the data persisted in the session that lets a later request resume
//! that login.

use vstd::prelude::*;

verus! {

/// The data persisted in the session: the logged-in user's id and the
/// session authentication hash that the user had when logging in.
pub struct AuthData<Id> {
    pub user_id: Option<Id>,
    pub auth_hash: Option<Vec<u8>>,
}

/// The view of [`AuthData`]: the user id and the bytes of the hash.
pub type AuthDataView<Id> = (Option<Id>, Option<Seq<u8>>);

impl<Id> AuthData<Id> {
    /// The user id and hash bytes of this data.
    pub open spec fn view_data(&self) -> AuthDataView<Id> {
        (
            self.user_id,
            match self.auth_hash {
                Some(h) => Some(h@),
                None => None,
            },
        )
    }

    /// Data that names no user, as a session without login holds.
    pub fn empty() -> (r: Self)
        ensures
            r.view_data() == empty_data::<Id>(),
    {
        AuthData { user_id: None, auth_hash: None }
    }

    /// The user id whose user must be loaded to resume this session, if any.
    pub fn user_to_load(&self) -> (r: Option<&Id>)
        ensures
            match r {
                Some(id) => self.user_id == Some(*id),
                None => self.user_id is None,
            },
    {
        match &self.user_id {
            Some(id) => Some(id),
            None => None,
        }
    }
}

impl<Id> Default for AuthData<Id> {
    fn default() -> (r: Self)
        ensures
            r.view_data() == empty_data::<Id>(),
    {
        AuthData::empty()
    }
}

/// Data that names no user.
pub open spec fn empty_data<Id>() -> AuthDataView<Id> {
    (None, None)
}

/// The data a login stores for the user with id `id` and hash `hash`.
pub open spec fn logged_in_data<Id>(id: Id, hash: Seq<u8>) -> AuthDataView<Id> {
    (Some(id), Some(hash))
}

/// Whether loaded data vouches for a user whose current hash is `hash`: it
/// must hold a hash, equal to `hash`.
pub open spec fn hash_verified<Id>(data: AuthDataView<Id>, hash: Seq<u8>) -> bool {
    data.1 == Some(hash)
}

/// The outcome of resuming a session from loaded data and the user that the
/// backend returned for its user id (with that user's hash): the user the
/// session is logged in as, the data it keeps, and whether the session must
/// be purged.
pub open spec fn resumed<U, Id>(data: AuthDataView<Id>, found: Option<U>, hash: Seq<u8>) -> (
    Option<U>,
    AuthDataView<Id>,
    bool,
) {
    match found {
        None => (None, data, false),
        Some(u) => if hash_verified(data, hash) {
            (Some(u), data, false)
        } else {
            (None, empty_data(), true)
        },
    }
}

/// Compares two byte strings with `<[u8] as subtle::ConstantTimeEq>::ct_eq`
/// and converts the `subtle::Choice` to `bool`. The contract claims that
/// the result is whether the two byte strings are equal.
#[verifier::external_body]
fn constant_time_eq(a: &[u8], b: &[u8]) -> (r: bool)
    ensures
        r == (a@ == b@),
{
    subtle::ConstantTimeEq::ct_eq(a, b).into()
}

/// The authentication state of one session.
pub struct AuthState<U, Id> {
    /// The user the session is logged in as.
    pub user: Option<U>,
    /// The data persisted in the session.
    pub data: AuthData<Id>,
}

impl<U, Id> AuthState<U, Id> {
    /// Resumes a session from the data loaded from it.
    ///
    /// `found` is the user the backend returned for the data's user id
    /// (`None` when the data names no user or the backend knows no such
    /// user) and `found_hash` that user's current session authentication
    /// hash. The user is kept only when the data holds a hash equal to it,
    /// compared in constant time; otherwise the session is reset to empty
    /// data and must be purged, which is the second result.
    pub fn resume(data: AuthData<Id>, found: Option<U>, found_hash: &[u8]) -> (r: (
        Self,
        bool,
    ))
        ensures
            (r.0.user, r.0.data.view_data(), r.1) == resumed(data.view_data(), found, found_hash@),
    {
        match found {
            None => (AuthState { user: None, data }, false),
            Some(u) => {
                let verified = match &data.auth_hash {
                    Some(h) => constant_time_eq(h.as_slice(), found_hash),
                    None => false,
                };
                if verified {
                    (AuthState { user: Some(u), data }, false)
                } else {
                    (AuthState { user: None, data: AuthData::empty() }, true)
                }
            },
        }
    }

    /// Logs `user` (whose id is `user_id` and hash `auth_hash`) in.
    ///
    /// Returns whether the session id must be renewed first, which is the
    /// case when the data held no hash yet (session-fixation mitigation).
    pub fn login(&mut self, user: U, user_id: Id, auth_hash: &[u8]) -> (renew: bool)
        ensures
            renew == (old(self).data.auth_hash is None),
            final(self).user == Some(user),
            final(self).data.view_data() == logged_in_data(user_id, auth_hash@),
    {
        let renew = self.data.auth_hash.is_none();
        self.user = Some(user);
        self.data.user_id = Some(user_id);
        self.data.auth_hash = Some(vstd::slice::slice_to_vec(auth_hash));
        renew
    }

    /// Logs the user out and returns the user that was logged in. The
    /// session itself is always purged; the persisted data is left as it was.
    pub fn logout(&mut self) -> (r: Option<U>)
        ensures
            r == old(self).user,
            final(self).user is None,
            final(self).data.view_data() == old(self).data.view_data(),
    {
        self.user.take()
    }
}

/// A login is resumed: the data a login stores lets a later request, whose
/// backend returns a user with the same hash, be logged in as that user,
/// with the data kept and no purge.
pub proof fn lemma_login_then_resume<U, Id>(id: Id, hash: Seq<u8>, found: U)
    ensures
        resumed(logged_in_data(id, hash), Some(found), hash) == (
            Some(found),
            logged_in_data(id, hash),
            false,
        ),
{
}

/// A changed hash invalidates the session: when the user's hash is no longer
/// the one stored at login, the session is logged out, emptied and purged.
pub proof fn lemma_changed_hash_rejected<U, Id>(
    id: Id,
    stored: Seq<u8>,
    found: U,
    current: Seq<u8>,
)
    requires
        stored != current,
    ensures
        resumed(logged_in_data(id, stored), Some(found), current) == (
            None::<U>,
            empty_data::<Id>(),
            true,
        ),
{
}

/// Data without a hash never vouches for a user: a session that was not
/// logged in cannot be resumed as any user.
pub proof fn lemma_no_hash_never_resumes<U, Id>(
    data: AuthDataView<Id>,
    found: Option<U>,
    hash: Seq<u8>,
)
    requires
        data.1 is None,
    ensures
        resumed(data, found, hash).0 is None,
{
}

} // verus!
