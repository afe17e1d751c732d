use vstd::prelude::*;

verus! {

/// The one field of a session that the access layer reads and writes: the id
/// of the signed-in user, absent while the caller is anonymous.
pub struct Session {
    user_id: Option<i32>,
}

impl View for Session {
    type V = Option<i32>;

    closed spec fn view(&self) -> Option<i32> {
        self.user_id
    }
}

impl Session {
    /// A session with no one signed in.
    pub fn anonymous() -> (r: Session)
        ensures
            r@ is None,
    {
        Session { user_id: None }
    }

    /// The session whose `user_id` field holds `user_id` (absent: `None`).
    pub fn from_user_id(user_id: Option<i32>) -> (r: Session)
        ensures
            r@ == user_id,
    {
        Session { user_id }
    }

    /// The signed-in user's id; `None` for an anonymous caller.
    pub fn current_user_id(&self) -> (r: Option<i32>)
        ensures
            r == self@,
    {
        self.user_id
    }

    /// Signs `user_id` in. Only an anonymous session can be signed in: a
    /// caller who is signed in already is sent on, not signed in again.
    pub fn establish(&mut self, user_id: i32)
        requires
            old(self)@ is None,
        ensures
            final(self)@ == Some(user_id),
    {
        self.user_id = Some(user_id);
    }

    /// Forgets whoever was signed in. Purging an anonymous session is no
    /// error.
    pub fn purge(&mut self)
        ensures
            final(self)@ is None,
    {
        self.user_id = None;
    }
}

} // verus!
