use vstd::prelude::*;
use vstd::rwlock::RwLock;
use vstd::string::StringExecFns;

verus! {

/// The record of the signed-in user. The session replaces it wholesale;
/// it is never patched field by field.
pub struct User {
    pub id: u32,
    pub username: String,
    /// Held in plain text: the session only stores and echoes the record,
    /// and performs no authentication. A deployment that checks passwords
    /// must hash them before they reach this record.
    pub password: String,
}

/// Whether a record is the blank one a fresh session starts with.
pub open spec fn blank_user(u: User) -> bool {
    &&& u.id == 0
    &&& u.username@ == Seq::<char>::empty()
    &&& u.password@ == Seq::<char>::empty()
}

impl User {
    /// The blank record a process starts with.
    pub fn blank() -> (u: User)
        ensures
            blank_user(u),
    {
        User { id: 0, username: String::new(), password: String::new() }
    }

    /// A field-for-field copy of the record.
    pub fn duplicate(&self) -> (r: User)
        ensures
            r == *self,
    {
        User { id: self.id, username: self.username.clone(), password: self.password.clone() }
    }
}

/// The single mutually-exclusive slot holding the current user. The host
/// keeps one instance per process behind its own lock; this type states
/// what each access does to the held record.
pub struct SessionStore {
    slot: User,
}

impl SessionStore {
    /// The record the store currently holds.
    pub closed spec fn current(&self) -> User {
        self.slot
    }

    /// A fresh store, holding the blank record.
    pub fn new() -> (s: SessionStore)
        ensures
            blank_user(s.current()),
    {
        SessionStore { slot: User::blank() }
    }

    /// Replaces the held record wholesale and returns the new value, so
    /// the caller observes exactly what was stored. Reading the store
    /// right after yields a record equal to `user`.
    pub fn set_current(&mut self, user: User) -> (r: User)
        ensures
            final(self).current() == user,
            r == user,
    {
        let r = user.duplicate();
        self.slot = user;
        r
    }

    /// Returns a copy of the currently held record.
    pub fn get_current(&self) -> (r: User)
        ensures
            r == self.current(),
    {
        self.slot.duplicate()
    }
}

/// The session slot as the host's command contexts share it: the record
/// sits behind vstd's verified reader-writer lock, so every replacement
/// is atomic — two racing writers leave the slot holding one record
/// whole, never a torn mixture of the two.
pub struct SharedSession {
    lock: RwLock<SessionStore, spec_fn(SessionStore) -> bool>,
}

impl SharedSession {
    /// The lock admits every record: the slot's only invariant is that a
    /// whole record is held.
    pub closed spec fn wf(&self) -> bool {
        forall|s: SessionStore| #[trigger] self.lock.inv(s)
    }

    /// A fresh shared session, holding the blank record.
    pub fn new() -> (s: SharedSession)
        ensures
            s.wf(),
    {
        let lock = RwLock::new(SessionStore::new(), Ghost(|s: SessionStore| true));
        SharedSession { lock }
    }

    /// Atomically replaces the held record wholesale and echoes the new
    /// value. What the slot holds afterwards is whichever replacement
    /// came last; no caller observes a partial record.
    pub fn set_current(&self, user: User) -> (r: User)
        requires
            self.wf(),
        ensures
            r == user,
    {
        let (stored, handle) = self.lock.acquire_write();
        let mut stored = stored;
        let r = stored.set_current(user);
        handle.release_write(stored);
        r
    }

    /// Returns a copy of the record the slot holds at this instant.
    pub fn get_current(&self) -> (r: User) {
        let handle = self.lock.acquire_read();
        let r = handle.borrow().get_current();
        handle.release_read();
        r
    }
}

/// Echo of the stubbed account-creation command: no account is made, the
/// reply only names the would-be user.
pub fn create_user(username: &str) -> (r: Result<String, String>)
    ensures
        r matches Ok(m) && m@ == "User "@ + username@ + " would be created"@,
{
    let m = String::from_str("User ").concat(username).concat(" would be created");
    Ok(m)
}

} // verus!
