//! The credential store: usernames mapped to the password they were
//! registered with, with insert-if-absent as the only way in.
use vstd::prelude::*;

verus! {

/// One registered user.
pub struct CredentialRecord {
    pub username: String,
    pub password: String,
}

/// What a registration did to the store.
#[derive(Clone, Copy, Debug, PartialEq, Eq, Structural)]
pub enum RegisterOutcome {
    /// The username was new and is now registered.
    Created,
    /// The username was already taken; the store is unchanged.
    Conflict,
}

/// What `register` returns on a store whose contents are `users`.
pub open spec fn register_outcome(users: Map<Seq<char>, Seq<char>>, username: Seq<char>) -> RegisterOutcome {
    if users.contains_key(username) {
        RegisterOutcome::Conflict
    } else {
        RegisterOutcome::Created
    }
}

/// The contents of a store with `users` after registering `username`.
pub open spec fn after_register(
    users: Map<Seq<char>, Seq<char>>,
    username: Seq<char>,
    password: Seq<char>,
) -> Map<Seq<char>, Seq<char>> {
    if users.contains_key(username) {
        users
    } else {
        users.insert(username, password)
    }
}

/// Whether `password` is exactly the password registered for `username`.
pub open spec fn credentials_match(
    users: Map<Seq<char>, Seq<char>>,
    username: Seq<char>,
    password: Seq<char>,
) -> bool {
    users.contains_key(username) && users[username] == password
}

/// All registered users, one record per username.
///
/// The records sit in a `Vec` with the map they stand for kept beside it as
/// ghost state: vstd specifies a `HashMap` only for keys whose hashing and
/// equality it models, which `String` keys are not, so lookups through one
/// could not be tied to the contents. A lookup here is a linear scan.
pub struct CredentialStore {
    records: Vec<CredentialRecord>,
    users: Ghost<Map<Seq<char>, Seq<char>>>,
}

impl View for CredentialStore {
    type V = Map<Seq<char>, Seq<char>>;

    closed spec fn view(&self) -> Map<Seq<char>, Seq<char>> {
        self.users@
    }
}

impl CredentialStore {
    /// The records agree with the model: usernames are distinct, each record
    /// is an entry of the map, and each key of the map has a record.
    pub closed spec fn wf(&self) -> bool {
        &&& self.users@.dom().finite()
        &&& self.users@.len() == self.records@.len()
        &&& forall|i: int, j: int|
            0 <= i < j < self.records@.len() ==> self.records@[i].username@
                != self.records@[j].username@
        &&& forall|i: int|
            0 <= i < self.records@.len() ==> #[trigger] self.users@.contains_key(
                self.records@[i].username@,
            ) && self.users@[self.records@[i].username@] == self.records@[i].password@
        &&& forall|k: Seq<char>|
            #[trigger] self.users@.contains_key(k) ==> exists|i: int|
                0 <= i < self.records@.len() && self.records@[i].username@ == k
    }

    /// An empty store.
    pub fn new() -> (s: CredentialStore)
        ensures
            s.wf(),
            s@ == Map::<Seq<char>, Seq<char>>::empty(),
    {
        CredentialStore { records: Vec::new(), users: Ghost(Map::empty()) }
    }

    /// The number of registered users.
    pub fn len(&self) -> (n: usize)
        requires
            self.wf(),
        ensures
            n as nat == self@.len(),
    {
        self.records.len()
    }

    /// Position of the record for `username`, if there is one.
    fn position(&self, username: &String) -> (r: Option<usize>)
        requires
            self.wf(),
        ensures
            match r {
                Some(i) => i < self.records@.len() && self.records@[i as int].username@ == username@,
                None => !self@.contains_key(username@),
            },
    {
        let mut i: usize = 0;
        while i < self.records.len()
            invariant
                self.wf(),
                i <= self.records@.len(),
                forall|j: int| 0 <= j < i ==> self.records@[j].username@ != username@,
            decreases self.records@.len() - i,
        {
            if self.records[i].username == *username {
                return Some(i);
            }
            i = i + 1;
        }
        None
    }

    /// Registers `username` with `password` unless the username is taken.
    /// Check and insert happen under one exclusive borrow, so no other
    /// operation can come between them.
    pub fn register(&mut self, username: String, password: String) -> (r: RegisterOutcome)
        requires
            old(self).wf(),
        ensures
            final(self).wf(),
            r == register_outcome(old(self)@, username@),
            final(self)@ == after_register(old(self)@, username@, password@),
    {
        match self.position(&username) {
            Some(i) => {
                proof {
                    assert(self.users@.contains_key(self.records@[i as int].username@));
                }
                RegisterOutcome::Conflict
            },
            None => {
                let ghost old_records = self.records@;
                let ghost k = username@;
                let ghost v = password@;
                self.records.push(CredentialRecord { username, password });
                self.users = Ghost(self.users@.insert(k, v));
                proof {
                    assert forall|i: int| 0 <= i < old_records.len() implies old_records[i].username@ != k by {
                        assert(self.users@.contains_key(old_records[i].username@));
                    }
                    assert forall|key: Seq<char>| #[trigger] self.users@.contains_key(key) implies exists|i: int|
                        0 <= i < self.records@.len() && self.records@[i].username@ == key by {
                        if key == k {
                            assert(self.records@[old_records.len() as int].username@ == key);
                        } else {
                            assert(old(self).users@.contains_key(key));
                            let i = choose|i: int| 0 <= i < old_records.len() && old_records[i].username@ == key;
                            assert(self.records@[i].username@ == key);
                        }
                    }
                }
                RegisterOutcome::Created
            },
        }
    }

    /// The record registered for `username`, if any.
    pub fn lookup(&self, username: &String) -> (r: Option<CredentialRecord>)
        requires
            self.wf(),
        ensures
            match r {
                Some(rec) => self@.contains_key(username@) && rec.username@ == username@
                    && rec.password@ == self@[username@],
                None => !self@.contains_key(username@),
            },
    {
        match self.position(username) {
            Some(i) => {
                proof {
                    assert(self.users@.contains_key(self.records@[i as int].username@));
                }
                let rec = &self.records[i];
                Some(CredentialRecord { username: rec.username.clone(), password: rec.password.clone() })
            },
            None => None,
        }
    }

    /// Whether `password` is exactly the one registered for `username`; an
    /// unknown username and a wrong password both give `false`.
    pub fn check_credentials(&self, username: &String, password: &String) -> (r: bool)
        requires
            self.wf(),
        ensures
            r == credentials_match(self@, username@, password@),
    {
        match self.position(username) {
            Some(i) => {
                proof {
                    assert(self.users@.contains_key(self.records@[i as int].username@));
                }
                self.records[i].password == *password
            },
            None => false,
        }
    }
}

} // verus!
