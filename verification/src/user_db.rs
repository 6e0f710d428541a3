//! The credential store: accounts under unique usernames, each holding the
//! bcrypt hash of its password and never the password itself.

use vstd::prelude::*;

use crate::StoreError;
use crate::hashing;
use crate::hashing::{check_of, hash_shape_ok};

verus! {

/// Whether some account in `rows` carries the username `name`.
pub open spec fn contains_user(rows: Seq<(Seq<char>, Seq<char>)>, name: Seq<char>) -> bool {
    exists|i: int| 0 <= i < rows.len() && rows[i].0 == name
}

/// The index of the account named `name`; meaningful when `contains_user`
/// holds and the usernames are unique.
pub open spec fn user_index(rows: Seq<(Seq<char>, Seq<char>)>, name: Seq<char>) -> int {
    choose|i: int| 0 <= i < rows.len() && rows[i].0 == name
}

/// The password hash stored for the account named `name`.
pub open spec fn hash_for(rows: Seq<(Seq<char>, Seq<char>)>, name: Seq<char>) -> Seq<char> {
    rows[user_index(rows, name)].1
}

/// No two accounts share a username.
pub open spec fn usernames_unique(rows: Seq<(Seq<char>, Seq<char>)>) -> bool {
    forall|i: int, j: int|
        0 <= i < rows.len() && 0 <= j < rows.len() && #[trigger] rows[i].0 == #[trigger] rows[j].0
            ==> i == j
}

/// What a successful registration of `name` with `password` did to the store:
/// the name was free, and one account was appended whose hash bcrypt produced
/// for `password`, so it is well formed and verifies against `password`.
pub open spec fn register_success_post(
    pre: Seq<(Seq<char>, Seq<char>)>,
    post: Seq<(Seq<char>, Seq<char>)>,
    name: Seq<char>,
    password: Seq<char>,
) -> bool {
    &&& !contains_user(pre, name)
    &&& exists|h: Seq<char>|
        {
            &&& #[trigger] hash_shape_ok(h)
            &&& check_of(password, h)
            &&& post == pre.push((name, h))
        }
}

/// Accounts keyed by unique usernames. The view is the sequence of
/// (username, password hash) pairs, each string seen as its characters.
pub struct CredentialStore {
    accounts: Vec<(String, String)>,
}

impl View for CredentialStore {
    type V = Seq<(Seq<char>, Seq<char>)>;

    closed spec fn view(&self) -> Seq<(Seq<char>, Seq<char>)> {
        self.accounts@.map_values(|row: (String, String)| (row.0@, row.1@))
    }
}

impl CredentialStore {
    #[verifier::type_invariant]
    spec fn inv(self) -> bool {
        usernames_unique(self@)
    }

    /// An empty store; the persistent schema behind it starts empty too.
    pub fn new() -> (s: Self)
        ensures
            s@ == Seq::<(Seq<char>, Seq<char>)>::empty(),
    {
        let s = CredentialStore { accounts: Vec::new() };
        proof {
            assert(s@ =~= Seq::<(Seq<char>, Seq<char>)>::empty());
        }
        s
    }

    /// Where the account named `username` sits, if anywhere.
    fn index_of(&self, username: &str) -> (r: Option<usize>)
        ensures
            r is Some ==> r->Some_0 < self@.len() && self@[r->Some_0 as int].0 == username@,
            r is None ==> !contains_user(self@, username@),
    {
        let needle: String = username.to_owned();
        let mut i: usize = 0;
        while i < self.accounts.len()
            invariant
                i <= self.accounts.len(),
                needle@ == username@,
                forall|j: int| 0 <= j < i ==> #[trigger] self@[j].0 != username@,
            decreases self.accounts.len() - i,
        {
            if self.accounts[i].0 == needle {
                return Some(i);
            }
            i = i + 1;
        }
        None
    }

    /// Returns the stored username when an account with that name exists,
    /// and `None` otherwise; absence is not an error.
    pub fn find_user_by_username(&self, username: &str) -> (r: Result<Option<String>, StoreError>)
        ensures
            r is Ok,
            r->Ok_0 is Some <==> contains_user(self@, username@),
            r->Ok_0 is Some ==> (r->Ok_0->Some_0)@ == username@,
    {
        match self.index_of(username) {
            Some(i) => Ok(Some(self.accounts[i].0.clone())),
            None => Ok(None),
        }
    }

    /// Files an account under `username` with an already-computed password
    /// hash, as when replaying rows read back from the persistent store.
    /// Rejects a username that is already taken and changes nothing then.
    pub fn register_hashed(&mut self, username: &str, password_hash: String) -> (r: Result<
        (),
        StoreError,
    >)
        ensures
            r is Ok <==> !contains_user(old(self)@, username@),
            r is Err ==> r->Err_0 == StoreError::AlreadyExists && final(self)@ == old(self)@,
            r is Ok ==> final(self)@ == old(self)@.push((username@, password_hash@)),
    {
        proof {
            use_type_invariant(&*self);
        }
        match self.index_of(username) {
            Some(_) => Err(StoreError::AlreadyExists),
            None => {
                let ghost pre = self@;
                let ghost ph = password_hash@;
                let mut rows: Vec<(String, String)> = Vec::new();
                std::mem::swap(&mut rows, &mut self.accounts);
                rows.push((username.to_owned(), password_hash));
                proof {
                    assert(forall|i: int|
                        0 <= i < pre.len() ==> (#[trigger] rows@[i]).0@ == pre[i].0);
                    assert(rows@[pre.len() as int].0@ == username@);
                    assert forall|i: int, j: int|
                        0 <= i < rows@.len() && 0 <= j < rows@.len() && #[trigger] rows@[i].0@
                            == #[trigger] rows@[j].0@ implies i == j by {
                        if i < pre.len() && j < pre.len() {
                            assert(pre[i].0 == pre[j].0);
                        }
                        if i < pre.len() && j == pre.len() {
                            assert(contains_user(pre, username@));
                        }
                        if j < pre.len() && i == pre.len() {
                            assert(contains_user(pre, username@));
                        }
                    }
                }
                self.accounts = rows;
                proof {
                    assert(self@ =~= pre.push((username@, ph)));
                }
                Ok(())
            },
        }
    }

    /// Registers a new account: rejects a taken username, otherwise hashes
    /// the password with the fixed work factor and appends the account. The
    /// store is unchanged on every error.
    pub fn register_user(&mut self, username: &str, password: &str) -> (r: Result<(), StoreError>)
        ensures
            r is Err ==> final(self)@ == old(self)@,
            contains_user(old(self)@, username@) ==> r == Err::<(), StoreError>(
                StoreError::AlreadyExists,
            ),
            !contains_user(old(self)@, username@) && r is Err ==> r == Err::<(), StoreError>(
                StoreError::HashComputation,
            ),
            r is Ok ==> register_success_post(old(self)@, final(self)@, username@, password@),
    {
        match self.index_of(username) {
            Some(_) => Err(StoreError::AlreadyExists),
            None => {
                match hashing::bcrypt_hash(password, hashing::WORK_FACTOR) {
                    Err(_) => Err(StoreError::HashComputation),
                    Ok(h) => {
                        let ghost hv = h@;
                        let r = self.register_hashed(username, h);
                        proof {
                            assert(hash_shape_ok(hv) && check_of(password@, hv) && self@ == old(
                                self,
                            )@.push((username@, hv)));
                        }
                        r
                    },
                }
            },
        }
    }

    /// Checks a password against the account named `username`. An unknown
    /// username answers `Ok(false)`, indistinguishable from a wrong password;
    /// only a stored hash that bcrypt cannot process is an error.
    pub fn check_credentials(&self, username: &str, password: &str) -> (r: Result<
        bool,
        StoreError,
    >)
        ensures
            !contains_user(self@, username@) ==> r == Ok::<bool, StoreError>(false),
            contains_user(self@, username@) && hash_shape_ok(hash_for(self@, username@)) ==> r
                == Ok::<bool, StoreError>(check_of(password@, hash_for(self@, username@))),
            contains_user(self@, username@) && !hash_shape_ok(hash_for(self@, username@)) ==> r
                == Err::<bool, StoreError>(StoreError::HashComputation),
    {
        proof {
            use_type_invariant(&*self);
        }
        match self.index_of(username) {
            None => Ok(false),
            Some(i) => {
                proof {
                    assert(contains_user(self@, username@));
                    assert(user_index(self@, username@) == i);
                }
                match hashing::bcrypt_verify(password, self.accounts[i].1.as_str()) {
                    Ok(b) => Ok(b),
                    Err(_) => Err(StoreError::HashComputation),
                }
            },
        }
    }

    /// The stored password hash of the account named `username`, for the
    /// persistence layer to write out; the hash is opaque and never the
    /// password.
    pub fn password_hash_of(&self, username: &str) -> (r: Option<String>)
        ensures
            r is Some <==> contains_user(self@, username@),
            r is Some ==> (r->Some_0)@ == hash_for(self@, username@),
    {
        proof {
            use_type_invariant(&*self);
        }
        match self.index_of(username) {
            None => None,
            Some(i) => {
                proof {
                    assert(contains_user(self@, username@));
                    assert(user_index(self@, username@) == i);
                }
                Some(self.accounts[i].1.clone())
            },
        }
    }
}

/// Law: a successful registration makes the account findable under its name,
/// and the stored hash is one that bcrypt verifies against the registered
/// password — so `find_user_by_username` answers `Some` and
/// `check_credentials` with the same password answers `Ok(true)`.
pub proof fn lemma_register_enables_login(
    pre: Seq<(Seq<char>, Seq<char>)>,
    post: Seq<(Seq<char>, Seq<char>)>,
    name: Seq<char>,
    password: Seq<char>,
)
    requires
        register_success_post(pre, post, name, password),
    ensures
        contains_user(post, name),
        hash_shape_ok(hash_for(post, name)),
        check_of(password, hash_for(post, name)),
{
    let h = choose|h: Seq<char>|
        {
            &&& #[trigger] hash_shape_ok(h)
            &&& check_of(password, h)
            &&& post == pre.push((name, h))
        };
    assert(post[pre.len() as int].0 == name);
    assert(contains_user(post, name));
    let k = user_index(post, name);
    assert(0 <= k < post.len() && post[k].0 == name);
    if k < pre.len() {
        assert(pre[k].0 == name);
        assert(contains_user(pre, name));
    }
    assert(post[k].1 == h);
}

/// Law: registering a name that succeeded once cannot succeed again — the
/// name is now present, so a second `register_user` answers
/// `Err(AlreadyExists)` and leaves the store unchanged — and exactly one
/// account carries that name afterwards.
pub proof fn lemma_register_makes_single_account(
    pre: Seq<(Seq<char>, Seq<char>)>,
    post: Seq<(Seq<char>, Seq<char>)>,
    name: Seq<char>,
    password: Seq<char>,
)
    requires
        usernames_unique(pre),
        register_success_post(pre, post, name, password),
    ensures
        contains_user(post, name),
        usernames_unique(post),
        post.exactly_one(|row: (Seq<char>, Seq<char>)| row.0 == name),
{
    let h = choose|h: Seq<char>|
        {
            &&& #[trigger] hash_shape_ok(h)
            &&& check_of(password, h)
            &&& post == pre.push((name, h))
        };
    assert(post[pre.len() as int].0 == name);
    assert(contains_user(post, name));
    assert forall|i: int, j: int|
        0 <= i < post.len() && 0 <= j < post.len() && #[trigger] post[i].0 == #[trigger] post[j].0
            implies i == j by {
        if i < pre.len() && j == pre.len() {
            assert(contains_user(pre, name));
        }
        if j < pre.len() && i == pre.len() {
            assert(contains_user(pre, name));
        }
    }
    assert forall|i: int| 0 <= i < post.len() && i != pre.len() implies !(#[trigger] post[i].0
        == name) by {
        if post[i].0 == name {
            assert(pre[i].0 == name);
            assert(contains_user(pre, name));
        }
    }
    crate::lemma_filter_single(
        post,
        |row: (Seq<char>, Seq<char>)| row.0 == name,
        pre.len() as int,
    );
}

} // verus!
