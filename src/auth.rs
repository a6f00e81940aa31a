use vstd::prelude::*;
use password_hash::PasswordHasher;

verus! {

/// One account: a user name and the PHC string of its password hash.
#[derive(Debug, Clone)]
pub struct UserAuth {
    pub username: String,
    pub password: String,
}

/// Why an account could not be created.
#[derive(Debug, Clone, Copy, PartialEq, Eq, Structural)]
pub enum AuthError {
    /// An account with this user name exists already.
    UsernameTaken,
    /// The password could not be hashed.
    HashFailed,
}

/// The account store: accounts in the order they were made or loaded.
pub struct Auth {
    db: Vec<UserAuth>,
}

/// The user names of a list of accounts.
pub open spec fn names(v: Seq<UserAuth>) -> Seq<Seq<char>> {
    v.map_values(|u: UserAuth| u.username@)
}

/// The accounts of a list as (user name, password) pairs.
pub open spec fn pairs(v: Seq<UserAuth>) -> Seq<(Seq<char>, Seq<char>)> {
    v.map_values(|u: UserAuth| (u.username@, u.password@))
}

/// A name for what Argon2 with its default parameters gives for a password
/// and a B64 salt: the PHC string of the hash.
pub uninterp spec fn argon2_of(raw: Seq<char>, salt: Seq<char>) -> Seq<char>;

/// Relies on `password_hash::SaltString::generate` with `rand::rngs::OsRng`:
/// a fresh random salt in B64.
#[verifier::external_body]
fn fresh_salt() -> (r: String) {
    password_hash::SaltString::generate(&mut rand::rngs::OsRng).as_str().to_string()
}

/// Relies on `argon2::Argon2::hash_password` with default parameters, the
/// salt read by `password_hash::Salt::from_b64`: the PHC string, which
/// depends on the password and the salt alone; `None` where either step
/// fails.
#[verifier::external_body]
fn hash(raw_password: &str, salt: &str) -> (r: Option<String>)
    ensures
        r matches Some(h) ==> h@ == argon2_of(raw_password@, salt@),
{
    let salt = password_hash::Salt::from_b64(salt).ok()?;
    argon2::Argon2::default().hash_password(raw_password.as_bytes(), salt).ok().map(|h| h.to_string())
}

impl Auth {
    /// The accounts, as (user name, password) pairs, in order.
    pub closed spec fn records(&self) -> Seq<(Seq<char>, Seq<char>)> {
        pairs(self.db@)
    }

    /// The user names, in order.
    pub open spec fn users(&self) -> Seq<Seq<char>> {
        self.records().map_values(|p: (Seq<char>, Seq<char>)| p.0)
    }

    /// An empty store.
    pub fn create() -> (r: Auth)
        ensures
            r.records() == Seq::<(Seq<char>, Seq<char>)>::empty(),
    {
        let r = Auth { db: Vec::new() };
        assert(r.records() =~= Seq::<(Seq<char>, Seq<char>)>::empty());
        r
    }

    /// A store holding every one of `records`, in their order.
    pub fn load_from(records: Vec<UserAuth>) -> (r: Auth)
        ensures
            r.records() == pairs(records@),
    {
        Auth { db: records }
    }

    /// Whether an account with this user name exists.
    pub fn has_user(&self, username: &String) -> (r: bool)
        ensures
            r == self.users().contains(username@),
    {
        let mut i: usize = 0;
        while i < self.db.len()
            invariant
                i <= self.db.len(),
                forall|k: int| 0 <= k < i ==> self.db@[k].username@ != username@,
            decreases self.db.len() - i,
        {
            if self.db[i].username == *username {
                assert(self.users()[i as int] == username@);
                return true;
            }
            i = i + 1;
        }
        assert(!self.users().contains(username@)) by {
            if self.users().contains(username@) {
                let k = choose|k: int| 0 <= k < self.users().len() && self.users()[k] == username@;
                assert(self.db@[k].username@ == username@);
            }
        }
        false
    }

    /// Adds the account of `username` with the password hash `hash`, unless
    /// the name is taken or there is no hash.
    pub fn add_account(&mut self, username: String, hash: Option<String>) -> (r: Result<UserAuth, AuthError>)
        ensures
            (r == Err::<UserAuth, AuthError>(AuthError::UsernameTaken)) <==> old(self).users().contains(username@),
            (r == Err::<UserAuth, AuthError>(AuthError::HashFailed)) <==> (!old(self).users().contains(username@)
                && hash is None),
            r is Err ==> final(self).records() == old(self).records(),
            r matches Ok(u) ==> hash matches Some(h) && u.username@ == username@ && u.password@ == h@
                && final(self).records() == old(self).records().push((username@, h@)),
    {
        if self.has_user(&username) {
            return Err(AuthError::UsernameTaken);
        }
        match hash {
            None => Err(AuthError::HashFailed),
            Some(h) => {
                let rec = UserAuth { username: username.clone(), password: h.clone() };
                let ghost before = self.db@;
                self.db.push(UserAuth { username, password: h });
                assert(self.records() =~= pairs(before).push((rec.username@, rec.password@)));
                Ok(rec)
            },
        }
    }

    /// Creates an account for a user name that is not taken yet; its
    /// password is the Argon2 hash of `raw_psw` under a fresh random salt.
    pub fn sign_up(&mut self, username: String, raw_psw: String) -> (r: Result<UserAuth, AuthError>)
        ensures
            (r == Err::<UserAuth, AuthError>(AuthError::UsernameTaken)) <==> old(self).users().contains(username@),
            r is Err ==> final(self).records() == old(self).records(),
            r matches Ok(u) ==> u.username@ == username@ && (exists|salt: Seq<char>| u.password@ == argon2_of(raw_psw@, salt))
                && final(self).records() == old(self).records().push((username@, u.password@)),
    {
        if self.has_user(&username) {
            return Err(AuthError::UsernameTaken);
        }
        let salt = fresh_salt();
        let h = hash(raw_psw.as_str(), salt.as_str());
        let r = self.add_account(username, h);
        proof {
            if let Ok(u) = &r {
                assert(u.password@ == argon2_of(raw_psw@, salt@));
            }
        }
        r
    }

    /// How many accounts there are.
    pub fn len(&self) -> (r: usize)
        ensures
            r == self.records().len(),
    {
        self.db.len()
    }
}

} // verus!
