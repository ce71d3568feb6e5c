use vstd::prelude::*;

use crate::token::{create_jwt, hs256_claims, issued_token, TOKEN_LIFETIME};
use crate::ErrorResponse;

verus! {

/// Texts of the replies to sign-up and login.
pub const SIGNED_UP: &'static str = "Successfully signed up";
pub const LOGGED_IN: &'static str = "Successfully logged in";

/// The body of a successful login.
pub struct LoginResponse {
    pub msg: String,
    pub token: String,
}

/// Why a sign-up or a login was refused.
pub enum UserError {
    /// Sign-up under a name that is already registered.
    UserExists,
    /// Login under a name that is not registered.
    UserNotFound,
    /// Login with a password that does not match the stored hash.
    InvalidCredentials,
    /// Hashing the password failed.
    HashFailed,
    /// Signing the token failed.
    TokenFailed,
}

impl UserError {
    /// The HTTP status of the reply that reports this error.
    pub fn status(&self) -> (r: u16)
        ensures
            r == match self {
                UserError::UserExists => 409u16,
                UserError::UserNotFound => 401u16,
                UserError::InvalidCredentials => 401u16,
                UserError::HashFailed => 500u16,
                UserError::TokenFailed => 500u16,
            },
    {
        match self {
            UserError::UserExists => 409,
            UserError::UserNotFound => 401,
            UserError::InvalidCredentials => 401,
            UserError::HashFailed => 500,
            UserError::TokenFailed => 500,
        }
    }

    /// The body of the reply that reports this error.
    pub fn body(&self) -> (r: ErrorResponse)
        ensures
            match self {
                UserError::UserExists => r.error@ == "User already exists"@ && r.msg@
                    == "Please use different credentials"@,
                UserError::UserNotFound => r.error@ == "User not found"@ && r.msg@
                    == "The user doesn't exist"@,
                UserError::InvalidCredentials => r.error@ == "Invalid credentials"@ && r.msg@
                    == "Wrong username or password"@,
                UserError::HashFailed => r.error@ == "Error password issue"@ && r.msg@
                    == "Please contact support"@,
                UserError::TokenFailed => r.error@ == "Error token issue"@ && r.msg@
                    == "Please contact support"@,
            },
    {
        match self {
            UserError::UserExists => ErrorResponse::new(
                "User already exists",
                "Please use different credentials",
            ),
            UserError::UserNotFound => ErrorResponse::new(
                "User not found",
                "The user doesn't exist",
            ),
            UserError::InvalidCredentials => ErrorResponse::new(
                "Invalid credentials",
                "Wrong username or password",
            ),
            UserError::HashFailed => ErrorResponse::new(
                "Error password issue",
                "Please contact support",
            ),
            UserError::TokenFailed => ErrorResponse::new(
                "Error token issue",
                "Please contact support",
            ),
        }
    }
}

/// What `bcrypt::verify` answers for a password and a stored hash: whether the
/// password hashes to it, `None` where the hash cannot be read.
pub uninterp spec fn bcrypt_verdict(pass: Seq<char>, hash: Seq<char>) -> Option<bool>;

/// Relies on `bcrypt::hash`: a salted hash of the password at the given cost.
/// The salt is random, so the text itself is not stated; `bcrypt::verify`
/// recomputes the hash from the cost and salt that the text holds, so the
/// password verifies against it.
#[verifier::external_body]
fn hash_password(pass: &str, cost: u32) -> (r: Option<String>)
    ensures
        r matches Some(h) ==> bcrypt_verdict(pass@, h@) == Some(true),
{
    bcrypt::hash(pass, cost).ok()
}

/// Relies on `bcrypt::verify`: the answer depends on the password and the hash
/// alone.
#[verifier::external_body]
fn check_password(pass: &str, hash: &str) -> (r: Option<bool>)
    ensures
        r == bcrypt_verdict(pass@, hash@),
{
    bcrypt::verify(pass, hash).ok()
}

/// The mapping from user name to password hash held in a list of pairs; a later
/// pair wins over an earlier one.
pub open spec fn credentials_map(s: Seq<(String, String)>) -> Map<Seq<char>, Seq<char>>
    decreases s.len(),
{
    if s.len() == 0 {
        Map::empty()
    } else {
        credentials_map(s.drop_last()).insert(s.last().0@, s.last().1@)
    }
}

/// No two pairs share a user name.
pub open spec fn names_unique(s: Seq<(String, String)>) -> bool {
    forall|i: int, j: int| 0 <= i < j < s.len() ==> #[trigger] s[i].0@ != #[trigger] s[j].0@
}

proof fn lemma_credentials_map(s: Seq<(String, String)>)
    requires
        names_unique(s),
    ensures
        forall|k: Seq<char>| #[trigger]
            credentials_map(s).contains_key(k) <==> exists|i: int| 0 <= i < s.len() && s[i].0@ == k,
        forall|i: int| 0 <= i < s.len() ==> #[trigger] credentials_map(s)[s[i].0@] == s[i].1@,
    decreases s.len(),
{
    if s.len() > 0 {
        let p = s.drop_last();
        assert(names_unique(p));
        lemma_credentials_map(p);
        assert(credentials_map(s) == credentials_map(p).insert(s.last().0@, s.last().1@));
        assert forall|k: Seq<char>| #[trigger]
            credentials_map(s).contains_key(k) implies exists|i: int|
            0 <= i < s.len() && s[i].0@ == k by {
            if k != s.last().0@ {
                assert(credentials_map(p).contains_key(k));
                let i = choose|i: int| 0 <= i < p.len() && p[i].0@ == k;
                assert(s[i] == p[i]);
            } else {
                assert(s[s.len() - 1].0@ == k);
            }
        }
        assert forall|k: Seq<char>|
            (exists|i: int| 0 <= i < s.len() && s[i].0@ == k) implies #[trigger]
            credentials_map(s).contains_key(k) by {
            let i = choose|i: int| 0 <= i < s.len() && s[i].0@ == k;
            if i < s.len() - 1 {
                assert(p[i] == s[i]);
            }
        }
        assert forall|i: int| 0 <= i < s.len() implies #[trigger] credentials_map(s)[s[i].0@]
            == s[i].1@ by {
            if i < s.len() - 1 {
                assert(p[i] == s[i]);
                assert(s[i].0@ != s[s.len() - 1].0@);
            }
        }
    }
}

/// The in-memory credential store: user names with the hashes of their
/// passwords, and the bcrypt cost that new hashes are made with.
pub struct UserStore {
    users: Vec<(String, String)>,
    cost: u32,
}

impl View for UserStore {
    type V = Map<Seq<char>, Seq<char>>;

    closed spec fn view(&self) -> Map<Seq<char>, Seq<char>> {
        credentials_map(self.users@)
    }
}

impl UserStore {
    /// The store keeps each user name once.
    pub closed spec fn wf(&self) -> bool {
        names_unique(self.users@)
    }

    /// The bcrypt cost of new hashes.
    pub closed spec fn cost_spec(&self) -> u32 {
        self.cost
    }

    /// An empty store whose hashes are made at `cost`.
    pub fn new(cost: u32) -> (r: Self)
        ensures
            r.wf(),
            r@ == Map::<Seq<char>, Seq<char>>::empty(),
            r.cost_spec() == cost,
    {
        UserStore { users: Vec::new(), cost }
    }

    /// The bcrypt cost of new hashes.
    pub fn cost(&self) -> (r: u32)
        ensures
            r == self.cost_spec(),
    {
        self.cost
    }

    /// The position of the pair for `name`.
    fn position(&self, name: &str) -> (r: Option<usize>)
        requires
            self.wf(),
        ensures
            match r {
                Some(i) => i < self.users@.len() && self.users@[i as int].0@ == name@
                    && self@.contains_key(name@) && self@[name@] == self.users@[i as int].1@,
                None => !self@.contains_key(name@),
            },
    {
        let target = name.to_owned();
        let mut i: usize = 0;
        while i < self.users.len()
            invariant
                0 <= i <= self.users@.len(),
                target@ == name@,
                self.wf(),
                forall|j: int| 0 <= j < i ==> self.users@[j].0@ != name@,
            decreases self.users@.len() - i,
        {
            if self.users[i].0 == target {
                proof {
                    lemma_credentials_map(self.users@);
                    assert(credentials_map(self.users@)[self.users@[i as int].0@]
                        == self.users@[i as int].1@);
                }
                return Some(i);
            }
            i = i + 1;
        }
        proof {
            lemma_credentials_map(self.users@);
        }
        None
    }

    /// Whether `name` is registered.
    pub fn contains(&self, name: &str) -> (r: bool)
        requires
            self.wf(),
        ensures
            r == self@.contains_key(name@),
    {
        self.position(name).is_some()
    }

    /// Registers `name` with an already computed password hash, unless the name
    /// is taken.
    pub fn register_hashed(&mut self, name: String, hash: String) -> (r: Result<(), UserError>)
        requires
            old(self).wf(),
        ensures
            final(self).wf(),
            final(self).cost_spec() == old(self).cost_spec(),
            match r {
                Ok(()) => !old(self)@.contains_key(name@) && final(self)@ == old(self)@.insert(
                    name@,
                    hash@,
                ),
                Err(e) => e is UserExists && old(self)@.contains_key(name@) && final(self)@ == old(
                    self,
                )@,
            },
    {
        if self.contains(name.as_str()) {
            return Err(UserError::UserExists);
        }
        proof {
            lemma_credentials_map(self.users@);
        }
        let ghost before = self.users@;
        self.users.push((name, hash));
        proof {
            assert(self.users@.drop_last() =~= before);
            assert forall|i: int, j: int| 0 <= i < j < self.users@.len() implies #[trigger] self.users@[i].0@
                != #[trigger] self.users@[j].0@ by {
                if j == before.len() {
                    assert(before[i] == self.users@[i]);
                }
            }
        }
        Ok(())
    }

    /// Registers `name` with a salted hash of `pass`, unless the name is taken.
    pub fn sign_up(&mut self, name: String, pass: String) -> (r: Result<(), UserError>)
        requires
            old(self).wf(),
        ensures
            final(self).wf(),
            final(self).cost_spec() == old(self).cost_spec(),
            match r {
                Ok(()) => !old(self)@.contains_key(name@) && exists|h: Seq<char>|
                    final(self)@ == #[trigger] old(self)@.insert(name@, h) && bcrypt_verdict(
                        pass@,
                        h,
                    ) == Some(true),
                Err(e) => final(self)@ == old(self)@ && (e is UserExists <==> old(
                    self,
                )@.contains_key(name@)) && (e is UserExists || e is HashFailed),
            },
    {
        if self.contains(name.as_str()) {
            return Err(UserError::UserExists);
        }
        match hash_password(pass.as_str(), self.cost) {
            None => Err(UserError::HashFailed),
            Some(hash) => self.register_hashed(name, hash),
        }
    }

    /// Checks `pass` against the hash stored for `name`.
    pub fn verify(&self, name: &str, pass: &str) -> (r: Result<(), UserError>)
        requires
            self.wf(),
        ensures
            match r {
                Ok(()) => self@.contains_key(name@) && bcrypt_verdict(pass@, self@[name@])
                    == Some(true),
                Err(e) => if self@.contains_key(name@) {
                    e is InvalidCredentials && bcrypt_verdict(pass@, self@[name@]) != Some(true)
                } else {
                    e is UserNotFound
                },
            },
    {
        match self.position(name) {
            None => Err(UserError::UserNotFound),
            Some(i) => match check_password(pass, self.users[i].1.as_str()) {
                Some(true) => Ok(()),
                _ => Err(UserError::InvalidCredentials),
            },
        }
    }

    /// Logs `name` in at time `now`: checks the password and issues a token that
    /// expires one day later.
    pub fn login_at(&self, name: &str, pass: &str, now: i64) -> (r: Result<LoginResponse, UserError>)
        requires
            self.wf(),
        ensures
            match r {
                Ok(resp) => {
                    &&& self@.contains_key(name@)
                    &&& bcrypt_verdict(pass@, self@[name@]) == Some(true)
                    &&& issued_token(name@, now) == Some(resp.token@)
                    &&& (now + TOKEN_LIFETIME >= 0 ==> hs256_claims(resp.token@, crate::SECRET_KEY@)
                        == Some((name@, (now + TOKEN_LIFETIME) as i64)))
                    &&& resp.msg@ == LOGGED_IN@
                },
                Err(e) => if !self@.contains_key(name@) {
                    e is UserNotFound
                } else if bcrypt_verdict(pass@, self@[name@]) != Some(true) {
                    e is InvalidCredentials
                } else {
                    e is TokenFailed && issued_token(name@, now) is None
                },
            },
    {
        match self.verify(name, pass) {
            Err(e) => Err(e),
            Ok(()) => match create_jwt(name, now) {
                None => Err(UserError::TokenFailed),
                Some(token) => Ok(LoginResponse { msg: LOGGED_IN.to_owned(), token }),
            },
        }
    }
}

} // verus!
