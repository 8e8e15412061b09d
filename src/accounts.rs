//! User accounts: unique usernames, each with a salted password hash, a
//! role and a tenant. Hashing and checking passwords is bcrypt's work.
use vstd::prelude::*;

use crate::error::LedgerError;

verus! {

/// bcrypt's error type, as the wrappers below hand it back; it is only ever
/// matched as a failure, never looked into.
#[verifier::external_type_specification]
#[verifier::external_body]
pub struct ExBcryptError(bcrypt::BcryptError);

/// What bcrypt's check of `password` against the stored `hash` gives: `None`
/// when `hash` is not a well-formed bcrypt hash, else whether they match.
pub uninterp spec fn bcrypt_check(password: Seq<char>, hash: Seq<char>) -> Option<bool>;

/// Relies on bcrypt::hash: a salted hash of `password` at `cost`. The salt is
/// drawn at random, so nothing is known of the hash itself.
#[verifier::external_body]
fn hash_password(password: &str, cost: u32) -> (r: Result<String, bcrypt::BcryptError>) {
    bcrypt::hash(password, cost)
}

/// Relies on bcrypt::verify: checks `password` against `hash`, failing when
/// `hash` is malformed; the answer depends on the two strings alone.
#[verifier::external_body]
fn verify_password(password: &str, hash: &str) -> (r: Result<bool, bcrypt::BcryptError>)
    ensures
        r is Err <==> bcrypt_check(password@, hash@) is None,
        r matches Ok(b) ==> bcrypt_check(password@, hash@) == Some(b),
{
    bcrypt::verify(password, hash)
}

/// A registered user.
pub struct Account {
    pub username: String,
    pub password_hash: String,
    pub role: String,
    pub tenant: String,
    pub email: String,
    pub full_name: String,
}

impl Account {
    /// A field-by-field copy.
    pub fn duplicate(&self) -> (r: Account)
        ensures
            r == *self,
    {
        Account {
            username: self.username.clone(),
            password_hash: self.password_hash.clone(),
            role: self.role.clone(),
            tenant: self.tenant.clone(),
            email: self.email.clone(),
            full_name: self.full_name.clone(),
        }
    }
}

/// The outcome of a login, given what the password check answered.
pub open spec fn login_verdict(check: Option<bool>) -> Result<(), LedgerError> {
    match check {
        None => Err(LedgerError::Validation),
        Some(true) => Ok(()),
        Some(false) => Err(LedgerError::AuthRejected),
    }
}

/// Decides a login from the password check's answer: a match admits the
/// user, a mismatch is refused, and an unreadable stored hash is malformed data.
pub fn judge_login(check: Option<bool>) -> (r: Result<(), LedgerError>)
    ensures
        r == login_verdict(check),
{
    match check {
        None => Err(LedgerError::Validation),
        Some(true) => Ok(()),
        Some(false) => Err(LedgerError::AuthRejected),
    }
}

/// The registered accounts, with usernames unique, hashed at one bcrypt cost.
pub struct Accounts {
    accounts: Vec<Account>,
    cost: u32,
}

impl Accounts {
    /// The accounts, in order of registration.
    pub closed spec fn accounts(&self) -> Seq<Account> {
        self.accounts@
    }

    /// The bcrypt cost used for new password hashes.
    pub closed spec fn cost(&self) -> u32 {
        self.cost
    }

    /// No two accounts share a username.
    pub closed spec fn wf(&self) -> bool {
        forall|i: int, j: int|
            0 <= i < j < self.accounts@.len() ==> (#[trigger] self.accounts@[i]).username@
                != (#[trigger] self.accounts@[j]).username@
    }

    /// Some account has username `username`.
    pub open spec fn has_user(&self, username: Seq<char>) -> bool {
        exists|i: int|
            0 <= i < self.accounts().len() && (#[trigger] self.accounts()[i]).username@ == username
    }

    /// No account, hashing new passwords at `cost`.
    pub fn new(cost: u32) -> (r: Accounts)
        ensures
            r.wf(),
            r.accounts().len() == 0,
            r.cost() == cost,
    {
        Accounts { accounts: Vec::new(), cost }
    }

    /// Position of the account named `username`.
    fn find(&self, username: &String) -> (r: Option<usize>)
        ensures
            r is None ==> !self.has_user(username@),
            r matches Some(i) ==> i < self.accounts().len() && self.accounts()[i as int].username@
                == username@,
    {
        let mut i: usize = 0;
        while i < self.accounts.len()
            invariant
                i <= self.accounts@.len(),
                forall|k: int| 0 <= k < i ==> (#[trigger] self.accounts@[k]).username@ != username@,
            decreases self.accounts@.len() - i,
        {
            if self.accounts[i].username == *username {
                return Some(i);
            }
            i = i + 1;
        }
        None
    }

    /// Registers a user under a fresh username, storing a salted hash of
    /// `password`. A taken username is refused; a failure of the hashing
    /// itself is reported as `StoreUnavailable`.
    pub fn register(
        &mut self,
        username: &String,
        password: &String,
        role: &String,
        tenant: &String,
        email: &String,
        full_name: &String,
    ) -> (r: Result<(), LedgerError>)
        requires
            old(self).wf(),
        ensures
            final(self).wf(),
            final(self).cost() == old(self).cost(),
            old(self).has_user(username@) ==> r == Err::<(), LedgerError>(LedgerError::Validation),
            r is Err ==> *final(self) == *old(self),
            r is Err && !old(self).has_user(username@) ==> r == Err::<(), LedgerError>(
                LedgerError::StoreUnavailable,
            ),
            r is Ok ==> {
                let a = final(self).accounts().last();
                &&& final(self).accounts().len() == old(self).accounts().len() + 1
                &&& final(self).accounts().drop_last() == old(self).accounts()
                &&& a.username@ == username@
                &&& a.role@ == role@
                &&& a.tenant@ == tenant@
                &&& a.email@ == email@
                &&& a.full_name@ == full_name@
            },
    {
        if self.find(username).is_some() {
            return Err(LedgerError::Validation);
        }
        let hash = match hash_password(password.as_str(), self.cost) {
            Ok(h) => h,
            Err(_) => {
                return Err(LedgerError::StoreUnavailable);
            },
        };
        let a = Account {
            username: username.clone(),
            password_hash: hash,
            role: role.clone(),
            tenant: tenant.clone(),
            email: email.clone(),
            full_name: full_name.clone(),
        };
        let ghost before = self.accounts@;
        let ghost added = a;
        self.accounts.push(a);
        proof {
            assert forall|i: int, j: int|
                0 <= i < j < self.accounts@.len() implies (#[trigger] self.accounts@[i]).username@
                != (#[trigger] self.accounts@[j]).username@ by {
                if j == before.len() {
                    assert(self.accounts@[i] == before[i]);
                    assert(self.accounts@[j] == added);
                    if before[i].username@ == username@ {
                        assert(old(self).accounts()[i] == before[i]);
                        assert(old(self).has_user(username@));
                    }
                } else {
                    assert(self.accounts@[i] == before[i]);
                    assert(self.accounts@[j] == before[j]);
                }
            }
            assert(self.accounts@.drop_last() =~= before);
        }
        Ok(())
    }

    /// Checks `password` for user `username` and, when it matches, returns
    /// the account. An unknown user and a wrong password are refused alike.
    pub fn login(&self, username: &String, password: &String) -> (r: Result<Account, LedgerError>)
        requires
            self.wf(),
        ensures
            !self.has_user(username@) ==> r == Err::<Account, LedgerError>(LedgerError::AuthRejected),
            forall|i: int|
                0 <= i < self.accounts().len() && (#[trigger] self.accounts()[i]).username@
                    == username@ ==> match login_verdict(
                    bcrypt_check(password@, self.accounts()[i].password_hash@),
                ) {
                    Ok(_) => r == Ok::<Account, LedgerError>(self.accounts()[i]),
                    Err(e) => r == Err::<Account, LedgerError>(e),
                },
    {
        match self.find(username) {
            None => Err(LedgerError::AuthRejected),
            Some(i) => {
                let a = &self.accounts[i];
                let check = match verify_password(password.as_str(), a.password_hash.as_str()) {
                    Ok(b) => Some(b),
                    Err(_) => None,
                };
                match judge_login(check) {
                    Ok(()) => Ok(a.duplicate()),
                    Err(e) => Err(e),
                }
            },
        }
    }
}

} // verus!
