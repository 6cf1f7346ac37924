use vstd::prelude::*;

verus! {

/// A user record: `id` identifies it, `name` and `email` are free text.
#[derive(Clone, Debug, PartialEq, Eq)]
pub struct User {
    pub id: String,
    pub name: String,
    pub email: String,
}

/// The domain-level failures of the registry. None of them is transient.
#[derive(Clone, Copy, Debug, PartialEq, Eq, Structural)]
pub enum UserError {
    /// `create` was given (or generated) an id that is already stored.
    DuplicateId,
    /// `update` would rename a record onto the id of another stored record.
    IdConflict,
    /// `update` named an id under which nothing is stored.
    NotFound,
}

/// The characters of the Crockford base-32 alphabet.
pub open spec fn is_crockford_char(c: char) -> bool {
    ('0' <= c && c <= '9') || ('A' <= c && c <= 'Z' && c != 'I' && c != 'L' && c != 'O' && c != 'U')
}

/// What every textual ULID looks like: 26 characters of the Crockford alphabet.
pub open spec fn is_ulid_text(s: Seq<char>) -> bool {
    &&& s.len() == 26
    &&& forall|i: int| 0 <= i < s.len() ==> is_crockford_char(#[trigger] s[i])
}

/// Relies on `ulid::Ulid::new` and `ulid::Ulid::to_string`: a new identifier from
/// the clock and a random source, written as 26 Crockford base-32 characters.
/// Which identifier comes back is not known in advance.
#[verifier::external_body]
fn new_ulid() -> (r: String)
    ensures
        is_ulid_text(r@),
{
    ulid::Ulid::new().to_string()
}

impl User {
    /// A record with the given fields; without an id, a freshly generated ULID.
    pub fn new(id: Option<String>, name: String, email: String) -> (r: User)
        ensures
            r.name == name,
            r.email == email,
            match id {
                Some(i) => r.id == i,
                None => is_ulid_text(r.id@),
            },
    {
        let id = match id {
            Some(i) => i,
            None => new_ulid(),
        };
        User { id, name, email }
    }

    /// A field-by-field copy of the record.
    pub fn duplicate(&self) -> (r: User)
        ensures
            r == *self,
    {
        User { id: self.id.clone(), name: self.name.clone(), email: self.email.clone() }
    }

    /// The record itself where its id is set, else the record under a freshly
    /// generated ULID.
    pub fn with_assigned_id(self) -> (r: User)
        ensures
            self.id@.len() > 0 ==> r == self,
            self.id@.len() == 0 ==> is_ulid_text(r.id@) && r.name == self.name && r.email
                == self.email,
    {
        let mut user = self;
        if user.id.as_str().is_empty() {
            user.id = new_ulid();
        }
        user
    }
}

impl UserError {
    /// The text that the service reports for the error.
    pub fn message(&self) -> (r: String)
        ensures
            r@ == match *self {
                UserError::DuplicateId => "User ID already exists"@,
                UserError::IdConflict => "New user ID already exists"@,
                UserError::NotFound => "User not found"@,
            },
    {
        match self {
            UserError::DuplicateId => String::from_str("User ID already exists"),
            UserError::IdConflict => String::from_str("New user ID already exists"),
            UserError::NotFound => String::from_str("User not found"),
        }
    }

    /// The HTTP status that the error is answered with: 404 for a missing
    /// record, 400 for the two rejected requests.
    pub fn http_status(&self) -> (r: u16)
        ensures
            r == match *self {
                UserError::NotFound => 404u16,
                _ => 400u16,
            },
    {
        match self {
            UserError::NotFound => 404,
            _ => 400,
        }
    }
}

} // verus!
