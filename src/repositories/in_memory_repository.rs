//! The in-memory variant: the records held in the process, one per id.
//!
//! Methods that change the collection take `&mut self`, so a caller that shares
//! the repository serialises them behind one lock over the whole collection.

use vstd::prelude::*;

use crate::models::{is_ulid_text, User, UserError};
use crate::repositories::{
    after_create, after_update, check_update, create_result, distinct_ids, keyed_by_id,
    lemma_lists_own_records, lemma_records_contains, lemma_records_finite, lemma_records_keyed, lemma_records_remove,
    lemma_records_value, lists_exactly, lookup, records_of, update_result, Records,
};

verus! {

/// The records of the service, kept in the process.
pub struct InMemoryUserRepository {
    users: Vec<User>,
}

impl View for InMemoryUserRepository {
    type V = Records;

    closed spec fn view(&self) -> Records {
        records_of(self.users@)
    }
}

impl InMemoryUserRepository {
    #[verifier::type_invariant]
    spec fn ids_unique(self) -> bool {
        distinct_ids(self.users@)
    }

    /// An empty repository.
    pub fn new() -> (r: InMemoryUserRepository)
        ensures
            r@ == Records::empty(),
    {
        InMemoryUserRepository { users: Vec::new() }
    }

    /// Each stored record sits under its own id, and there are finitely many.
    pub proof fn lemma_keyed_by_id(&self)
        ensures
            keyed_by_id(self@),
            self@.dom().finite(),
    {
        lemma_records_keyed(self.users@);
        lemma_records_finite(self.users@);
    }

    /// Where the record with this id stands in the collection, if anywhere.
    fn position_of(&self, id: &String) -> (r: Option<usize>)
        ensures
            match r {
                Some(i) => i < self.users@.len() && self.users@[i as int].id@ == id@,
                None => forall|i: int|
                    0 <= i < self.users@.len() ==> #[trigger] self.users@[i].id@ != id@,
            },
    {
        let mut i: usize = 0;
        while i < self.users.len()
            invariant
                i <= self.users@.len(),
                forall|j: int| 0 <= j < i ==> #[trigger] self.users@[j].id@ != id@,
            decreases self.users@.len() - i,
        {
            if self.users[i].id == *id {
                return Some(i);
            }
            i = i + 1;
        }
        None
    }

    /// Whether a record is stored under `id`, and the fact stated over the model.
    fn holds(&self, id: &String) -> (r: Option<usize>)
        ensures
            r is Some <==> self@.contains_key(id@),
            match r {
                Some(i) => i < self.users@.len() && self.users@[i as int].id@ == id@,
                None => true,
            },
    {
        let r = self.position_of(id);
        proof {
            lemma_records_contains(self.users@, id@);
        }
        r
    }

    /// A snapshot of all records, in no particular order.
    pub fn get_all(&self) -> (r: Vec<User>)
        ensures
            lists_exactly(r@, self@),
    {
        proof {
            use_type_invariant(self);
        }
        let mut r: Vec<User> = Vec::new();
        let mut i: usize = 0;
        while i < self.users.len()
            invariant
                i <= self.users@.len(),
                r@ == self.users@.take(i as int),
            decreases self.users@.len() - i,
        {
            r.push(self.users[i].duplicate());
            i = i + 1;
            assert(r@ =~= self.users@.take(i as int));
        }
        proof {
            assert(r@ =~= self.users@);
            lemma_lists_own_records(self.users@);
        }
        r
    }

    /// A copy of the record stored under `id`, if any.
    pub fn get(&self, id: &str) -> (r: Option<User>)
        ensures
            r == lookup(self@, id@),
    {
        proof {
            use_type_invariant(self);
        }
        let key = id.to_owned();
        match self.holds(&key) {
            Some(i) => {
                proof {
                    lemma_records_value(self.users@, i as int);
                }
                Some(self.users[i].duplicate())
            },
            None => None,
        }
    }

    /// Stores `user` under its id as it stands, unless that id is taken.
    pub fn insert_new(&mut self, user: User) -> (r: Result<User, UserError>)
        ensures
            r == create_result(old(self)@, user),
            final(self)@ == after_create(old(self)@, user),
    {
        proof {
            use_type_invariant(&*self);
        }
        if self.holds(&user.id).is_some() {
            return Err(UserError::DuplicateId);
        }
        let created = user.duplicate();
        let mut users: Vec<User> = Vec::new();
        std::mem::swap(&mut users, &mut self.users);
        let ghost before = users@;
        proof {
            lemma_records_contains(before, user.id@);
        }
        users.push(user);
        proof {
            assert(users@.drop_last() =~= before);
        }
        self.users = users;
        Ok(created)
    }

    /// Stores `user`, first giving it a freshly generated ULID if its id is
    /// empty. Fails with `DuplicateId`, changing nothing, where the id is taken.
    pub fn create(&mut self, user: User) -> (r: Result<User, UserError>)
        ensures
            user.id@.len() > 0 ==> r == create_result(old(self)@, user) && final(self)@
                == after_create(old(self)@, user),
            user.id@.len() == 0 ==> match r {
                Ok(u) => {
                    &&& is_ulid_text(u.id@)
                    &&& u.name == user.name
                    &&& u.email == user.email
                    &&& r == create_result(old(self)@, u)
                    &&& final(self)@ == after_create(old(self)@, u)
                },
                Err(e) => {
                    &&& e == UserError::DuplicateId
                    &&& final(self)@ == old(self)@
                    &&& exists|k: Seq<char>| is_ulid_text(k) && old(self)@.contains_key(k)
                },
            },
    {
        let user = user.with_assigned_id();
        let ghost assigned = user.id@;
        let r = self.insert_new(user);
        proof {
            if r is Err && is_ulid_text(assigned) {
                assert(old(self)@.contains_key(assigned));
            }
        }
        r
    }

    /// Replaces the record stored under `id` by `user`, stored under its own id.
    /// Fails with `NotFound` where nothing is stored under `id`, and with
    /// `IdConflict` where `user` carries another id that is already taken.
    pub fn update(&mut self, id: &str, user: User) -> (r: Result<(), UserError>)
        ensures
            r == update_result(old(self)@, id@, user),
            final(self)@ == after_update(old(self)@, id@, user),
    {
        proof {
            use_type_invariant(&*self);
        }
        let key = id.to_owned();
        let at = self.holds(&key);
        let renamed = user.id != key;
        let taken = self.holds(&user.id).is_some();
        match check_update(at.is_some(), renamed, taken) {
            Err(e) => Err(e),
            Ok(()) => {
                let i = at.unwrap();
                let mut users: Vec<User> = Vec::new();
                std::mem::swap(&mut users, &mut self.users);
                let ghost before = users@;
                users.remove(i);
                let ghost rest = users@;
                proof {
                    lemma_records_remove(before, i as int);
                    assert forall|a: int, b: int|
                        0 <= a < rest.len() && 0 <= b < rest.len() && a != b implies #[trigger] rest[a].id@
                        != #[trigger] rest[b].id@ by {
                        let a0 = if a < i { a } else { a + 1 };
                        let b0 = if b < i { b } else { b + 1 };
                        assert(rest[a] == before[a0]);
                        assert(rest[b] == before[b0]);
                    }
                    assert forall|a: int| 0 <= a < rest.len() implies #[trigger] rest[a].id@
                        != user.id@ by {
                        let a0 = if a < i { a } else { a + 1 };
                        assert(rest[a] == before[a0]);
                        lemma_records_contains(before, user.id@);
                        if user.id@ != key@ {
                            assert(before[a0].id@ != user.id@);
                        } else {
                            assert(before[i as int].id@ == user.id@);
                        }
                    }
                }
                users.push(user);
                proof {
                    assert(users@.drop_last() =~= rest);
                }
                self.users = users;
                Ok(())
            },
        }
    }

    /// Removes the record stored under `id`; tells whether there was one.
    pub fn delete(&mut self, id: &str) -> (r: bool)
        ensures
            r == old(self)@.contains_key(id@),
            final(self)@ == old(self)@.remove(id@),
    {
        proof {
            use_type_invariant(&*self);
        }
        let key = id.to_owned();
        match self.holds(&key) {
            None => {
                assert(self@.remove(id@) =~= self@);
                false
            },
            Some(i) => {
                let mut users: Vec<User> = Vec::new();
                std::mem::swap(&mut users, &mut self.users);
                let ghost before = users@;
                users.remove(i);
                proof {
                    lemma_records_remove(before, i as int);
                    let rest = users@;
                    assert forall|a: int, b: int|
                        0 <= a < rest.len() && 0 <= b < rest.len() && a != b implies #[trigger] rest[a].id@
                        != #[trigger] rest[b].id@ by {
                        let a0 = if a < i { a } else { a + 1 };
                        let b0 = if b < i { b } else { b + 1 };
                        assert(rest[a] == before[a0]);
                        assert(rest[b] == before[b0]);
                    }
                }
                self.users = users;
                true
            },
        }
    }
}

} // verus!
