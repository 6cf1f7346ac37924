//! The capability contract that every user repository meets, stated over a
//! mathematical model: a map from id to record.

pub mod in_memory_repository;

use vstd::prelude::*;

use crate::models::{User, UserError};

verus! {

/// The model of a repository: each stored record under its id.
pub type Records = Map<Seq<char>, User>;

/// The records that a run of successful creates leaves behind, starting from
/// an empty repository: each record under its id, a later one replacing an
/// earlier one with the same id.
pub open spec fn records_of(users: Seq<User>) -> Records
    decreases users.len(),
{
    if users.len() == 0 {
        Map::empty()
    } else {
        records_of(users.drop_last()).insert(users.last().id@, users.last())
    }
}

/// No two of the records share an id.
pub open spec fn distinct_ids(users: Seq<User>) -> bool {
    forall|i: int, j: int|
        0 <= i < users.len() && 0 <= j < users.len() && i != j ==> #[trigger] users[i].id@
            != #[trigger] users[j].id@
}

/// Every record of the model is stored under its own id.
pub open spec fn keyed_by_id(m: Records) -> bool {
    forall|k: Seq<char>| #[trigger] m.contains_key(k) ==> m[k].id@ == k
}

/// `listed` is a snapshot of `m`: each stored record exactly once, in some order.
pub open spec fn lists_exactly(listed: Seq<User>, m: Records) -> bool {
    &&& listed.len() == m.len()
    &&& distinct_ids(listed)
    &&& forall|i: int|
        0 <= i < listed.len() ==> m.contains_key(#[trigger] listed[i].id@) && m[listed[i].id@]
            == listed[i]
    &&& forall|k: Seq<char>|
        #[trigger] m.contains_key(k) ==> exists|i: int| 0 <= i < listed.len() && listed[i].id@ == k
}

/// The ids stored in `records_of(users)` are exactly those of `users`.
pub proof fn lemma_records_contains(users: Seq<User>, k: Seq<char>)
    ensures
        records_of(users).contains_key(k) <==> exists|i: int|
            0 <= i < users.len() && #[trigger] users[i].id@ == k,
    decreases users.len(),
{
    if users.len() > 0 {
        let d = users.drop_last();
        lemma_records_contains(d, k);
        if records_of(users).contains_key(k) && k != users.last().id@ {
            let i = choose|i: int| 0 <= i < d.len() && #[trigger] d[i].id@ == k;
            assert(users[i] == d[i]);
        }
        if exists|i: int| 0 <= i < users.len() && #[trigger] users[i].id@ == k {
            let i = choose|i: int| 0 <= i < users.len() && #[trigger] users[i].id@ == k;
            if i < d.len() {
                assert(d[i] == users[i]);
            }
        }
    }
}

/// With distinct ids, each record of `users` is the one stored under its id.
pub proof fn lemma_records_value(users: Seq<User>, i: int)
    requires
        distinct_ids(users),
        0 <= i < users.len(),
    ensures
        records_of(users).contains_key(users[i].id@),
        records_of(users)[users[i].id@] == users[i],
    decreases users.len(),
{
    let d = users.drop_last();
    if i < users.len() - 1 {
        assert(users[i] == d[i]);
        assert(distinct_ids(d));
        lemma_records_value(d, i);
        assert(users[i].id@ != users[users.len() - 1].id@);
    }
}

/// The model of a sequence of records has a finite domain.
pub proof fn lemma_records_finite(users: Seq<User>)
    ensures
        records_of(users).dom().finite(),
    decreases users.len(),
{
    if users.len() > 0 {
        lemma_records_finite(users.drop_last());
    }
}

/// With distinct ids, the model holds as many records as the sequence.
pub proof fn lemma_records_len(users: Seq<User>)
    requires
        distinct_ids(users),
    ensures
        records_of(users).len() == users.len(),
    decreases users.len(),
{
    if users.len() > 0 {
        let d = users.drop_last();
        let last = users.last();
        assert(distinct_ids(d));
        lemma_records_len(d);
        lemma_records_finite(d);
        lemma_records_contains(d, last.id@);
        if records_of(d).contains_key(last.id@) {
            let i = choose|i: int| 0 <= i < d.len() && #[trigger] d[i].id@ == last.id@;
            assert(users[i] == d[i]);
        }
    }
}

/// Every model of a sequence of records stores each record under its own id.
pub proof fn lemma_records_keyed(users: Seq<User>)
    ensures
        keyed_by_id(records_of(users)),
    decreases users.len(),
{
    if users.len() > 0 {
        lemma_records_keyed(users.drop_last());
    }
}

/// With distinct ids, taking the record at `i` out of the sequence takes its
/// id out of the model.
pub proof fn lemma_records_remove(users: Seq<User>, i: int)
    requires
        distinct_ids(users),
        0 <= i < users.len(),
    ensures
        records_of(users.remove(i)) == records_of(users).remove(users[i].id@),
    decreases users.len(),
{
    let d = users.drop_last();
    let last = users.last();
    if i == users.len() - 1 {
        assert(users.remove(i) =~= d);
        lemma_records_contains(d, last.id@);
        if records_of(d).contains_key(last.id@) {
            let j = choose|j: int| 0 <= j < d.len() && #[trigger] d[j].id@ == last.id@;
            assert(users[j] == d[j]);
        }
        assert(records_of(users).remove(last.id@) =~= records_of(d));
    } else {
        assert(distinct_ids(d));
        assert(users[i] == d[i]);
        lemma_records_remove(d, i);
        let r = users.remove(i);
        assert(r.drop_last() =~= d.remove(i));
        assert(r.last() == last);
        assert(users[i].id@ != last.id@);
        assert(records_of(r) =~= records_of(users).remove(users[i].id@));
    }
}

/// Records with distinct ids are a snapshot of their own model.
pub proof fn lemma_lists_own_records(users: Seq<User>)
    requires
        distinct_ids(users),
    ensures
        lists_exactly(users, records_of(users)),
{
    lemma_records_len(users);
    assert forall|i: int| 0 <= i < users.len() implies records_of(users).contains_key(
        #[trigger] users[i].id@,
    ) && records_of(users)[users[i].id@] == users[i] by {
        lemma_records_value(users, i);
    }
    assert forall|k: Seq<char>| #[trigger] records_of(users).contains_key(k) implies exists|i: int|
        0 <= i < users.len() && users[i].id@ == k by {
        lemma_records_contains(users, k);
    }
}

/// What `get` returns.
pub open spec fn lookup(m: Records, id: Seq<char>) -> Option<User> {
    if m.contains_key(id) {
        Some(m[id])
    } else {
        None
    }
}

/// What `create` returns for a record whose id is set.
pub open spec fn create_result(m: Records, user: User) -> Result<User, UserError> {
    if m.contains_key(user.id@) {
        Err(UserError::DuplicateId)
    } else {
        Ok(user)
    }
}

/// The records after `create` of a record whose id is set.
pub open spec fn after_create(m: Records, user: User) -> Records {
    if m.contains_key(user.id@) {
        m
    } else {
        m.insert(user.id@, user)
    }
}

/// What `update` returns: a missing record first, then a rename onto another
/// stored record.
pub open spec fn update_result(m: Records, id: Seq<char>, user: User) -> Result<(), UserError> {
    if !m.contains_key(id) {
        Err(UserError::NotFound)
    } else if user.id@ != id && m.contains_key(user.id@) {
        Err(UserError::IdConflict)
    } else {
        Ok(())
    }
}

/// The records after `update`: on success the record under `id` is replaced
/// by `user` under its own id; on failure nothing changes.
pub open spec fn after_update(m: Records, id: Seq<char>, user: User) -> Records {
    if update_result(m, id, user) is Ok {
        m.remove(id).insert(user.id@, user)
    } else {
        m
    }
}

/// The records after a run of creates of records whose ids are set, in order.
pub open spec fn after_creates(m: Records, users: Seq<User>) -> Records
    decreases users.len(),
{
    if users.len() == 0 {
        m
    } else {
        after_create(after_creates(m, users.drop_last()), users.last())
    }
}

/// Creating records with distinct ids one after another, from an empty
/// repository, succeeds each time, and a listing taken afterwards holds
/// exactly the created records: no more, no less. `users` are the records as
/// stored, whether their ids were given or generated: a create that generates
/// an id changes the records as `after_create` does with the record it returns.
pub proof fn lemma_list_after_creates(users: Seq<User>, listed: Seq<User>)
    requires
        distinct_ids(users),
        lists_exactly(listed, after_creates(Records::empty(), users)),
    ensures
        forall|i: int|
            0 <= i < users.len() ==> create_result(
                after_creates(Records::empty(), users.take(i)),
                #[trigger] users[i],
            ) == Ok::<User, UserError>(users[i]),
        listed.len() == users.len(),
        listed.to_set() == users.to_set(),
{
    lemma_after_creates_distinct(users);
    lemma_records_len(users);
    let m = records_of(users);
    assert forall|i: int| 0 <= i < users.len() implies create_result(
        after_creates(Records::empty(), users.take(i)),
        #[trigger] users[i],
    ) == Ok::<User, UserError>(users[i]) by {
        let t = users.take(i);
        assert(distinct_ids(t));
        lemma_after_creates_distinct(t);
        lemma_records_contains(t, users[i].id@);
        if records_of(t).contains_key(users[i].id@) {
            let j = choose|j: int| 0 <= j < t.len() && #[trigger] t[j].id@ == users[i].id@;
            assert(users[j] == t[j]);
        }
    }
    assert forall|x: User| listed.to_set().contains(x) implies users.to_set().contains(x) by {
        let j = choose|j: int| 0 <= j < listed.len() && listed[j] == x;
        assert(listed[j] == x);
        lemma_records_contains(users, x.id@);
        let i = choose|i: int| 0 <= i < users.len() && #[trigger] users[i].id@ == x.id@;
        lemma_records_value(users, i);
        assert(users[i] == x);
    }
    assert forall|x: User| users.to_set().contains(x) implies listed.to_set().contains(x) by {
        let i = choose|i: int| 0 <= i < users.len() && users[i] == x;
        lemma_records_value(users, i);
        assert(m.contains_key(users[i].id@));
        let j = choose|j: int| 0 <= j < listed.len() && #[trigger] listed[j].id@ == users[i].id@;
        assert(listed[j] == x);
    }
    assert(listed.to_set() =~= users.to_set());
}

/// From an empty repository, creates of records with distinct ids leave the
/// records of the sequence.
proof fn lemma_after_creates_distinct(users: Seq<User>)
    requires
        distinct_ids(users),
    ensures
        after_creates(Records::empty(), users) == records_of(users),
    decreases users.len(),
{
    if users.len() > 0 {
        let d = users.drop_last();
        assert(distinct_ids(d));
        lemma_after_creates_distinct(d);
        lemma_records_contains(d, users.last().id@);
        if records_of(d).contains_key(users.last().id@) {
            let j = choose|j: int| 0 <= j < d.len() && #[trigger] d[j].id@ == users.last().id@;
            assert(users[j] == d[j]);
        }
    }
}

/// Creating two records with the same id: the second create fails with
/// `DuplicateId` and leaves the records as the first left them; the first
/// succeeds, storing its record, wherever the id was free.
pub proof fn lemma_create_twice(m: Records, first: User, second: User)
    requires
        first.id@ == second.id@,
    ensures
        create_result(after_create(m, first), second) == Err::<User, UserError>(
            UserError::DuplicateId,
        ),
        after_create(after_create(m, first), second) == after_create(m, first),
        !m.contains_key(first.id@) ==> create_result(m, first) == Ok::<User, UserError>(first)
            && lookup(after_create(m, first), first.id@) == Some(first),
{
}

/// An update of an id under which nothing is stored fails with `NotFound`
/// and changes nothing.
pub proof fn lemma_update_missing(m: Records, id: Seq<char>, user: User)
    requires
        !m.contains_key(id),
    ensures
        update_result(m, id, user) == Err::<(), UserError>(UserError::NotFound),
        after_update(m, id, user) == m,
{
}

/// An update that renames the record under `a` to the id `b` of another
/// stored record fails with `IdConflict`; both records stay as they were.
pub proof fn lemma_update_onto_taken_id(m: Records, a: Seq<char>, b: Seq<char>, user: User)
    requires
        m.contains_key(a),
        m.contains_key(b),
        a != b,
        user.id@ == b,
    ensures
        update_result(m, a, user) == Err::<(), UserError>(UserError::IdConflict),
        lookup(after_update(m, a, user), a) == lookup(m, a),
        lookup(after_update(m, a, user), b) == lookup(m, b),
{
}

/// Deleting a stored id reports `true`, after which the id is no longer
/// found; deleting an absent id reports `false` and changes nothing.
pub proof fn lemma_delete_then_get(m: Records, id: Seq<char>)
    ensures
        m.contains_key(id) ==> lookup(m.remove(id), id) == None::<User>,
        !m.contains_key(id) ==> m.remove(id) == m,
{
    assert(!m.remove(id).contains_key(id));
    if !m.contains_key(id) {
        assert(m.remove(id) =~= m);
    }
}

/// The decision of `update` from what the store holds: whether a record is
/// stored under the addressed id, whether the new record carries another id,
/// and whether a record is stored under that new id.
pub fn check_update(id_present: bool, renamed: bool, new_id_present: bool) -> (r: Result<
    (),
    UserError,
>)
    ensures
        r == (if !id_present {
            Err(UserError::NotFound)
        } else if renamed && new_id_present {
            Err(UserError::IdConflict)
        } else {
            Ok(())
        }),
{
    if !id_present {
        Err(UserError::NotFound)
    } else if renamed && new_id_present {
        Err(UserError::IdConflict)
    } else {
        Ok(())
    }
}

} // verus!
