//! The book builder: populates a book's entry tables and hands out the
//! finished, immutable book.
//!
//! Entries may be added in any order; every table stays keyed in strictly
//! ascending order, and a duplicate key is rejected. `build` checks every
//! cross-reference and fails rather than expose a partial book: downstream
//! consumers assume full internal consistency.

use vstd::prelude::*;

use crate::book::{
    bytes_lt, key_lt, lemma_str_lt_total, lemma_str_lt_trans, room_sorted, sorted_key,
    sorted_roles, sorted_u16, sorted_u8, str_lt, Book, ConditionEntry, ConversationEntry,
    ConversationKey, LineEntry, NounEntry, RoleEntry, RoomEntry, TalkerEntry, VerbEntry,
};
use crate::error::BuildError;

verus! {

/// Byte-lexicographic comparison of two slices.
fn bytes_lt_exec(a: &[u8], b: &[u8]) -> (r: bool)
    ensures
        r == bytes_lt(a@, b@),
{
    proof {
        assert(a@.skip(0) =~= a@);
        assert(b@.skip(0) =~= b@);
    }
    let mut i: usize = 0;
    loop
        invariant
            i <= a@.len(),
            i <= b@.len(),
            bytes_lt(a@, b@) == bytes_lt(a@.skip(i as int), b@.skip(i as int)),
        decreases a@.len() - i,
    {
        if i == b.len() {
            return false;
        }
        if i == a.len() {
            return true;
        }
        let x = a[i];
        let y = b[i];
        proof {
            assert(a@.skip(i as int)[0] == a@[i as int]);
            assert(b@.skip(i as int)[0] == b@[i as int]);
        }
        if x < y {
            return true;
        }
        if x > y {
            return false;
        }
        proof {
            assert(a@.skip(i as int).drop_first() =~= a@.skip(i as int + 1));
            assert(b@.skip(i as int).drop_first() =~= b@.skip(i as int + 1));
        }
        i = i + 1;
    }
}

/// Comparison of role identifiers in their table order.
fn str_lt_exec(a: &str, b: &str) -> (r: bool)
    ensures
        r == str_lt(a@, b@),
{
    bytes_lt_exec(a.as_bytes(), b.as_bytes())
}

/// Comparison of conversation keys in their table order.
fn key_lt_exec(a: ConversationKey, b: ConversationKey) -> (r: bool)
    ensures
        r == key_lt(a, b),
{
    a.verb < b.verb || (a.verb == b.verb && a.condition < b.condition)
}

/// The insertion position for an 8-bit key in a sorted table, and whether the
/// key is already present there.
fn find_pos_u8<T>(v: &Vec<(u8, T)>, key: u8) -> (r: (usize, bool))
    requires
        sorted_u8(v@),
    ensures
        ({
            let (p, found) = r;
            &&& p <= v@.len()
            &&& forall|k: int| 0 <= k < p ==> v@[k].0 < key
            &&& found <==> (p < v@.len() && v@[p as int].0 == key)
            &&& (!found && p < v@.len()) ==> v@[p as int].0 > key
        }),
{
    let mut p: usize = 0;
    while p < v.len()
        invariant
            p <= v@.len(),
            forall|k: int| 0 <= k < p ==> v@[k].0 < key,
        decreases v@.len() - p,
    {
        if v[p].0 >= key {
            return (p, v[p].0 == key);
        }
        p = p + 1;
    }
    (p, false)
}

/// The insertion position for a 16-bit key in a sorted table, and whether the
/// key is already present there.
fn find_pos_u16<T>(v: &Vec<(u16, T)>, key: u16) -> (r: (usize, bool))
    requires
        sorted_u16(v@),
    ensures
        ({
            let (p, found) = r;
            &&& p <= v@.len()
            &&& forall|k: int| 0 <= k < p ==> v@[k].0 < key
            &&& found <==> (p < v@.len() && v@[p as int].0 == key)
            &&& (!found && p < v@.len()) ==> v@[p as int].0 > key
        }),
{
    let mut p: usize = 0;
    while p < v.len()
        invariant
            p <= v@.len(),
            forall|k: int| 0 <= k < p ==> v@[k].0 < key,
        decreases v@.len() - p,
    {
        if v[p].0 >= key {
            return (p, v[p].0 == key);
        }
        p = p + 1;
    }
    (p, false)
}

/// The insertion position for a conversation key in a sorted table, and
/// whether the key is already present there.
fn find_pos_key<T>(v: &Vec<(ConversationKey, T)>, key: ConversationKey) -> (r: (usize, bool))
    requires
        sorted_key(v@),
    ensures
        ({
            let (p, found) = r;
            &&& p <= v@.len()
            &&& forall|k: int| 0 <= k < p ==> key_lt(v@[k].0, key)
            &&& found <==> (p < v@.len() && v@[p as int].0 == key)
            &&& (!found && p < v@.len()) ==> key_lt(key, v@[p as int].0)
        }),
{
    let mut p: usize = 0;
    while p < v.len()
        invariant
            p <= v@.len(),
            forall|k: int| 0 <= k < p ==> key_lt(v@[k].0, key),
        decreases v@.len() - p,
    {
        if !key_lt_exec(v[p].0, key) {
            return (p, v[p].0 == key);
        }
        p = p + 1;
    }
    (p, false)
}

/// The insertion position for a role key in a sorted table, and whether the
/// key is already present there (present meaning: equal view).
fn find_pos_role<T>(v: &Vec<(String, T)>, key: &str) -> (r: (usize, bool))
    requires
        sorted_roles(v@),
    ensures
        ({
            let (p, found) = r;
            &&& p <= v@.len()
            &&& forall|k: int| 0 <= k < p ==> str_lt(v@[k].0@, key@)
            &&& found <==> (p < v@.len() && v@[p as int].0@ == key@)
            &&& (!found && p < v@.len()) ==> str_lt(key@, v@[p as int].0@)
        }),
{
    let mut p: usize = 0;
    while p < v.len()
        invariant
            p <= v@.len(),
            forall|k: int| 0 <= k < p ==> str_lt(v@[k].0@, key@),
        decreases v@.len() - p,
    {
        if !str_lt_exec(v[p].0.as_str(), key) {
            let eq = !str_lt_exec(key, v[p].0.as_str());
            proof {
                if eq {
                    lemma_str_lt_total(v@[p as int].0@, key@);
                } else {
                    if v@[p as int].0@ == key@ {
                        crate::book::lemma_str_lt_irrefl(key@);
                    }
                }
            }
            return (p, eq);
        }
        p = p + 1;
    }
    (p, false)
}

/// What a successful sorted insert did: the new table holds the old entries
/// in order with the new pair at position `p`.
pub open spec fn inserted_at<K, T>(
    old_v: Seq<(K, T)>,
    new_v: Seq<(K, T)>,
    p: int,
    key: K,
    val: T,
) -> bool {
    &&& 0 <= p <= old_v.len()
    &&& new_v.len() == old_v.len() + 1
    &&& (forall|k: int| 0 <= k < p ==> new_v[k] == old_v[k])
    &&& new_v[p] == (key, val)
    &&& (forall|k: int| p < k < new_v.len() ==> new_v[k] == old_v[k - 1])
}

/// Inserts under an 8-bit key, keeping the table sorted; rejects a duplicate
/// key and leaves the table unchanged then.
fn insert_u8<T>(v: &mut Vec<(u8, T)>, key: u8, val: T) -> (r: Result<(), BuildError>)
    requires
        sorted_u8(old(v)@),
    ensures
        match r {
            Ok(()) => {
                &&& sorted_u8(final(v)@)
                &&& !(exists|i: int| 0 <= i < old(v)@.len() && old(v)@[i].0 == key)
                &&& exists|p: int| inserted_at(old(v)@, final(v)@, p, key, val)
            },
            Err(e) => e == BuildError::DuplicateKey && *final(v) == *old(v) && exists|i: int|
                0 <= i < old(v)@.len() && old(v)@[i].0 == key,
        },
{
    let (p, found) = find_pos_u8(v, key);
    if found {
        return Err(BuildError::DuplicateKey);
    }
    let ghost old_v = v@;
    let ghost gval = val;
    v.insert(p, (key, val));
    proof {
        assert forall|k: int| 0 <= k < p implies v@[k] == old_v[k] by {
            assert(v@[k] == old_v.insert(p as int, (key, gval))[k]);
        }
        assert(inserted_at(old_v, v@, p as int, key, gval));
        assert forall|i: int, j: int| 0 <= i < j < v@.len() implies v@[i].0 < v@[j].0 by {
            if j < p {
                assert(v@[i] == old_v[i] && v@[j] == old_v[j]);
            } else if j == p {
                assert(v@[i] == old_v[i]);
            } else if i == p {
                assert(v@[j] == old_v[j - 1]);
                assert(old_v[j - 1].0 >= old_v[p as int].0);
            } else if i < p {
                assert(v@[i] == old_v[i] && v@[j] == old_v[j - 1]);
            } else {
                assert(v@[i] == old_v[i - 1] && v@[j] == old_v[j - 1]);
            }
        }
    }
    Ok(())
}

/// Inserts under a 16-bit key, keeping the table sorted; rejects a duplicate
/// key and leaves the table unchanged then.
fn insert_u16<T>(v: &mut Vec<(u16, T)>, key: u16, val: T) -> (r: Result<(), BuildError>)
    requires
        sorted_u16(old(v)@),
    ensures
        match r {
            Ok(()) => {
                &&& sorted_u16(final(v)@)
                &&& !(exists|i: int| 0 <= i < old(v)@.len() && old(v)@[i].0 == key)
                &&& exists|p: int| inserted_at(old(v)@, final(v)@, p, key, val)
            },
            Err(e) => e == BuildError::DuplicateKey && *final(v) == *old(v) && exists|i: int|
                0 <= i < old(v)@.len() && old(v)@[i].0 == key,
        },
{
    let (p, found) = find_pos_u16(v, key);
    if found {
        return Err(BuildError::DuplicateKey);
    }
    let ghost old_v = v@;
    let ghost gval = val;
    v.insert(p, (key, val));
    proof {
        assert forall|k: int| 0 <= k < p implies v@[k] == old_v[k] by {
            assert(v@[k] == old_v.insert(p as int, (key, gval))[k]);
        }
        assert(inserted_at(old_v, v@, p as int, key, gval));
        assert forall|i: int, j: int| 0 <= i < j < v@.len() implies v@[i].0 < v@[j].0 by {
            if j < p {
                assert(v@[i] == old_v[i] && v@[j] == old_v[j]);
            } else if j == p {
                assert(v@[i] == old_v[i]);
            } else if i == p {
                assert(v@[j] == old_v[j - 1]);
                assert(old_v[j - 1].0 >= old_v[p as int].0);
            } else if i < p {
                assert(v@[i] == old_v[i] && v@[j] == old_v[j - 1]);
            } else {
                assert(v@[i] == old_v[i - 1] && v@[j] == old_v[j - 1]);
            }
        }
    }
    Ok(())
}

/// Inserts under a conversation key, keeping the table sorted; rejects a
/// duplicate key and leaves the table unchanged then.
fn insert_key<T>(v: &mut Vec<(ConversationKey, T)>, key: ConversationKey, val: T) -> (r: Result<
    (),
    BuildError,
>)
    requires
        sorted_key(old(v)@),
    ensures
        match r {
            Ok(()) => {
                &&& sorted_key(final(v)@)
                &&& !(exists|i: int| 0 <= i < old(v)@.len() && old(v)@[i].0 == key)
                &&& exists|p: int| inserted_at(old(v)@, final(v)@, p, key, val)
            },
            Err(e) => e == BuildError::DuplicateKey && *final(v) == *old(v) && exists|i: int|
                0 <= i < old(v)@.len() && old(v)@[i].0 == key,
        },
{
    let (p, found) = find_pos_key(v, key);
    if found {
        return Err(BuildError::DuplicateKey);
    }
    let ghost old_v = v@;
    let ghost gval = val;
    v.insert(p, (key, val));
    proof {
        assert forall|k: int| 0 <= k < p implies v@[k] == old_v[k] by {
            assert(v@[k] == old_v.insert(p as int, (key, gval))[k]);
        }
        assert(inserted_at(old_v, v@, p as int, key, gval));
        assert forall|i: int| 0 <= i < old_v.len() implies old_v[i].0 != key by {
            if i > p {
                assert(key_lt(old_v[p as int].0, old_v[i].0));
            }
        }
        assert forall|i: int, j: int| 0 <= i < j < v@.len() implies key_lt(v@[i].0, v@[j].0) by {
            if j < p {
                assert(v@[i] == old_v[i] && v@[j] == old_v[j]);
            } else if j == p {
                assert(v@[i] == old_v[i]);
            } else if i == p {
                assert(v@[j] == old_v[j - 1]);
                if p < old_v.len() && j - 1 > p {
                    assert(key_lt(old_v[p as int].0, old_v[j - 1].0));
                }
            } else if i < p {
                assert(v@[i] == old_v[i] && v@[j] == old_v[j - 1]);
            } else {
                assert(v@[i] == old_v[i - 1] && v@[j] == old_v[j - 1]);
            }
        }
    }
    Ok(())
}

/// Inserts under a role key, keeping the table sorted; rejects a duplicate
/// key (same view) and leaves the table unchanged then.
fn insert_role<T>(v: &mut Vec<(String, T)>, key: String, val: T) -> (r: Result<(), BuildError>)
    requires
        sorted_roles(old(v)@),
    ensures
        match r {
            Ok(()) => {
                &&& sorted_roles(final(v)@)
                &&& !(exists|i: int| 0 <= i < old(v)@.len() && old(v)@[i].0@ == key@)
                &&& exists|p: int|
                    {
                        &&& inserted_key_at(old(v)@, final(v)@, p, (#[trigger] final(v)@[p]).0)
                        &&& final(v)@[p].0@ == key@
                        &&& final(v)@[p].1 == val
                    }
            },
            Err(e) => e == BuildError::DuplicateKey && *final(v) == *old(v) && exists|i: int|
                0 <= i < old(v)@.len() && old(v)@[i].0@ == key@,
        },
{
    let (p, found) = find_pos_role(v, key.as_str());
    if found {
        return Err(BuildError::DuplicateKey);
    }
    let ghost old_v = v@;
    let ghost gkey = key;
    let ghost gval = val;
    v.insert(p, (key, val));
    proof {
        assert forall|k: int| 0 <= k < p implies v@[k] == old_v[k] by {
            assert(v@[k] == old_v.insert(p as int, (gkey, gval))[k]);
        }
        assert(v@[p as int] == (gkey, gval));
        assert forall|k: int| p < k < v@.len() implies v@[k] == old_v[k - 1] by {
            assert(v@[k] == old_v.insert(p as int, (gkey, gval))[k]);
        }
        assert forall|i: int| 0 <= i < old_v.len() implies old_v[i].0@ != gkey@ by {
            if i < p {
                crate::book::lemma_str_lt_irrefl(gkey@);
            } else {
                if i > p {
                    assert(str_lt(old_v[p as int].0@, old_v[i].0@));
                    lemma_str_lt_trans(gkey@, old_v[p as int].0@, old_v[i].0@);
                }
                crate::book::lemma_str_lt_irrefl(gkey@);
            }
        }
        assert forall|i: int, j: int| 0 <= i < j < v@.len() implies str_lt(v@[i].0@, v@[j].0@) by {
            if j < p {
                assert(v@[i] == old_v[i] && v@[j] == old_v[j]);
            } else if j == p {
                assert(v@[i] == old_v[i]);
            } else if i == p {
                assert(v@[j] == old_v[j - 1]);
                if j - 1 > p {
                    assert(str_lt(old_v[p as int].0@, old_v[j - 1].0@));
                    lemma_str_lt_trans(gkey@, old_v[p as int].0@, old_v[j - 1].0@);
                }
            } else if i < p {
                assert(v@[i] == old_v[i] && v@[j] == old_v[j - 1]);
                assert(str_lt(old_v[i].0@, old_v[j - 1].0@));
            } else {
                assert(v@[i] == old_v[i - 1] && v@[j] == old_v[j - 1]);
                assert(str_lt(old_v[i - 1].0@, old_v[j - 1].0@));
            }
        }
    }
    Ok(())
}

/// What a successful sorted insert did, stated without the inserted entry's
/// value (for entries holding fresh empty tables).
pub open spec fn inserted_key_at<K, T>(old_v: Seq<(K, T)>, new_v: Seq<(K, T)>, p: int, key: K) -> bool {
    &&& 0 <= p <= old_v.len()
    &&& new_v.len() == old_v.len() + 1
    &&& (forall|k: int| 0 <= k < p ==> new_v[k] == old_v[k])
    &&& new_v[p].0 == key
    &&& (forall|k: int| p < k < new_v.len() ==> new_v[k] == old_v[k - 1])
}

/// One table entry was replaced, its key kept; everything else is untouched.
pub open spec fn updated_at<K, T>(old_v: Seq<(K, T)>, new_v: Seq<(K, T)>, i: int) -> bool {
    &&& 0 <= i < old_v.len()
    &&& new_v.len() == old_v.len()
    &&& (forall|k: int| 0 <= k < old_v.len() && k != i ==> new_v[k] == old_v[k])
    &&& new_v[i].0 == old_v[i].0
}

/// Accumulates a book's entry tables, in any insertion order, and finishes by
/// checking every cross-reference.
pub struct BookBuilder {
    pub roles: Vec<(String, RoleEntry)>,
    pub talkers: Vec<(u8, TalkerEntry)>,
    pub verbs: Vec<(u8, VerbEntry)>,
    pub rooms: Vec<(u16, RoomEntry)>,
}

impl BookBuilder {
    /// The book these tables would form.
    pub open spec fn as_book(&self) -> Book {
        Book { roles: self.roles, talkers: self.talkers, verbs: self.verbs, rooms: self.rooms }
    }

    /// Between adds, every table is already kept in ascending key order.
    pub open spec fn wf(&self) -> bool {
        self.as_book().tables_sorted()
    }

    /// An empty builder.
    pub fn new() -> (r: BookBuilder)
        ensures
            r.wf(),
            r.roles@.len() == 0,
            r.talkers@.len() == 0,
            r.verbs@.len() == 0,
            r.rooms@.len() == 0,
    {
        BookBuilder { roles: Vec::new(), talkers: Vec::new(), verbs: Vec::new(), rooms: Vec::new() }
    }

    /// Adds a role; rejects a duplicate role identifier.
    pub fn add_role(&mut self, id: String, name: String, short_name: String) -> (r: Result<
        (),
        BuildError,
    >)
        requires
            old(self).wf(),
        ensures
            final(self).wf(),
            final(self).talkers@ == old(self).talkers@,
            final(self).verbs@ == old(self).verbs@,
            final(self).rooms@ == old(self).rooms@,
            match r {
                Ok(()) => !old(self).as_book().has_role(id@) && exists|p: int|
                    {
                        &&& inserted_key_at(
                            old(self).roles@,
                            final(self).roles@,
                            p,
                            (#[trigger] final(self).roles@[p]).0,
                        )
                        &&& final(self).roles@[p].0@ == id@
                        &&& final(self).roles@[p].1 == (RoleEntry { name, short_name })
                    },
                Err(e) => e == BuildError::DuplicateKey && final(self).roles@ == old(self).roles@
                    && old(self).as_book().has_role(id@),
            },
    {
        let ghost old_roles = self.roles@;
        let ghost gid = id@;
        let ghost gname = name;
        let ghost gshort = short_name;
        let res = insert_role(&mut self.roles, id, RoleEntry { name, short_name });
        proof {
            if res is Ok {
                let p = choose|p: int|
                    {
                        &&& inserted_key_at(old_roles, self.roles@, p, (#[trigger] self.roles@[p]).0)
                        &&& self.roles@[p].0@ == gid
                        &&& self.roles@[p].1 == (RoleEntry { name: gname, short_name: gshort })
                    };
                assert(inserted_key_at(old_roles, self.roles@, p, self.roles@[p].0));
                assert(self.roles@[p].0@ == gid);
                assert(self.roles@[p].1 == (RoleEntry { name: gname, short_name: gshort }));
            }
        }
        res
    }

    /// Adds a talker speaking as a role; rejects a duplicate talker number.
    /// The role reference is checked at `build`, not here.
    pub fn add_talker(&mut self, talker: u8, role_id: String) -> (r: Result<(), BuildError>)
        requires
            old(self).wf(),
        ensures
            final(self).wf(),
            final(self).roles@ == old(self).roles@,
            final(self).verbs@ == old(self).verbs@,
            final(self).rooms@ == old(self).rooms@,
            match r {
                Ok(()) => !old(self).as_book().has_talker(talker) && exists|p: int|
                    inserted_at(
                        old(self).talkers@,
                        final(self).talkers@,
                        p,
                        talker,
                        (TalkerEntry { role_id }),
                    ),
                Err(e) => e == BuildError::DuplicateKey && final(self).talkers@ == old(
                    self,
                ).talkers@ && old(self).as_book().has_talker(talker),
            },
    {
        let ghost old_talkers = self.talkers@;
        let ghost grole = role_id;
        let res = insert_u8(&mut self.talkers, talker, TalkerEntry { role_id });
        proof {
            if res is Ok {
                let p = choose|p: int|
                    inserted_at(old_talkers, self.talkers@, p, talker, (TalkerEntry { role_id: grole }));
                assert(inserted_at(
                    old_talkers,
                    self.talkers@,
                    p,
                    talker,
                    (TalkerEntry { role_id: grole }),
                ));
            }
        }
        res
    }

    /// Adds a verb; rejects a duplicate verb number.
    pub fn add_verb(&mut self, verb: u8, name: String) -> (r: Result<(), BuildError>)
        requires
            old(self).wf(),
        ensures
            final(self).wf(),
            final(self).roles@ == old(self).roles@,
            final(self).talkers@ == old(self).talkers@,
            final(self).rooms@ == old(self).rooms@,
            match r {
                Ok(()) => !old(self).as_book().has_verb(verb) && exists|p: int|
                    inserted_at(old(self).verbs@, final(self).verbs@, p, verb, (VerbEntry { name })),
                Err(e) => e == BuildError::DuplicateKey && final(self).verbs@ == old(self).verbs@
                    && old(self).as_book().has_verb(verb),
            },
    {
        let ghost old_verbs = self.verbs@;
        let ghost gname = name;
        let res = insert_u8(&mut self.verbs, verb, VerbEntry { name });
        proof {
            if res is Ok {
                let p = choose|p: int|
                    inserted_at(old_verbs, self.verbs@, p, verb, (VerbEntry { name: gname }));
                assert(inserted_at(old_verbs, self.verbs@, p, verb, (VerbEntry { name: gname })));
            }
        }
        res
    }

    /// Adds a room with empty condition and noun tables; rejects a duplicate
    /// room number.
    pub fn add_room(&mut self, room: u16, name: Option<String>) -> (r: Result<(), BuildError>)
        requires
            old(self).wf(),
        ensures
            final(self).wf(),
            final(self).roles@ == old(self).roles@,
            final(self).talkers@ == old(self).talkers@,
            final(self).verbs@ == old(self).verbs@,
            match r {
                Ok(()) => !old(self).as_book().has_room(room) && exists|p: int|
                    {
                        &&& inserted_key_at(old(self).rooms@, final(self).rooms@, p, room)
                        &&& final(self).rooms@[p].1.name == name
                        &&& final(self).rooms@[p].1.conditions@.len() == 0
                        &&& final(self).rooms@[p].1.nouns@.len() == 0
                    },
                Err(e) => e == BuildError::DuplicateKey && final(self).rooms@ == old(self).rooms@
                    && old(self).as_book().has_room(room),
            },
    {
        let entry = RoomEntry { name, conditions: Vec::new(), nouns: Vec::new() };
        let ghost gentry = entry;
        let res = insert_u16(&mut self.rooms, room, entry);
        proof {
            if res is Ok {
                let p = choose|p: int|
                    inserted_at(old(self).rooms@, self.rooms@, p, room, gentry);
                assert(room_sorted(gentry));
                assert forall|i: int|
                    0 <= i < self.rooms@.len() implies room_sorted(
                    #[trigger] self.rooms@[i].1,
                ) by {
                    if i < p {
                        assert(self.rooms@[i] == old(self).rooms@[i]);
                        assert(room_sorted(old(self).rooms@[i].1));
                    } else if i > p {
                        assert(self.rooms@[i] == old(self).rooms@[i - 1]);
                        assert(room_sorted(old(self).rooms@[i - 1].1));
                    }
                }
                assert(inserted_key_at(old(self).rooms@, self.rooms@, p, room));
            }
        }
        res
    }

    /// Adds a condition to a room; the room must already exist, and the
    /// condition number must be new within it.
    pub fn add_condition(&mut self, room: u16, cond: u8, desc: Option<String>) -> (r: Result<
        (),
        BuildError,
    >)
        requires
            old(self).wf(),
        ensures
            final(self).wf(),
            final(self).roles@ == old(self).roles@,
            final(self).talkers@ == old(self).talkers@,
            final(self).verbs@ == old(self).verbs@,
            match r {
                Ok(()) => exists|ri: int, p: int|
                    {
                        &&& updated_at(old(self).rooms@, final(self).rooms@, ri)
                        &&& old(self).rooms@[ri].0 == room
                        &&& final(self).rooms@[ri].1.name == old(self).rooms@[ri].1.name
                        &&& final(self).rooms@[ri].1.nouns == old(self).rooms@[ri].1.nouns
                        &&& inserted_at(
                            old(self).rooms@[ri].1.conditions@,
                            final(self).rooms@[ri].1.conditions@,
                            p,
                            cond,
                            (ConditionEntry { desc }),
                        )
                    },
                Err(BuildError::MissingParent) => final(self).rooms@ == old(self).rooms@ && !old(
                    self,
                ).as_book().has_room(room),
                Err(BuildError::DuplicateKey) => final(self).rooms@ =~= old(self).rooms@ && old(
                    self,
                ).as_book().has_condition(room, cond),
                _ => false,
            },
    {
        let (ri, found) = find_pos_u16(&self.rooms, room);
        if !found {
            proof {
                assert forall|i: int| 0 <= i < self.rooms@.len() implies self.rooms@[i].0
                    != room by {
                    if i > ri {
                        assert(self.rooms@[ri as int].0 < self.rooms@[i].0);
                    }
                }
            }
            return Err(BuildError::MissingParent);
        }
        let ghost old_rooms = self.rooms@;
        let ghost gdesc = desc;
        let mut room_entry = self.rooms.remove(ri);
        let res = insert_u8(&mut room_entry.1.conditions, cond, ConditionEntry { desc });
        let ghost new_entry = room_entry;
        self.rooms.insert(ri, room_entry);
        proof {
            lemma_remove_insert(old_rooms, ri as int, new_entry);
            assert(updated_at(old_rooms, self.rooms@, ri as int));
            assert forall|i: int, j: int|
                0 <= i < j < self.rooms@.len() implies self.rooms@[i].0 < self.rooms@[j].0 by {
                assert(self.rooms@[i].0 == old_rooms[i].0);
                assert(self.rooms@[j].0 == old_rooms[j].0);
                assert(old_rooms[i].0 < old_rooms[j].0);
            }
            if res is Ok {
                let p = choose|p: int|
                    inserted_at(
                        old_rooms[ri as int].1.conditions@,
                        new_entry.1.conditions@,
                        p,
                        cond,
                        (ConditionEntry { desc: gdesc }),
                    );
                assert forall|i: int|
                    0 <= i < self.rooms@.len() implies room_sorted(
                    #[trigger] self.rooms@[i].1,
                ) by {
                    assert(room_sorted(old_rooms[i].1));
                    if i != ri {
                        assert(self.rooms@[i] == old_rooms[i]);
                    } else {
                        assert(self.rooms@[i].1.nouns == old_rooms[i].1.nouns);
                        assert(sorted_u8(self.rooms@[i].1.conditions@));
                    }
                }
                assert(inserted_at(
                    old_rooms[ri as int].1.conditions@,
                    self.rooms@[ri as int].1.conditions@,
                    p,
                    cond,
                    (ConditionEntry { desc: gdesc }),
                ));
            } else {
                assert(new_entry == old_rooms[ri as int]);
                assert(self.rooms@ =~= old_rooms);
                let b = old(self).as_book();
                assert(b.rooms@[ri as int].0 == room);
                assert(b.has_room(room));
                crate::book::lemma_sorted_u16_unique(old_rooms, b.room_index(room), ri as int);
                assert(b.spec_room(room) == old_rooms[ri as int].1);
                let j = choose|j: int|
                    0 <= j < old_rooms[ri as int].1.conditions@.len()
                        && old_rooms[ri as int].1.conditions@[j].0 == cond;
                assert(b.spec_room(room).conditions@[j].0 == cond);
                assert(b.has_condition(room, cond));
            }
        }
        res
    }

    /// Adds a noun with an empty conversation table to a room; the room must
    /// already exist, and the noun number must be new within it.
    pub fn add_noun(&mut self, room: u16, noun: u8, desc: Option<String>) -> (r: Result<
        (),
        BuildError,
    >)
        requires
            old(self).wf(),
        ensures
            final(self).wf(),
            final(self).roles@ == old(self).roles@,
            final(self).talkers@ == old(self).talkers@,
            final(self).verbs@ == old(self).verbs@,
            match r {
                Ok(()) => exists|ri: int, p: int|
                    {
                        &&& updated_at(old(self).rooms@, final(self).rooms@, ri)
                        &&& old(self).rooms@[ri].0 == room
                        &&& final(self).rooms@[ri].1.name == old(self).rooms@[ri].1.name
                        &&& final(self).rooms@[ri].1.conditions == old(
                            self,
                        ).rooms@[ri].1.conditions
                        &&& inserted_key_at(
                            old(self).rooms@[ri].1.nouns@,
                            final(self).rooms@[ri].1.nouns@,
                            p,
                            noun,
                        )
                        &&& final(self).rooms@[ri].1.nouns@[p].1.desc == desc
                        &&& final(self).rooms@[ri].1.nouns@[p].1.conversations@.len() == 0
                    },
                Err(BuildError::MissingParent) => final(self).rooms@ == old(self).rooms@ && !old(
                    self,
                ).as_book().has_room(room),
                Err(BuildError::DuplicateKey) => final(self).rooms@ =~= old(self).rooms@ && old(
                    self,
                ).as_book().has_noun(room, noun),
                _ => false,
            },
    {
        let (ri, found) = find_pos_u16(&self.rooms, room);
        if !found {
            proof {
                assert forall|i: int| 0 <= i < self.rooms@.len() implies self.rooms@[i].0
                    != room by {
                    if i > ri {
                        assert(self.rooms@[ri as int].0 < self.rooms@[i].0);
                    }
                }
            }
            return Err(BuildError::MissingParent);
        }
        let ghost old_rooms = self.rooms@;
        let entry = NounEntry { desc, conversations: Vec::new() };
        let ghost gentry = entry;
        let mut room_entry = self.rooms.remove(ri);
        let res = insert_u8(&mut room_entry.1.nouns, noun, entry);
        let ghost new_entry = room_entry;
        self.rooms.insert(ri, room_entry);
        proof {
            lemma_remove_insert(old_rooms, ri as int, new_entry);
            assert(updated_at(old_rooms, self.rooms@, ri as int));
            assert forall|i: int, j: int|
                0 <= i < j < self.rooms@.len() implies self.rooms@[i].0 < self.rooms@[j].0 by {
                assert(self.rooms@[i].0 == old_rooms[i].0);
                assert(self.rooms@[j].0 == old_rooms[j].0);
                assert(old_rooms[i].0 < old_rooms[j].0);
            }
            if res is Ok {
                let p = choose|p: int|
                    inserted_at(
                        old_rooms[ri as int].1.nouns@,
                        new_entry.1.nouns@,
                        p,
                        noun,
                        gentry,
                    );
                assert forall|i: int|
                    0 <= i < self.rooms@.len() implies room_sorted(
                    #[trigger] self.rooms@[i].1,
                ) by {
                    assert(room_sorted(old_rooms[i].1));
                    if i != ri {
                        assert(self.rooms@[i] == old_rooms[i]);
                    } else {
                        assert(self.rooms@[i].1.conditions == old_rooms[i].1.conditions);
                        assert(sorted_u8(self.rooms@[i].1.nouns@));
                        assert(crate::book::noun_sorted(gentry));
                        assert forall|j: int|
                            0 <= j < self.rooms@[i].1.nouns@.len() implies crate::book::noun_sorted(
                            (#[trigger] self.rooms@[i].1.nouns@[j]).1,
                        ) by {
                            if j < p {
                                assert(self.rooms@[i].1.nouns@[j] == old_rooms[i].1.nouns@[j]);
                                assert(crate::book::noun_sorted(old_rooms[i].1.nouns@[j].1));
                            } else if j > p {
                                assert(self.rooms@[i].1.nouns@[j] == old_rooms[i].1.nouns@[j - 1]);
                                assert(crate::book::noun_sorted(old_rooms[i].1.nouns@[j - 1].1));
                            }
                        }
                    }
                }
                assert(inserted_key_at(
                    old_rooms[ri as int].1.nouns@,
                    self.rooms@[ri as int].1.nouns@,
                    p,
                    noun,
                ));
            } else {
                assert(new_entry == old_rooms[ri as int]);
                assert(self.rooms@ =~= old_rooms);
            }
        }
        res
    }
    /// Adds a conversation with an empty line table to a noun; the room and
    /// noun must already exist, and the key must be new within the noun.
    pub fn add_conversation(&mut self, room: u16, noun: u8, key: ConversationKey) -> (r: Result<
        (),
        BuildError,
    >)
        requires
            old(self).wf(),
        ensures
            final(self).wf(),
            final(self).roles@ == old(self).roles@,
            final(self).talkers@ == old(self).talkers@,
            final(self).verbs@ == old(self).verbs@,
            match r {
                Ok(()) => exists|ri: int, ni: int, p: int|
                    {
                        &&& updated_at(old(self).rooms@, final(self).rooms@, ri)
                        &&& old(self).rooms@[ri].0 == room
                        &&& final(self).rooms@[ri].1.name == old(self).rooms@[ri].1.name
                        &&& final(self).rooms@[ri].1.conditions == old(
                            self,
                        ).rooms@[ri].1.conditions
                        &&& updated_at(
                            old(self).rooms@[ri].1.nouns@,
                            final(self).rooms@[ri].1.nouns@,
                            ni,
                        )
                        &&& old(self).rooms@[ri].1.nouns@[ni].0 == noun
                        &&& final(self).rooms@[ri].1.nouns@[ni].1.desc == old(
                            self,
                        ).rooms@[ri].1.nouns@[ni].1.desc
                        &&& inserted_key_at(
                            old(self).rooms@[ri].1.nouns@[ni].1.conversations@,
                            final(self).rooms@[ri].1.nouns@[ni].1.conversations@,
                            p,
                            key,
                        )
                        &&& final(self).rooms@[ri].1.nouns@[ni].1.conversations@[p].1.lines@.len()
                            == 0
                    },
                Err(BuildError::MissingParent) => final(self).rooms@ == old(self).rooms@ && !old(
                    self,
                ).as_book().has_noun(room, noun),
                Err(BuildError::DuplicateKey) => final(self).rooms@ == old(self).rooms@ && old(
                    self,
                ).as_book().has_conversation(room, noun, key),
                _ => false,
            },
    {
        let (ri, rfound) = find_pos_u16(&self.rooms, room);
        if !rfound {
            proof {
                assert forall|i: int| 0 <= i < self.rooms@.len() implies self.rooms@[i].0
                    != room by {
                    if i > ri {
                        assert(self.rooms@[ri as int].0 < self.rooms@[i].0);
                    }
                }
            }
            return Err(BuildError::MissingParent);
        }
        proof {
            assert(room_sorted(self.rooms@[ri as int].1));
            if self.as_book().has_room(room) {
                crate::book::lemma_sorted_u16_unique(
                    self.rooms@,
                    self.as_book().room_index(room),
                    ri as int,
                );
            }
        }
        let (ni, nfound) = find_pos_u8(&self.rooms[ri].1.nouns, noun);
        if !nfound {
            proof {
                assert forall|j: int|
                    0 <= j < self.rooms@[ri as int].1.nouns@.len()
                    implies self.rooms@[ri as int].1.nouns@[j].0 != noun by {
                    if j > ni {
                        assert(self.rooms@[ri as int].1.nouns@[ni as int].0
                            < self.rooms@[ri as int].1.nouns@[j].0);
                    }
                }
            }
            return Err(BuildError::MissingParent);
        }
        proof {
            assert(crate::book::noun_sorted(self.rooms@[ri as int].1.nouns@[ni as int].1));
        }
        let (ci, cfound) = find_pos_key(&self.rooms[ri].1.nouns[ni].1.conversations, key);
        if cfound {
            proof {
                let b = self.as_book();
                assert(b.rooms@[ri as int].0 == room);
                assert(b.has_room(room));
                assert(b.spec_room(room) == self.rooms@[ri as int].1);
                assert(b.spec_room(room).nouns@[ni as int].0 == noun);
                assert(b.has_noun(room, noun));
                crate::book::lemma_sorted_u8_unique(
                    b.spec_room(room).nouns@,
                    b.noun_index(room, noun),
                    ni as int,
                );
                assert(b.spec_noun(room, noun) == self.rooms@[ri as int].1.nouns@[ni as int].1);
                assert(b.spec_noun(room, noun).conversations@[ci as int].0 == key);
                assert(b.has_conversation(room, noun, key));
            }
            return Err(BuildError::DuplicateKey);
        }
        proof {
            let convs = self.rooms@[ri as int].1.nouns@[ni as int].1.conversations@;
            assert forall|k: int| 0 <= k < convs.len() implies convs[k].0 != key by {
                if k > ci {
                    assert(key_lt(convs[ci as int].0, convs[k].0));
                }
            }
        }
        let ghost old_rooms = self.rooms@;
        let ghost old_nouns = self.rooms@[ri as int].1.nouns@;
        let entry = ConversationEntry { lines: Vec::new() };
        let ghost gentry = entry;
        let mut room_entry = self.rooms.remove(ri);
        let mut noun_entry = room_entry.1.nouns.remove(ni);
        let res = insert_key(&mut noun_entry.1.conversations, key, entry);
        proof {
            if res is Err {
                assert(false);
            }
        }
        let ghost new_noun = noun_entry;
        room_entry.1.nouns.insert(ni, noun_entry);
        let ghost new_entry = room_entry;
        self.rooms.insert(ri, room_entry);
        proof {
            lemma_remove_insert(old_nouns, ni as int, new_noun);
            lemma_remove_insert(old_rooms, ri as int, new_entry);
            assert(updated_at(old_rooms, self.rooms@, ri as int));
            assert(updated_at(old_nouns, self.rooms@[ri as int].1.nouns@, ni as int));
            assert forall|i: int, j: int|
                0 <= i < j < self.rooms@.len() implies self.rooms@[i].0 < self.rooms@[j].0 by {
                assert(self.rooms@[i].0 == old_rooms[i].0);
                assert(self.rooms@[j].0 == old_rooms[j].0);
                assert(old_rooms[i].0 < old_rooms[j].0);
            }
            let p = choose|p: int|
                inserted_at(
                    old_nouns[ni as int].1.conversations@,
                    new_noun.1.conversations@,
                    p,
                    key,
                    gentry,
                );
            assert forall|i: int|
                0 <= i < self.rooms@.len() implies room_sorted(#[trigger] self.rooms@[i].1) by {
                assert(room_sorted(old_rooms[i].1));
                if i != ri {
                    assert(self.rooms@[i] == old_rooms[i]);
                } else {
                    assert(self.rooms@[i].1.conditions == old_rooms[i].1.conditions);
                    assert forall|j: int, j2: int|
                        0 <= j < j2 < self.rooms@[i].1.nouns@.len() implies self.rooms@[i].1.nouns@[j].0
                        < self.rooms@[i].1.nouns@[j2].0 by {
                        assert(self.rooms@[i].1.nouns@[j].0 == old_nouns[j].0);
                        assert(self.rooms@[i].1.nouns@[j2].0 == old_nouns[j2].0);
                        assert(old_nouns[j].0 < old_nouns[j2].0);
                    }
                    assert forall|j: int|
                        0 <= j < self.rooms@[i].1.nouns@.len() implies crate::book::noun_sorted(
                        (#[trigger] self.rooms@[i].1.nouns@[j]).1,
                    ) by {
                        assert(crate::book::noun_sorted(old_nouns[j].1));
                        if j != ni {
                            assert(self.rooms@[i].1.nouns@[j] == old_nouns[j]);
                        } else {
                            assert(sorted_key(new_noun.1.conversations@));
                            assert(crate::book::conv_sorted(gentry));
                            assert forall|k: int|
                                0 <= k < new_noun.1.conversations@.len()
                                implies crate::book::conv_sorted(
                                (#[trigger] new_noun.1.conversations@[k]).1,
                            ) by {
                                if k < p {
                                    assert(new_noun.1.conversations@[k] == old_nouns[ni as int].1.conversations@[k]);
                                    assert(crate::book::conv_sorted(
                                        old_nouns[ni as int].1.conversations@[k].1,
                                    ));
                                } else if k > p {
                                    assert(new_noun.1.conversations@[k] == old_nouns[ni as int].1.conversations@[k
                                        - 1]);
                                    assert(crate::book::conv_sorted(
                                        old_nouns[ni as int].1.conversations@[k - 1].1,
                                    ));
                                }
                            }
                        }
                    }
                }
            }
            assert(inserted_key_at(
                old_nouns[ni as int].1.conversations@,
                self.rooms@[ri as int].1.nouns@[ni as int].1.conversations@,
                p,
                key,
            ));
        }
        res
    }
    /// Adds a dialogue line to a conversation; the room, noun and
    /// conversation must already exist, and the sequence number must be new
    /// within the conversation. The talker reference is checked at `build`.
    pub fn add_line(
        &mut self,
        room: u16,
        noun: u8,
        key: ConversationKey,
        seq_id: u8,
        text: String,
        talker: u8,
    ) -> (r: Result<(), BuildError>)
        requires
            old(self).wf(),
        ensures
            final(self).wf(),
            final(self).roles@ == old(self).roles@,
            final(self).talkers@ == old(self).talkers@,
            final(self).verbs@ == old(self).verbs@,
            match r {
                Ok(()) => exists|ri: int, ni: int, ci: int, p: int|
                    {
                        &&& updated_at(old(self).rooms@, final(self).rooms@, ri)
                        &&& old(self).rooms@[ri].0 == room
                        &&& final(self).rooms@[ri].1.name == old(self).rooms@[ri].1.name
                        &&& final(self).rooms@[ri].1.conditions == old(
                            self,
                        ).rooms@[ri].1.conditions
                        &&& updated_at(
                            old(self).rooms@[ri].1.nouns@,
                            final(self).rooms@[ri].1.nouns@,
                            ni,
                        )
                        &&& old(self).rooms@[ri].1.nouns@[ni].0 == noun
                        &&& final(self).rooms@[ri].1.nouns@[ni].1.desc == old(
                            self,
                        ).rooms@[ri].1.nouns@[ni].1.desc
                        &&& updated_at(
                            old(self).rooms@[ri].1.nouns@[ni].1.conversations@,
                            final(self).rooms@[ri].1.nouns@[ni].1.conversations@,
                            ci,
                        )
                        &&& old(self).rooms@[ri].1.nouns@[ni].1.conversations@[ci].0 == key
                        &&& inserted_at(
                            old(self).rooms@[ri].1.nouns@[ni].1.conversations@[ci].1.lines@,
                            final(self).rooms@[ri].1.nouns@[ni].1.conversations@[ci].1.lines@,
                            p,
                            seq_id,
                            (LineEntry { text, talker }),
                        )
                    },
                Err(BuildError::MissingParent) => final(self).rooms@ == old(self).rooms@ && !old(
                    self,
                ).as_book().has_conversation(room, noun, key),
                Err(BuildError::DuplicateKey) => final(self).rooms@ == old(self).rooms@ && old(
                    self,
                ).as_book().has_line(room, noun, key, seq_id),
                _ => false,
            },
    {
        let (ri, rfound) = find_pos_u16(&self.rooms, room);
        if !rfound {
            proof {
                assert forall|i: int| 0 <= i < self.rooms@.len() implies self.rooms@[i].0
                    != room by {
                    if i > ri {
                        assert(self.rooms@[ri as int].0 < self.rooms@[i].0);
                    }
                }
            }
            return Err(BuildError::MissingParent);
        }
        proof {
            assert(room_sorted(self.rooms@[ri as int].1));
            if self.as_book().has_room(room) {
                crate::book::lemma_sorted_u16_unique(
                    self.rooms@,
                    self.as_book().room_index(room),
                    ri as int,
                );
            }
        }
        let (ni, nfound) = find_pos_u8(&self.rooms[ri].1.nouns, noun);
        if !nfound {
            proof {
                assert forall|j: int|
                    0 <= j < self.rooms@[ri as int].1.nouns@.len()
                    implies self.rooms@[ri as int].1.nouns@[j].0 != noun by {
                    if j > ni {
                        assert(self.rooms@[ri as int].1.nouns@[ni as int].0
                            < self.rooms@[ri as int].1.nouns@[j].0);
                    }
                }
            }
            return Err(BuildError::MissingParent);
        }
        proof {
            assert(crate::book::noun_sorted(self.rooms@[ri as int].1.nouns@[ni as int].1));
            let b = self.as_book();
            if b.has_noun(room, noun) {
                crate::book::lemma_sorted_u8_unique(
                    self.rooms@[ri as int].1.nouns@,
                    b.noun_index(room, noun),
                    ni as int,
                );
            }
        }
        let (ci, cfound) = find_pos_key(&self.rooms[ri].1.nouns[ni].1.conversations, key);
        if !cfound {
            proof {
                let convs = self.rooms@[ri as int].1.nouns@[ni as int].1.conversations@;
                assert forall|k: int| 0 <= k < convs.len() implies convs[k].0 != key by {
                    if k > ci {
                        assert(key_lt(convs[ci as int].0, convs[k].0));
                    }
                }
            }
            return Err(BuildError::MissingParent);
        }
        proof {
            assert(crate::book::conv_sorted(
                self.rooms@[ri as int].1.nouns@[ni as int].1.conversations@[ci as int].1,
            ));
        }
        let (_li, lfound) = find_pos_u8(
            &self.rooms[ri].1.nouns[ni].1.conversations[ci].1.lines,
            seq_id,
        );
        if lfound {
            proof {
                let b = self.as_book();
                assert(b.rooms@[ri as int].0 == room);
                assert(b.has_room(room));
                assert(b.spec_room(room) == self.rooms@[ri as int].1);
                assert(b.spec_room(room).nouns@[ni as int].0 == noun);
                assert(b.has_noun(room, noun));
                assert(b.spec_noun(room, noun) == self.rooms@[ri as int].1.nouns@[ni as int].1);
                assert(b.spec_noun(room, noun).conversations@[ci as int].0 == key);
                assert(b.has_conversation(room, noun, key));
                assert(sorted_key(b.spec_noun(room, noun).conversations@));
                crate::book::lemma_sorted_key_unique(
                    b.spec_noun(room, noun).conversations@,
                    b.conversation_index(room, noun, key),
                    ci as int,
                );
                assert(b.spec_conversation(room, noun, key)
                    == self.rooms@[ri as int].1.nouns@[ni as int].1.conversations@[ci as int].1);
                assert(b.spec_conversation(room, noun, key).lines@[_li as int].0 == seq_id);
                assert(b.has_line(room, noun, key, seq_id));
            }
            return Err(BuildError::DuplicateKey);
        }
        proof {
            let lns = self.rooms@[ri as int].1.nouns@[ni as int].1.conversations@[ci as int].1.lines@;
            assert forall|k: int| 0 <= k < lns.len() implies lns[k].0 != seq_id by {
                if k > _li {
                    assert(lns[_li as int].0 < lns[k].0);
                }
            }
        }
        let ghost old_rooms = self.rooms@;
        let ghost old_nouns = self.rooms@[ri as int].1.nouns@;
        let ghost old_convs = self.rooms@[ri as int].1.nouns@[ni as int].1.conversations@;
        let ghost gentry = (LineEntry { text: text, talker });
        let mut room_entry = self.rooms.remove(ri);
        let mut noun_entry = room_entry.1.nouns.remove(ni);
        let mut conv_entry = noun_entry.1.conversations.remove(ci);
        let res = insert_u8(&mut conv_entry.1.lines, seq_id, LineEntry { text, talker });
        proof {
            if res is Err {
                assert(false);
            }
        }
        let ghost new_conv = conv_entry;
        noun_entry.1.conversations.insert(ci, conv_entry);
        let ghost new_noun = noun_entry;
        room_entry.1.nouns.insert(ni, noun_entry);
        let ghost new_entry = room_entry;
        self.rooms.insert(ri, room_entry);
        proof {
            lemma_remove_insert(old_convs, ci as int, new_conv);
            lemma_remove_insert(old_nouns, ni as int, new_noun);
            lemma_remove_insert(old_rooms, ri as int, new_entry);
            assert(updated_at(old_rooms, self.rooms@, ri as int));
            assert(updated_at(old_nouns, self.rooms@[ri as int].1.nouns@, ni as int));
            assert(updated_at(
                old_convs,
                self.rooms@[ri as int].1.nouns@[ni as int].1.conversations@,
                ci as int,
            ));
            assert forall|i: int, j: int|
                0 <= i < j < self.rooms@.len() implies self.rooms@[i].0 < self.rooms@[j].0 by {
                assert(self.rooms@[i].0 == old_rooms[i].0);
                assert(self.rooms@[j].0 == old_rooms[j].0);
                assert(old_rooms[i].0 < old_rooms[j].0);
            }
            let p = choose|p: int|
                inserted_at(old_convs[ci as int].1.lines@, new_conv.1.lines@, p, seq_id, gentry);
            assert forall|i: int|
                0 <= i < self.rooms@.len() implies room_sorted(#[trigger] self.rooms@[i].1) by {
                assert(room_sorted(old_rooms[i].1));
                if i != ri {
                    assert(self.rooms@[i] == old_rooms[i]);
                } else {
                    assert(self.rooms@[i].1.conditions == old_rooms[i].1.conditions);
                    assert forall|j: int, j2: int|
                        0 <= j < j2 < self.rooms@[i].1.nouns@.len() implies self.rooms@[i].1.nouns@[j].0
                        < self.rooms@[i].1.nouns@[j2].0 by {
                        assert(self.rooms@[i].1.nouns@[j].0 == old_nouns[j].0);
                        assert(self.rooms@[i].1.nouns@[j2].0 == old_nouns[j2].0);
                        assert(old_nouns[j].0 < old_nouns[j2].0);
                    }
                    assert forall|j: int|
                        0 <= j < self.rooms@[i].1.nouns@.len() implies crate::book::noun_sorted(
                        (#[trigger] self.rooms@[i].1.nouns@[j]).1,
                    ) by {
                        assert(crate::book::noun_sorted(old_nouns[j].1));
                        if j != ni {
                            assert(self.rooms@[i].1.nouns@[j] == old_nouns[j]);
                        } else {
                            let new_convs = self.rooms@[i].1.nouns@[j].1.conversations@;
                            assert forall|k: int, k2: int|
                                0 <= k < k2 < new_convs.len() implies key_lt(
                                new_convs[k].0,
                                new_convs[k2].0,
                            ) by {
                                assert(new_convs[k].0 == old_convs[k].0);
                                assert(new_convs[k2].0 == old_convs[k2].0);
                                assert(key_lt(old_convs[k].0, old_convs[k2].0));
                            }
                            assert forall|k: int|
                                0 <= k < new_convs.len() implies crate::book::conv_sorted(
                                (#[trigger] new_convs[k]).1,
                            ) by {
                                assert(crate::book::conv_sorted(old_convs[k].1));
                                if k != ci {
                                    assert(new_convs[k] == old_convs[k]);
                                } else {
                                    assert(sorted_u8(new_conv.1.lines@));
                                }
                            }
                        }
                    }
                }
            }
            assert(inserted_at(
                old_convs[ci as int].1.lines@,
                self.rooms@[ri as int].1.nouns@[ni as int].1.conversations@[ci as int].1.lines@,
                p,
                seq_id,
                gentry,
            ));
        }
        res
    }
}

/// Removing a table entry and reinserting an entry at the same position
/// leaves every other position untouched.
proof fn lemma_remove_insert<K, T>(s: Seq<(K, T)>, i: int, elem: (K, T))
    requires
        0 <= i < s.len(),
    ensures
        ({
            let t = s.remove(i).insert(i, elem);
            &&& t.len() == s.len()
            &&& t[i] == elem
            &&& forall|k: int| 0 <= k < s.len() && k != i ==> t[k] == s[k]
        }),
{
    s.remove_ensures(i);
    s.remove(i).insert_ensures(i, elem);
    let t = s.remove(i).insert(i, elem);
    assert forall|k: int| 0 <= k < s.len() && k != i implies t[k] == s[k] by {
        if k < i {
            assert(t[k] == s.remove(i)[k]);
        } else {
            assert(t[k] == s.remove(i)[(k - 1) + 1 - 1]);
            assert(s.remove(i).insert(i, elem)[(k - 1) + 1] == s.remove(i)[k - 1]);
            assert(s.remove(i)[k - 1] == s[k]);
        }
    }
}

/// The verb and talker references of one conversation all resolve.
pub open spec fn conv_links_ok(b: &Book, key: ConversationKey, c: ConversationEntry) -> bool {
    &&& (key.verb != 0 ==> b.has_verb(key.verb))
    &&& forall|l: int| 0 <= l < c.lines@.len() ==> b.has_talker((#[trigger] c.lines@[l]).1.talker)
}

/// The references of every conversation of one noun all resolve.
pub open spec fn noun_links_ok(b: &Book, n: NounEntry) -> bool {
    forall|k: int|
        0 <= k < n.conversations@.len() ==> conv_links_ok(
            b,
            (#[trigger] n.conversations@[k]).0,
            n.conversations@[k].1,
        )
}

/// The references of every noun of one room all resolve.
pub open spec fn room_links_ok(b: &Book, r: RoomEntry) -> bool {
    forall|j: int| 0 <= j < r.nouns@.len() ==> noun_links_ok(b, (#[trigger] r.nouns@[j]).1)
}

/// Per-room link checks amount to the book-wide link invariant.
proof fn lemma_links_ok_from_rooms(b: &Book)
    requires
        forall|i: int| 0 <= i < b.talkers@.len() ==> b.has_role((#[trigger] b.talkers@[i]).1.role_id@),
        forall|i: int| 0 <= i < b.rooms@.len() ==> room_links_ok(b, (#[trigger] b.rooms@[i]).1),
    ensures
        b.links_ok(),
{
    assert forall|i: int, j: int, k: int|
        {
            &&& 0 <= i < b.rooms@.len()
            &&& 0 <= j < b.rooms@[i].1.nouns@.len()
            &&& 0 <= k < b.rooms@[i].1.nouns@[j].1.conversations@.len()
        } implies {
        let key = (#[trigger] b.rooms@[i].1.nouns@[j].1.conversations@[k]).0;
        key.verb != 0 ==> b.has_verb(key.verb)
    } by {
        assert(room_links_ok(b, b.rooms@[i].1));
        assert(noun_links_ok(b, b.rooms@[i].1.nouns@[j].1));
        assert(conv_links_ok(
            b,
            b.rooms@[i].1.nouns@[j].1.conversations@[k].0,
            b.rooms@[i].1.nouns@[j].1.conversations@[k].1,
        ));
    }
    assert forall|i: int, j: int, k: int, l: int|
        {
            &&& 0 <= i < b.rooms@.len()
            &&& 0 <= j < b.rooms@[i].1.nouns@.len()
            &&& 0 <= k < b.rooms@[i].1.nouns@[j].1.conversations@.len()
            &&& 0 <= l < b.rooms@[i].1.nouns@[j].1.conversations@[k].1.lines@.len()
        } implies b.has_talker(
        (#[trigger] b.rooms@[i].1.nouns@[j].1.conversations@[k].1.lines@[l]).1.talker,
    ) by {
        assert(room_links_ok(b, b.rooms@[i].1));
        assert(noun_links_ok(b, b.rooms@[i].1.nouns@[j].1));
        assert(conv_links_ok(
            b,
            b.rooms@[i].1.nouns@[j].1.conversations@[k].0,
            b.rooms@[i].1.nouns@[j].1.conversations@[k].1,
        ));
    }
}

impl BookBuilder {
    /// Finishes the book: checks that every talker resolves to a role, every
    /// nonzero conversation verb to a verb entry, and every line's talker to
    /// a talker entry. Succeeds exactly when every cross-reference resolves;
    /// a partial book is never exposed.
    pub fn build(self) -> (r: Result<Book, BuildError>)
        requires
            self.wf(),
        ensures
            r is Ok <==> self.as_book().links_ok(),
            match r {
                Ok(book) => book == self.as_book() && book.wf(),
                Err(e) => {
                    let b = self.as_book();
                    match e {
                        BuildError::DanglingRole => exists|i: int|
                            0 <= i < b.talkers@.len() && !b.has_role(
                                (#[trigger] b.talkers@[i]).1.role_id@,
                            ),
                        BuildError::DanglingVerb => exists|i: int, j: int, k: int|
                            {
                                &&& 0 <= i < b.rooms@.len()
                                &&& 0 <= j < b.rooms@[i].1.nouns@.len()
                                &&& 0 <= k < b.rooms@[i].1.nouns@[j].1.conversations@.len()
                                &&& (#[trigger] b.rooms@[i].1.nouns@[j].1.conversations@[k]).0.verb
                                    != 0
                                &&& !b.has_verb(
                                    b.rooms@[i].1.nouns@[j].1.conversations@[k].0.verb,
                                )
                            },
                        BuildError::DanglingTalker => exists|i: int, j: int, k: int, l: int|
                            {
                                &&& 0 <= i < b.rooms@.len()
                                &&& 0 <= j < b.rooms@[i].1.nouns@.len()
                                &&& 0 <= k < b.rooms@[i].1.nouns@[j].1.conversations@.len()
                                &&& 0 <= l
                                    < b.rooms@[i].1.nouns@[j].1.conversations@[k].1.lines@.len()
                                &&& !b.has_talker(
                                    (#[trigger] b.rooms@[i].1.nouns@[j].1.conversations@[k].1.lines@[l]).1.talker,
                                )
                            },
                        _ => false,
                    }
                },
            },
    {
        let BookBuilder { roles, talkers, verbs, rooms } = self;
        let book = Book { roles, talkers, verbs, rooms };
        let mut t: usize = 0;
        while t < book.talkers.len()
            invariant
                book == self.as_book(),
                t <= book.talkers@.len(),
                forall|i: int|
                    0 <= i < t ==> book.has_role((#[trigger] book.talkers@[i]).1.role_id@),
            decreases book.talkers@.len() - t,
        {
            match book.find_role(&book.talkers[t].1.role_id) {
                None => {
                    proof {
                        assert(!book.has_role(book.talkers@[t as int].1.role_id@));
                    }
                    return Err(BuildError::DanglingRole);
                },
                Some(_) => {},
            }
            t = t + 1;
        }
        let mut i: usize = 0;
        while i < book.rooms.len()
            invariant
                book == self.as_book(),
                self.wf(),
                i <= book.rooms@.len(),
                forall|t2: int|
                    0 <= t2 < book.talkers@.len() ==> book.has_role(
                        (#[trigger] book.talkers@[t2]).1.role_id@,
                    ),
                forall|i2: int| 0 <= i2 < i ==> room_links_ok(&book, (#[trigger] book.rooms@[i2]).1),
            decreases book.rooms@.len() - i,
        {
            let mut j: usize = 0;
            while j < book.rooms[i].1.nouns.len()
                invariant
                    book == self.as_book(),
                    self.wf(),
                    i < book.rooms@.len(),
                    j <= book.rooms@[i as int].1.nouns@.len(),
                    forall|j2: int|
                        0 <= j2 < j ==> noun_links_ok(
                            &book,
                            (#[trigger] book.rooms@[i as int].1.nouns@[j2]).1,
                        ),
                decreases book.rooms@[i as int].1.nouns@.len() - j,
            {
                let mut k: usize = 0;
                while k < book.rooms[i].1.nouns[j].1.conversations.len()
                    invariant
                        book == self.as_book(),
                        self.wf(),
                        i < book.rooms@.len(),
                        j < book.rooms@[i as int].1.nouns@.len(),
                        k <= book.rooms@[i as int].1.nouns@[j as int].1.conversations@.len(),
                        forall|k2: int|
                            0 <= k2 < k ==> conv_links_ok(
                                &book,
                                (#[trigger] book.rooms@[i as int].1.nouns@[j as int].1.conversations@[k2]).0,
                                book.rooms@[i as int].1.nouns@[j as int].1.conversations@[k2].1,
                            ),
                    decreases book.rooms@[i as int].1.nouns@[j as int].1.conversations@.len() - k,
                {
                    let key = book.rooms[i].1.nouns[j].1.conversations[k].0;
                    if key.verb != 0 {
                        match book.find_verb(key.verb) {
                            None => {
                                proof {
                                    assert(book.rooms@[i as int].1.nouns@[j as int].1.conversations@[k as int].0
                                        == key);
                                    assert(!book.has_verb(key.verb));
                                }
                                return Err(BuildError::DanglingVerb);
                            },
                            Some(_) => {},
                        }
                    }
                    let mut l: usize = 0;
                    while l < book.rooms[i].1.nouns[j].1.conversations[k].1.lines.len()
                        invariant
                            book == self.as_book(),
                            self.wf(),
                            i < book.rooms@.len(),
                            j < book.rooms@[i as int].1.nouns@.len(),
                            k < book.rooms@[i as int].1.nouns@[j as int].1.conversations@.len(),
                            l
                                <= book.rooms@[i as int].1.nouns@[j as int].1.conversations@[k as int].1.lines@.len(),
                            forall|l2: int|
                                0 <= l2 < l ==> book.has_talker(
                                    (#[trigger] book.rooms@[i as int].1.nouns@[j as int].1.conversations@[k as int].1.lines@[l2]).1.talker,
                                ),
                        decreases
                                book.rooms@[i as int].1.nouns@[j as int].1.conversations@[k as int].1.lines@.len()
                                    - l,
                    {
                        match book.find_talker(
                            book.rooms[i].1.nouns[j].1.conversations[k].1.lines[l].1.talker,
                        ) {
                            None => {
                                proof {
                                    assert(!book.has_talker(
                                        book.rooms@[i as int].1.nouns@[j as int].1.conversations@[k as int].1.lines@[l as int].1.talker,
                                    ));
                                }
                                return Err(BuildError::DanglingTalker);
                            },
                            Some(_) => {},
                        }
                        l = l + 1;
                    }
                    proof {
                        assert(conv_links_ok(
                            &book,
                            book.rooms@[i as int].1.nouns@[j as int].1.conversations@[k as int].0,
                            book.rooms@[i as int].1.nouns@[j as int].1.conversations@[k as int].1,
                        ));
                    }
                    k = k + 1;
                }
                proof {
                    assert(noun_links_ok(&book, book.rooms@[i as int].1.nouns@[j as int].1));
                }
                j = j + 1;
            }
            proof {
                assert(room_links_ok(&book, book.rooms@[i as int].1));
            }
            i = i + 1;
        }
        proof {
            lemma_links_ok_from_rooms(&book);
        }
        Ok(book)
    }
}

} // verus!
