//! The storage engine: three independently keyed collections (users,
//! locations, records), each entry a codec record keyed by entity id.

use vstd::prelude::*;
use crate::store::{Db, Tree, StorageError, tree_view, pair_keys, open_db, open_tree};
use crate::codec::{user_enc, user_dec, location_enc, location_dec, record_enc, record_dec,
    encode_user, decode_user, encode_location, decode_location, encode_record, decode_record};
use crate::models::{User, UserView, UserRole, Location, LocationView, AttendanceRecord,
    RecordView, valid_location};

verus! {

/// The view `uv` is stored somewhere in `m`.
pub open spec fn user_in(m: Map<Seq<char>, Seq<char>>, uv: UserView) -> bool {
    exists|k: Seq<char>| #[trigger] m.contains_key(k) && user_dec(m[k]) == Some(uv)
}

/// The view `lv` is stored somewhere in `m`.
pub open spec fn loc_in(m: Map<Seq<char>, Seq<char>>, lv: LocationView) -> bool {
    exists|k: Seq<char>| #[trigger] m.contains_key(k) && location_dec(m[k]) == Some(lv)
}

/// The view `rv` is stored somewhere in `m`.
pub open spec fn rec_in(m: Map<Seq<char>, Seq<char>>, rv: RecordView) -> bool {
    exists|k: Seq<char>| #[trigger] m.contains_key(k) && record_dec(m[k]) == Some(rv)
}

/// Some stored user carries this username.
pub open spec fn has_username(m: Map<Seq<char>, Seq<char>>, name: Seq<char>) -> bool {
    exists|k: Seq<char>| #[trigger] m.contains_key(k) && (user_dec(m[k]) matches Some(u)
        && u.username == name)
}

/// Every stored user sits under its own id.
pub open spec fn well_keyed(m: Map<Seq<char>, Seq<char>>) -> bool {
    forall|k: Seq<char>| #[trigger] m.contains_key(k) ==> (user_dec(m[k]) matches Some(u) ==> u.id
        == k)
}

/// Every stored location sits under its own id.
pub open spec fn loc_well_keyed(m: Map<Seq<char>, Seq<char>>) -> bool {
    forall|k: Seq<char>|
        #[trigger] m.contains_key(k) ==> (location_dec(m[k]) matches Some(l) ==> l.id == k)
}

/// Every stored record sits under its own id.
pub open spec fn rec_well_keyed(m: Map<Seq<char>, Seq<char>>) -> bool {
    forall|k: Seq<char>|
        #[trigger] m.contains_key(k) ==> (record_dec(m[k]) matches Some(a) ==> a.id == k)
}

/// No two stored entries decode to users sharing a username: the
/// caller-side uniqueness invariant of the data model.
pub open spec fn unique_usernames(m: Map<Seq<char>, Seq<char>>) -> bool {
    forall|k1: Seq<char>, k2: Seq<char>|
        #[trigger] m.contains_key(k1) && #[trigger] m.contains_key(k2) && (user_dec(m[k1])
            matches Some(u1) && (user_dec(m[k2]) matches Some(u2) && u1.username == u2.username))
            ==> k1 == k2
}

/// The keys whose stored user carries this username.
pub open spec fn keys_with_username(m: Map<Seq<char>, Seq<char>>, name: Seq<char>) -> Set<
    Seq<char>,
> {
    Set::new(|k: Seq<char>| m.contains_key(k) && (user_dec(m[k]) matches Some(u) && u.username
        == name))
}

/// The id `aid` belongs to a stored user carrying the bootstrap
/// username.
pub open spec fn admin_named(m: Map<Seq<char>, Seq<char>>, aid: Seq<char>) -> bool {
    exists|k: Seq<char>|
        #[trigger] m.contains_key(k) && (user_dec(m[k]) matches Some(a) && a.username == "admin"@
            && a.id == aid)
}

/// A stored user the migration sweep rewrites: a regular user with no
/// owning admin yet.
pub open spec fn needs_migration(o: Option<UserView>) -> bool {
    o matches Some(u) && u.role == UserRole::User && u.admin_id is None
}


/// Every stored user decodes and appears in `us`.
pub open spec fn all_users_listed(m: Map<Seq<char>, Seq<char>>, us: Seq<User>) -> bool {
    forall|k: Seq<char>|
        #[trigger] m.contains_key(k) ==> user_dec(m[k]) is Some && (user_dec(m[k]) matches Some(u)
            ==> exists|q: int| 0 <= q < us.len() && us[q]@ == u)
}

/// Every stored location decodes and appears in `ls`.
pub open spec fn all_locations_listed(m: Map<Seq<char>, Seq<char>>, ls: Seq<Location>) -> bool {
    forall|k: Seq<char>|
        #[trigger] m.contains_key(k) ==> location_dec(m[k]) is Some && (location_dec(m[k])
            matches Some(l) ==> exists|q: int| 0 <= q < ls.len() && ls[q]@ == l)
}

/// Every stored record decodes and appears in `rs`.
pub open spec fn all_records_listed(m: Map<Seq<char>, Seq<char>>, rs: Seq<AttendanceRecord>) -> bool {
    forall|k: Seq<char>|
        #[trigger] m.contains_key(k) ==> record_dec(m[k]) is Some && (record_dec(m[k])
            matches Some(a) ==> exists|q: int| 0 <= q < rs.len() && rs[q]@ == a)
}

/// Every stored record of this user appears in `rs`.
pub open spec fn user_records_listed(
    m: Map<Seq<char>, Seq<char>>,
    uid: Seq<char>,
    rs: Seq<AttendanceRecord>,
) -> bool {
    forall|k: Seq<char>|
        #[trigger] m.contains_key(k) ==> record_dec(m[k]) is Some && (record_dec(m[k])
            matches Some(a) ==> (a.user_id == uid ==> exists|q: int|
            0 <= q < rs.len() && rs[q]@ == a))
}

/// Every entry of `m0` that the migration sweep would not rewrite,
/// except possibly the one key `kk`, survives byte-for-byte into `m1`.
pub open spec fn preserved_except(
    m0: Map<Seq<char>, Seq<char>>,
    m1: Map<Seq<char>, Seq<char>>,
    kk: Seq<char>,
) -> bool {
    forall|k: Seq<char>|
        #[trigger] m0.contains_key(k) && user_dec(m0[k]) is Some && !needs_migration(
            user_dec(m0[k]),
        ) && k != kk ==> m1.contains_key(k) && m1[k] == m0[k]
}

/// The storage engine: one keyspace per entity kind.
pub struct Database {
    users: Tree,
    locations: Tree,
    records: Tree,
}

impl Database {
    /// Contents of the user keyspace.
    pub closed spec fn users_map(self) -> Map<Seq<char>, Seq<char>> {
        tree_view(self.users)
    }

    /// Contents of the location keyspace.
    pub closed spec fn locations_map(self) -> Map<Seq<char>, Seq<char>> {
        tree_view(self.locations)
    }

    /// Contents of the record keyspace.
    pub closed spec fn records_map(self) -> Map<Seq<char>, Seq<char>> {
        tree_view(self.records)
    }

    /// Opens (creating as needed) the store rooted at `path` with its
    /// three keyspaces.
    pub fn new(path: &str) -> (r: Result<Database, StorageError>) {
        let db = open_db(path)?;
        let users = open_tree(&db, "users")?;
        let locations = open_tree(&db, "locations")?;
        let records = open_tree(&db, "records")?;
        Ok(Database { users, locations, records })
    }

    /// Writes `user` under its id, overwriting any previous version.
    pub fn save_user(&mut self, user: &User) -> (r: Result<(), StorageError>)
        ensures
            r is Ok ==> final(self).users_map() == old(self).users_map().insert(
                user.id@,
                user_enc(user@),
            ),
            r is Err ==> final(self).users_map() == old(self).users_map() || final(self).users_map() == old(self).users_map().insert(user.id@, user_enc(user@)),
            well_keyed(old(self).users_map()) ==> well_keyed(final(self).users_map()),
            final(self).locations_map() == old(self).locations_map(),
            final(self).records_map() == old(self).records_map(),
    {
        let v = encode_user(user);
        let r = self.users.put(&user.id, &v);
        proof {
            crate::codec::lemma_user_round_trip(user@);
        }
        r
    }

    /// Point lookup of a user by id.
    pub fn get_user(&self, id: &String) -> (r: Result<Option<User>, StorageError>)
        ensures
            r matches Ok(Some(u)) ==> self.users_map().contains_key(id@) && user_dec(
                self.users_map()[id@],
            ) == Some(u@),
            r matches Ok(o) && o is None ==> !self.users_map().contains_key(id@),
    {
        match self.users.get(id) {
            Ok(Some(v)) => match decode_user(&v) {
                Some(u) => Ok(Some(u)),
                None => Err(StorageError),
            },
            Ok(None) => Ok(None),
            Err(e) => Err(e),
        }
    }

    /// Full scan for a user with exactly this username.
    pub fn get_user_by_username(&self, username: &String) -> (r: Result<
        Option<User>,
        StorageError,
    >)
        ensures
            r matches Ok(Some(u)) ==> user_in(self.users_map(), u@) && u@.username == username@,
            r matches Ok(o) && o is None ==> !has_username(self.users_map(), username@) && (
            forall|k: Seq<char>|
                #[trigger] self.users_map().contains_key(k) ==> user_dec(self.users_map()[k])
                    is Some),
    {
        let pairs = match self.users.scan() {
            Ok(p) => p,
            Err(e) => {
                return Err(e);
            },
        };
        let n = pairs.len();
        let mut i: usize = 0;
        while i < n
            invariant
                n == pairs@.len(),
                i <= n,
                forall|q: int|
                    0 <= q < n ==> self.users_map().contains_key((#[trigger] pairs@[q]).0@)
                        && pairs@[q].1@ == self.users_map()[pairs@[q].0@],
                forall|k: Seq<char>|
                    self.users_map().contains_key(k) ==> #[trigger] pair_keys(pairs@).contains(k),
                forall|q: int|
                    0 <= q < i ==> user_dec((#[trigger] pairs@[q]).1@) is Some && (user_dec(
                        pairs@[q].1@,
                    ) matches Some(u) ==> u.username != username@),
            decreases n - i,
        {
            let p = &pairs[i];
            match decode_user(&p.1) {
                Some(u) => {
                    if u.username == *username {
                        return Ok(Some(u));
                    }
                },
                None => {
                    return Err(StorageError);
                },
            }
            i = i + 1;
        }
        proof {
            assert forall|k: Seq<char>| #[trigger] self.users_map().contains_key(k) implies
                user_dec(self.users_map()[k]) is Some && !(user_dec(self.users_map()[k])
                matches Some(u) && u.username == username@) by {
                assert(pair_keys(pairs@).contains(k));
                let q = choose|q: int| 0 <= q < pair_keys(pairs@).len() && pair_keys(pairs@)[q]
                    == k;
                assert(pairs@[q].0@ == k);
                assert(pairs@[q].1@ == self.users_map()[k]);
            }
        }
        Ok(None)
    }

    /// Full scan of all stored users, in storage order.
    pub fn get_all_users(&self) -> (r: Result<Vec<User>, StorageError>)
        ensures
            r matches Ok(us) ==> forall|q: int|
                0 <= q < us@.len() ==> user_in(self.users_map(), (#[trigger] us@[q])@),
            r matches Ok(us) ==> all_users_listed(self.users_map(), us@),
            r matches Ok(us) ==> (well_keyed(self.users_map()) ==> forall|q1: int, q2: int|
                0 <= q1 < q2 < us@.len() ==> crate::store::lex_lt(
                    (#[trigger] us@[q1])@.id,
                    (#[trigger] us@[q2])@.id,
                ) && us@[q1]@ != us@[q2]@),
    {
        let pairs = match self.users.scan() {
            Ok(p) => p,
            Err(e) => {
                return Err(e);
            },
        };
        let n = pairs.len();
        let mut out: Vec<User> = Vec::new();
        let mut i: usize = 0;
        while i < n
            invariant
                n == pairs@.len(),
                out.len() == i,
                i <= n,
                forall|q: int|
                    0 <= q < n ==> self.users_map().contains_key((#[trigger] pairs@[q]).0@)
                        && pairs@[q].1@ == self.users_map()[pairs@[q].0@],
                forall|k: Seq<char>|
                    self.users_map().contains_key(k) ==> #[trigger] pair_keys(pairs@).contains(k),
                forall|q: int|
                    0 <= q < i ==> user_dec((#[trigger] pairs@[q]).1@) is Some && (user_dec(
                        pairs@[q].1@,
                    ) matches Some(u) ==> out@[q]@ == u),
            decreases n - i,
        {
            let p = &pairs[i];
            match decode_user(&p.1) {
                Some(u) => {
                    out.push(u);
                },
                None => {
                    return Err(StorageError);
                },
            }
            i = i + 1;
        }
        proof {
            assert forall|q: int| 0 <= q < out.len() implies user_in(
                self.users_map(),
                (#[trigger] out@[q])@,
            ) by {
                let kk = pairs@[q].0@;
                assert(self.users_map().contains_key(kk));
                assert(user_dec(self.users_map()[kk]) == Some(out@[q]@));
            }
            assert forall|k: Seq<char>| #[trigger] self.users_map().contains_key(k) implies
                user_dec(self.users_map()[k]) is Some && (user_dec(self.users_map()[k])
                matches Some(u) ==> exists|q: int| 0 <= q < out@.len() && out@[q]@ == u) by {
                assert(pair_keys(pairs@).contains(k));
                let q = choose|q: int| 0 <= q < pair_keys(pairs@).len() && pair_keys(pairs@)[q]
                    == k;
                assert(pairs@[q].0@ == k);
                assert(pairs@[q].1@ == self.users_map()[k]);
                assert(user_dec(self.users_map()[k]) matches Some(u) ==> out@[q]@ == u);
            }
            assert(all_users_listed(self.users_map(), out@));
            if well_keyed(self.users_map()) {
                assert forall|q1: int, q2: int| 0 <= q1 < q2 < out@.len() implies
                    crate::store::lex_lt((#[trigger] out@[q1])@.id, (#[trigger] out@[q2])@.id)
                    && out@[q1]@ != out@[q2]@ by {
                    assert(out@[q1]@.id == pairs@[q1].0@);
                    assert(out@[q2]@.id == pairs@[q2].0@);
                    crate::store::lemma_lex_lt_ne(out@[q1]@.id, out@[q2]@.id);
                }
            }
        }
        Ok(out)
    }

    /// Deletes a user by id; deleting an absent id succeeds.
    pub fn delete_user(&mut self, id: &String) -> (r: Result<(), StorageError>)
        ensures
            r is Ok ==> final(self).users_map() == old(self).users_map().remove(id@),
            r is Err ==> final(self).users_map() == old(self).users_map() || final(self).users_map() == old(self).users_map().remove(id@),
            well_keyed(old(self).users_map()) ==> well_keyed(final(self).users_map()),
            final(self).locations_map() == old(self).locations_map(),
            final(self).records_map() == old(self).records_map(),
    {
        self.users.del(id)
    }

    /// Writes `location` under its id, overwriting any previous version.
    pub fn save_location(&mut self, location: &Location) -> (r: Result<(), StorageError>)
        ensures
            r is Ok ==> final(self).locations_map() == old(self).locations_map().insert(
                location.id@,
                location_enc(location@),
            ),
            r is Err ==> final(self).locations_map() == old(self).locations_map() || final(self).locations_map()
                == old(self).locations_map().insert(location.id@, location_enc(location@)),
            final(self).users_map() == old(self).users_map(),
            final(self).records_map() == old(self).records_map(),
    {
        let v = encode_location(location);
        self.locations.put(&location.id, &v)
    }

    /// Point lookup of a location by id.
    pub fn get_location(&self, id: &String) -> (r: Result<Option<Location>, StorageError>)
        ensures
            r matches Ok(Some(l)) ==> self.locations_map().contains_key(id@) && location_dec(
                self.locations_map()[id@],
            ) == Some(l@),
            r matches Ok(o) && o is None ==> !self.locations_map().contains_key(id@),
    {
        match self.locations.get(id) {
            Ok(Some(v)) => match decode_location(&v) {
                Some(l) => Ok(Some(l)),
                None => Err(StorageError),
            },
            Ok(None) => Ok(None),
            Err(e) => Err(e),
        }
    }

    /// Full scan of all stored locations, in storage order.
    pub fn get_all_locations(&self) -> (r: Result<Vec<Location>, StorageError>)
        ensures
            r matches Ok(ls) ==> forall|q: int|
                0 <= q < ls@.len() ==> loc_in(self.locations_map(), (#[trigger] ls@[q])@),
            r matches Ok(ls) ==> all_locations_listed(self.locations_map(), ls@),
            r matches Ok(ls) ==> (loc_well_keyed(self.locations_map()) ==> forall|q1: int, q2: int|
                0 <= q1 < q2 < ls@.len() ==> crate::store::lex_lt(
                    (#[trigger] ls@[q1])@.id,
                    (#[trigger] ls@[q2])@.id,
                ) && ls@[q1]@ != ls@[q2]@),
    {
        let pairs = match self.locations.scan() {
            Ok(p) => p,
            Err(e) => {
                return Err(e);
            },
        };
        let n = pairs.len();
        let mut out: Vec<Location> = Vec::new();
        let mut i: usize = 0;
        while i < n
            invariant
                n == pairs@.len(),
                out.len() == i,
                i <= n,
                forall|q: int|
                    0 <= q < n ==> self.locations_map().contains_key((#[trigger] pairs@[q]).0@)
                        && pairs@[q].1@ == self.locations_map()[pairs@[q].0@],
                forall|k: Seq<char>|
                    self.locations_map().contains_key(k) ==> #[trigger] pair_keys(
                        pairs@,
                    ).contains(k),
                forall|q: int|
                    0 <= q < i ==> location_dec((#[trigger] pairs@[q]).1@) is Some && (
                    location_dec(pairs@[q].1@) matches Some(l) ==> out@[q]@ == l),
            decreases n - i,
        {
            let p = &pairs[i];
            match decode_location(&p.1) {
                Some(l) => {
                    out.push(l);
                },
                None => {
                    return Err(StorageError);
                },
            }
            i = i + 1;
        }
        proof {
            assert forall|q: int| 0 <= q < out.len() implies loc_in(
                self.locations_map(),
                (#[trigger] out@[q])@,
            ) by {
                let kk = pairs@[q].0@;
                assert(self.locations_map().contains_key(kk));
                assert(location_dec(self.locations_map()[kk]) == Some(out@[q]@));
            }
            assert forall|k: Seq<char>| #[trigger] self.locations_map().contains_key(k) implies
                location_dec(self.locations_map()[k]) is Some && (location_dec(
                self.locations_map()[k],
            ) matches Some(l) ==> exists|q: int| 0 <= q < out@.len() && out@[q]@ == l) by {
                assert(pair_keys(pairs@).contains(k));
                let q = choose|q: int| 0 <= q < pair_keys(pairs@).len() && pair_keys(pairs@)[q]
                    == k;
                assert(pairs@[q].0@ == k);
                assert(pairs@[q].1@ == self.locations_map()[k]);
                assert(location_dec(self.locations_map()[k]) matches Some(l) ==> out@[q]@ == l);
            }
            assert(all_locations_listed(self.locations_map(), out@));
            if loc_well_keyed(self.locations_map()) {
                assert forall|q1: int, q2: int| 0 <= q1 < q2 < out@.len() implies
                    crate::store::lex_lt((#[trigger] out@[q1])@.id, (#[trigger] out@[q2])@.id)
                    && out@[q1]@ != out@[q2]@ by {
                    assert(out@[q1]@.id == pairs@[q1].0@);
                    assert(out@[q2]@.id == pairs@[q2].0@);
                    crate::store::lemma_lex_lt_ne(out@[q1]@.id, out@[q2]@.id);
                }
            }
        }
        Ok(out)
    }

    /// Deletes a location by id; deleting an absent id succeeds.
    pub fn delete_location(&mut self, id: &String) -> (r: Result<(), StorageError>)
        ensures
            r is Ok ==> final(self).locations_map() == old(self).locations_map().remove(id@),
            r is Err ==> final(self).locations_map() == old(self).locations_map() || final(self).locations_map()
                == old(self).locations_map().remove(id@),
            final(self).users_map() == old(self).users_map(),
            final(self).records_map() == old(self).records_map(),
    {
        self.locations.del(id)
    }

    /// Writes `record` under its id, overwriting any previous version.
    pub fn save_record(&mut self, record: &AttendanceRecord) -> (r: Result<(), StorageError>)
        ensures
            r is Ok ==> final(self).records_map() == old(self).records_map().insert(
                record.id@,
                record_enc(record@),
            ),
            r is Err ==> final(self).records_map() == old(self).records_map() || final(self).records_map()
                == old(self).records_map().insert(record.id@, record_enc(record@)),
            final(self).users_map() == old(self).users_map(),
            final(self).locations_map() == old(self).locations_map(),
    {
        let v = encode_record(record);
        self.records.put(&record.id, &v)
    }

    /// Full scan of all stored attendance records, in storage order.
    pub fn get_all_records(&self) -> (r: Result<Vec<AttendanceRecord>, StorageError>)
        ensures
            r matches Ok(rs) ==> forall|q: int|
                0 <= q < rs@.len() ==> rec_in(self.records_map(), (#[trigger] rs@[q])@),
            r matches Ok(rs) ==> all_records_listed(self.records_map(), rs@),
            r matches Ok(rs) ==> (rec_well_keyed(self.records_map()) ==> forall|q1: int, q2: int|
                0 <= q1 < q2 < rs@.len() ==> crate::store::lex_lt(
                    (#[trigger] rs@[q1])@.id,
                    (#[trigger] rs@[q2])@.id,
                ) && rs@[q1]@ != rs@[q2]@),
    {
        let pairs = match self.records.scan() {
            Ok(p) => p,
            Err(e) => {
                return Err(e);
            },
        };
        let n = pairs.len();
        let mut out: Vec<AttendanceRecord> = Vec::new();
        let mut i: usize = 0;
        while i < n
            invariant
                n == pairs@.len(),
                out.len() == i,
                i <= n,
                forall|q: int|
                    0 <= q < n ==> self.records_map().contains_key((#[trigger] pairs@[q]).0@)
                        && pairs@[q].1@ == self.records_map()[pairs@[q].0@],
                forall|k: Seq<char>|
                    self.records_map().contains_key(k) ==> #[trigger] pair_keys(
                        pairs@,
                    ).contains(k),
                forall|q: int|
                    0 <= q < i ==> record_dec((#[trigger] pairs@[q]).1@) is Some && (record_dec(
                        pairs@[q].1@,
                    ) matches Some(a) ==> out@[q]@ == a),
            decreases n - i,
        {
            let p = &pairs[i];
            match decode_record(&p.1) {
                Some(a) => {
                    out.push(a);
                },
                None => {
                    return Err(StorageError);
                },
            }
            i = i + 1;
        }
        proof {
            assert forall|q: int| 0 <= q < out.len() implies rec_in(
                self.records_map(),
                (#[trigger] out@[q])@,
            ) by {
                let kk = pairs@[q].0@;
                assert(self.records_map().contains_key(kk));
                assert(record_dec(self.records_map()[kk]) == Some(out@[q]@));
            }
            assert forall|k: Seq<char>| #[trigger] self.records_map().contains_key(k) implies
                record_dec(self.records_map()[k]) is Some && (record_dec(self.records_map()[k])
                matches Some(a) ==> exists|q: int| 0 <= q < out@.len() && out@[q]@ == a) by {
                assert(pair_keys(pairs@).contains(k));
                let q = choose|q: int| 0 <= q < pair_keys(pairs@).len() && pair_keys(pairs@)[q]
                    == k;
                assert(pairs@[q].0@ == k);
                assert(pairs@[q].1@ == self.records_map()[k]);
                assert(record_dec(self.records_map()[k]) matches Some(a) ==> out@[q]@ == a);
            }
            assert(all_records_listed(self.records_map(), out@));
            if rec_well_keyed(self.records_map()) {
                assert forall|q1: int, q2: int| 0 <= q1 < q2 < out@.len() implies
                    crate::store::lex_lt((#[trigger] out@[q1])@.id, (#[trigger] out@[q2])@.id)
                    && out@[q1]@ != out@[q2]@ by {
                    assert(out@[q1]@.id == pairs@[q1].0@);
                    assert(out@[q2]@.id == pairs@[q2].0@);
                    crate::store::lemma_lex_lt_ne(out@[q1]@.id, out@[q2]@.id);
                }
            }
        }
        Ok(out)
    }

    /// Full scan of the attendance records of one user.
    pub fn get_records_by_user(&self, user_id: &String) -> (r: Result<
        Vec<AttendanceRecord>,
        StorageError,
    >)
        ensures
            r matches Ok(rs) ==> forall|q: int|
                0 <= q < rs@.len() ==> rec_in(self.records_map(), (#[trigger] rs@[q])@)
                    && rs@[q]@.user_id == user_id@,
            r matches Ok(rs) ==> user_records_listed(self.records_map(), user_id@, rs@),
            r matches Ok(rs) ==> (rec_well_keyed(self.records_map()) ==> forall|q1: int, q2: int|
                0 <= q1 < q2 < rs@.len() ==> crate::store::lex_lt(
                    (#[trigger] rs@[q1])@.id,
                    (#[trigger] rs@[q2])@.id,
                ) && rs@[q1]@ != rs@[q2]@),
    {
        let all = self.get_all_records()?;
        let ghost rwk = rec_well_keyed(self.records_map());
        let n = all.len();
        let mut out: Vec<AttendanceRecord> = Vec::new();
        let mut i: usize = 0;
        while i < n
            invariant
                n == all.len(),
                i <= n,
                rwk == rec_well_keyed(self.records_map()),
                forall|q: int| 0 <= q < n ==> rec_in(self.records_map(), (#[trigger] all@[q])@),
                rwk ==> forall|q1: int, q2: int|
                    0 <= q1 < q2 < n ==> crate::store::lex_lt(
                        (#[trigger] all@[q1])@.id,
                        (#[trigger] all@[q2])@.id,
                    ),
                forall|q: int|
                    0 <= q < out.len() ==> rec_in(self.records_map(), (#[trigger] out@[q])@)
                        && out@[q]@.user_id == user_id@,
                rwk ==> forall|q1: int, q2: int|
                    0 <= q1 < q2 < out@.len() ==> crate::store::lex_lt(
                        (#[trigger] out@[q1])@.id,
                        (#[trigger] out@[q2])@.id,
                    ) && out@[q1]@ != out@[q2]@,
                rwk && out@.len() > 0 ==> exists|j: int|
                    0 <= j < i && out@[out@.len() - 1]@ == (#[trigger] all@[j])@,
                forall|q: int|
                    0 <= q < i && (#[trigger] all@[q])@.user_id == user_id@ ==> exists|q2: int|
                        0 <= q2 < out.len() && out@[q2]@ == all@[q]@,
            decreases n - i,
        {
            let a = &all[i];
            if a.user_id == *user_id {
                let ghost olen = out@.len();
                let ghost pre = out@;
                out.push(a.duplicate());
                proof {
                    assert(out@[olen as int]@ == all@[i as int]@);
                    assert(rec_in(self.records_map(), all@[i as int]@));
                    assert(out@[olen as int]@.user_id == user_id@);
                    assert forall|q: int|
                        0 <= q < i + 1 && (#[trigger] all@[q])@.user_id == user_id@ implies exists|
                            q2: int,
                        | 0 <= q2 < out@.len() && out@[q2]@ == all@[q]@ by {
                        if q < i {
                            let q2 = choose|q2: int| 0 <= q2 < olen && pre[q2]@ == all@[q]@;
                            assert(out@[q2]@ == all@[q]@);
                        } else {
                            assert(out@[olen as int]@ == all@[q]@);
                        }
                    }
                    if rwk && olen > 0 {
                        let j = choose|j: int|
                            0 <= j < i && pre[olen - 1]@ == (#[trigger] all@[j])@;
                        assert(crate::store::lex_lt(all@[j]@.id, all@[i as int]@.id));
                        assert(crate::store::lex_lt(pre[olen - 1]@.id, out@[olen as int]@.id));
                        assert forall|q: int| 0 <= q < olen implies crate::store::lex_lt(
                            (#[trigger] out@[q])@.id,
                            out@[olen as int]@.id,
                        ) && out@[q]@ != out@[olen as int]@ by {
                            if q < olen - 1 {
                                assert(crate::store::lex_lt(out@[q]@.id, pre[olen - 1]@.id));
                                crate::store::lemma_lex_lt_trans(
                                    out@[q]@.id,
                                    pre[olen - 1]@.id,
                                    out@[olen as int]@.id,
                                );
                            }
                            crate::store::lemma_lex_lt_ne(out@[q]@.id, out@[olen as int]@.id);
                        }
                    }
                }
            } else {
                proof {
                    assert(all@[i as int]@.user_id != user_id@);
                }
            }
            i = i + 1;
        }
        proof {
            assert forall|k: Seq<char>| #[trigger] self.records_map().contains_key(k) implies
                record_dec(self.records_map()[k]) is Some && (record_dec(self.records_map()[k])
                matches Some(a2) ==> (a2.user_id == user_id@ ==> exists|q: int|
                0 <= q < out@.len() && out@[q]@ == a2)) by {
                let a = record_dec(self.records_map()[k])->Some_0;
                if record_dec(self.records_map()[k]) is Some && a.user_id == user_id@ {
                    let q = choose|q: int| 0 <= q < all@.len() && (#[trigger] all@[q])@ == a;
                    assert(exists|q2: int| 0 <= q2 < out@.len() && out@[q2]@ == all@[q]@);
                }
            }
            assert(user_records_listed(self.records_map(), user_id@, out@));
        }
        Ok(out)
    }

    /// The fixed username of the bootstrap administrator.
    fn admin_username() -> (s: String)
        ensures
            s@ == "admin"@,
    {
        "admin".to_owned()
    }

    /// One-time migration sweep: every regular user still missing an
    /// owning admin is assigned to the bootstrap admin. A user already
    /// carrying an `admin_id`, and every admin, is left untouched, so
    /// re-running the sweep changes nothing for them.
    pub fn migrate_user_data(&mut self) -> (r: Result<(), StorageError>)
        ensures
            final(self).locations_map() == old(self).locations_map(),
            final(self).records_map() == old(self).records_map(),
            well_keyed(old(self).users_map()) ==> forall|k: Seq<char>|
                #[trigger] old(self).users_map().contains_key(k) && user_dec(
                    old(self).users_map()[k],
                ) is Some && !needs_migration(user_dec(old(self).users_map()[k])) ==> final(self).users_map().contains_key(k) && final(self).users_map()[k] == old(self).users_map()[k],
            r is Ok && well_keyed(old(self).users_map()) && has_username(
                old(self).users_map(),
                "admin"@,
            ) ==> {
                &&& final(self).users_map().dom() == old(self).users_map().dom()
                &&& well_keyed(final(self).users_map())
                &&& forall|k: Seq<char>|
                    #[trigger] old(self).users_map().contains_key(k) ==> user_dec(
                        old(self).users_map()[k],
                    ) is Some && (user_dec(old(self).users_map()[k]) matches Some(u) ==> (user_dec(
                        final(self).users_map()[k],
                    ) matches Some(u2) && u2.id == u.id && u2.username == u.username && u2.password
                        == u.password && u2.role == u.role && u2.location_id == u.location_id && (
                    needs_migration(Some(u)) ==> u2.admin_id is Some) && (!needs_migration(Some(u))
                        ==> u2.admin_id == u.admin_id)))
            },
            r is Ok && !has_username(old(self).users_map(), "admin"@) ==> final(self).users_map()
                == old(self).users_map(),
            r is Ok && well_keyed(old(self).users_map()) && has_username(
                old(self).users_map(),
                "admin"@,
            ) ==> exists|aid: Seq<char>|
                admin_named(old(self).users_map(), aid) && (forall|k: Seq<char>|
                    #[trigger] old(self).users_map().contains_key(k) ==> (user_dec(
                        old(self).users_map()[k],
                    ) matches Some(u) ==> (needs_migration(Some(u)) ==> (user_dec(
                        final(self).users_map()[k],
                    ) matches Some(u2) && u2.admin_id == Some(aid))))),
    {
        let name = Self::admin_username();
        let admin = match self.get_user_by_username(&name) {
            Ok(Some(a)) => a,
            Ok(None) => {
                return Ok(());
            },
            Err(e) => {
                return Err(e);
            },
        };
        let us = match self.get_all_users() {
            Ok(u) => u,
            Err(e) => {
                return Err(e);
            },
        };
        let ghost m0 = self.users_map();
        let ghost wk = well_keyed(m0);
        proof {
            if wk {
                assert forall|j: int| 0 <= j < us@.len() implies m0.contains_key(
                    (#[trigger] us@[j])@.id,
                ) && user_dec(m0[us@[j]@.id]) == Some(us@[j]@) by {
                    let k = choose|k: Seq<char>|
                        #[trigger] m0.contains_key(k) && user_dec(m0[k]) == Some(us@[j]@);
                    assert(us@[j]@.id == k);
                }
            }
        }
        let n = us.len();
        let mut i: usize = 0;
        while i < n
            invariant
                n == us@.len(),
                i <= n,
                self.locations_map() == old(self).locations_map(),
                self.records_map() == old(self).records_map(),
                m0 == old(self).users_map(),
                wk == well_keyed(m0),
                admin@.username == "admin"@,
                wk ==> forall|j: int|
                    0 <= j < n ==> m0.contains_key((#[trigger] us@[j])@.id) && user_dec(
                        m0[us@[j]@.id],
                    ) == Some(us@[j]@),
                forall|k: Seq<char>|
                    #[trigger] m0.contains_key(k) ==> user_dec(m0[k]) is Some,
                all_users_listed(m0, us@),
                wk ==> self.users_map().dom() == m0.dom(),
                wk ==> well_keyed(self.users_map()),
                wk ==> forall|k: Seq<char>|
                    #[trigger] m0.contains_key(k) && !(exists|j: int|
                        0 <= j < i && (#[trigger] us@[j])@.id == k && needs_migration(
                            Some(us@[j]@),
                        )) ==> self.users_map().contains_key(k) && self.users_map()[k] == m0[k],
                wk ==> forall|k: Seq<char>|
                    #[trigger] m0.contains_key(k) ==> (user_dec(m0[k]) matches Some(u) ==> (
                    user_dec(self.users_map()[k]) matches Some(u2) && u2.id == u.id && u2.username
                        == u.username && u2.password == u.password && u2.role == u.role
                        && u2.location_id == u.location_id && (!needs_migration(Some(u))
                        ==> u2.admin_id == u.admin_id) && (needs_migration(Some(u)) ==> (
                    u2.admin_id == u.admin_id || u2.admin_id == Some(admin@.id))))),
                wk ==> forall|k: Seq<char>|
                    #[trigger] m0.contains_key(k) && (exists|j: int|
                        0 <= j < i && (#[trigger] us@[j])@.id == k && needs_migration(
                            Some(us@[j]@),
                        )) ==> (user_dec(self.users_map()[k]) matches Some(u2) && u2.admin_id
                        == Some(admin@.id)),
            decreases n - i,
        {
            let u = &us[i];
            let is_user = match u.role {
                UserRole::User => true,
                UserRole::Admin => false,
            };
            let unassigned = match &u.admin_id {
                None => true,
                Some(_) => false,
            };
            if is_user && unassigned {
                let mut nu = u.duplicate();
                nu.admin_id = Some(admin.id.clone());
                let ghost mpre = self.users_map();
                match self.save_user(&nu) {
                    Ok(()) => {},
                    Err(e) => {
                        proof {
                            if wk {
                                crate::codec::lemma_user_round_trip(nu@);
                                assert forall|k: Seq<char>|
                                    #[trigger] m0.contains_key(k) && user_dec(m0[k]) is Some && !needs_migration(
                                        user_dec(m0[k]),
                                    ) implies self.users_map().contains_key(k)
                                    && self.users_map()[k] == m0[k] by {
                                    assert(k != nu.id@);
                                }
                            }
                        }
                        return Err(e);
                    },
                }
                proof {
                    if wk {
                        crate::codec::lemma_user_round_trip(nu@);
                        assert(nu@.id == us@[i as int]@.id);
                        assert(self.users_map() == mpre.insert(nu.id@, user_enc(nu@)));
                    }
                }
            }
            i = i + 1;
        }
        proof {
            if wk && has_username(m0, "admin"@) {
                assert forall|k: Seq<char>| #[trigger] m0.contains_key(k) implies user_dec(
                    m0[k],
                ) is Some && (user_dec(m0[k]) matches Some(u) ==> (user_dec(
                    self.users_map()[k],
                ) matches Some(u2) && u2.id == u.id && u2.username == u.username && u2.password
                    == u.password && u2.role == u.role && u2.location_id == u.location_id && (
                needs_migration(Some(u)) ==> u2.admin_id is Some) && (!needs_migration(Some(u))
                    ==> u2.admin_id == u.admin_id))) by {
                    if needs_migration(user_dec(m0[k])) {
                        let uu = user_dec(m0[k])->Some_0;
                        let j = choose|j: int| 0 <= j < us@.len() && us@[j]@ == uu;
                        assert(us@[j]@.id == k);
                        assert(needs_migration(Some(us@[j]@)));
                    }
                }
                let ka = choose|ka: Seq<char>|
                    #[trigger] m0.contains_key(ka) && user_dec(m0[ka]) == Some(admin@);
                assert(admin_named(m0, admin@.id));
                assert forall|k: Seq<char>| #[trigger] m0.contains_key(k) implies (user_dec(
                    m0[k],
                ) matches Some(u) ==> (needs_migration(Some(u)) ==> (user_dec(
                    self.users_map()[k],
                ) matches Some(u2) && u2.admin_id == Some(admin@.id)))) by {
                    if needs_migration(user_dec(m0[k])) {
                        let uu = user_dec(m0[k])->Some_0;
                        let j = choose|j: int| 0 <= j < us@.len() && us@[j]@ == uu;
                        assert(us@[j]@.id == k);
                        assert(needs_migration(Some(us@[j]@)));
                    }
                }
            }
        }
        Ok(())
    }

    /// Ensures the bootstrap administrator exists (fixed username
    /// `admin`, fixed initial password), then runs the migration sweep.
    /// On a well-keyed store this is idempotent: if a user with the
    /// fixed username already exists, the set of keys carrying that
    /// username is unchanged; if none exists, exactly one appears.
    pub fn init_default_admin(&mut self) -> (r: Result<(), StorageError>)
        ensures
            final(self).locations_map() == old(self).locations_map(),
            final(self).records_map() == old(self).records_map(),
            r is Ok && well_keyed(old(self).users_map()) && has_username(
                old(self).users_map(),
                "admin"@,
            ) ==> keys_with_username(final(self).users_map(), "admin"@) == keys_with_username(
                old(self).users_map(),
                "admin"@,
            ) && has_username(final(self).users_map(), "admin"@),
            r is Ok && well_keyed(old(self).users_map()) && has_username(
                old(self).users_map(),
                "admin"@,
            ) ==> forall|k: Seq<char>|
                #[trigger] old(self).users_map().contains_key(k) && user_dec(
                    old(self).users_map()[k],
                ) is Some && !needs_migration(user_dec(old(self).users_map()[k])) ==> final(self).users_map().contains_key(k) && final(self).users_map()[k] == old(self).users_map()[k],
            r is Ok && well_keyed(old(self).users_map()) && !has_username(
                old(self).users_map(),
                "admin"@,
            ) ==> exists|kk: Seq<char>|
                keys_with_username(final(self).users_map(), "admin"@) == Set::<
                    Seq<char>,
                >::empty().insert(kk) && final(self).users_map().contains_key(kk) && (user_dec(
                    final(self).users_map()[kk],
                ) matches Some(a) && a.username == "admin"@ && a.password == "admin123"@ && a.role
                    == UserRole::Admin && a.admin_id is None && a.location_id is None),
            r is Ok && well_keyed(old(self).users_map()) ==> well_keyed(final(self).users_map()),
            well_keyed(old(self).users_map()) ==> exists|kk: Seq<char>|
                preserved_except(old(self).users_map(), final(self).users_map(), kk),
    {
        let name = Self::admin_username();
        let found = match self.get_user_by_username(&name) {
            Ok(o) => o,
            Err(e) => {
                proof {
                    assert(preserved_except(
                        self.users_map(),
                        self.users_map(),
                        Seq::<char>::empty(),
                    ));
                }
                return Err(e);
            },
        };
        let ghost m0 = self.users_map();
        let ghost wk = well_keyed(m0);
        let ghost had = has_username(m0, "admin"@);
        let ghost mut created_id: Seq<char> = Seq::empty();
        if found.is_none() {
            let admin = User::new(
                Self::admin_username(),
                "admin123".to_owned(),
                UserRole::Admin,
                None,
            );
            match self.save_user(&admin) {
                Ok(()) => {},
                Err(e) => {
                    proof {
                        assert(preserved_except(m0, self.users_map(), admin.id@));
                    }
                    return Err(e);
                },
            }
            proof {
                created_id = admin.id@;
                crate::codec::lemma_user_round_trip(admin@);
                assert(self.users_map() == m0.insert(admin.id@, user_enc(admin@)));
                assert(has_username(self.users_map(), "admin"@)) by {
                    assert(self.users_map().contains_key(admin.id@));
                    assert(user_dec(self.users_map()[admin.id@]) == Some(admin@));
                }
                assert(user_dec(self.users_map()[created_id]) matches Some(a) && a.username
                    == "admin"@ && a.password == "admin123"@ && a.role == UserRole::Admin
                    && a.admin_id is None && a.location_id is None);
                assert(!needs_migration(user_dec(self.users_map()[created_id])));
            }
        }
        let ghost m1 = self.users_map();
        proof {
            assert(preserved_except(m0, m1, created_id));
            if wk {
                assert(well_keyed(m1));
            }
        }
        match self.migrate_user_data() {
            Ok(()) => {},
            Err(e) => {
                proof {
                    if wk {
                        assert(preserved_except(m0, self.users_map(), created_id)) by {
                            assert forall|k: Seq<char>|
                                #[trigger] m0.contains_key(k) && user_dec(m0[k]) is Some
                                && !needs_migration(user_dec(m0[k])) && k != created_id implies
                                self.users_map().contains_key(k) && self.users_map()[k] == m0[k]
                                by {
                                assert(m1.contains_key(k) && m1[k] == m0[k]);
                            }
                        }
                    }
                }
                return Err(e);
            },
        }
        proof {
            if wk {
                assert(preserved_except(m0, self.users_map(), created_id)) by {
                    assert forall|k: Seq<char>|
                        #[trigger] m0.contains_key(k) && user_dec(m0[k]) is Some
                        && !needs_migration(user_dec(m0[k])) && k != created_id implies
                        self.users_map().contains_key(k) && self.users_map()[k] == m0[k] by {
                        assert(m1.contains_key(k) && m1[k] == m0[k]);
                    }
                }
            }
            if wk && had {
                assert(m1 == m0);
                assert(has_username(m1, "admin"@));
                assert(keys_with_username(self.users_map(), "admin"@) =~= keys_with_username(
                    m0,
                    "admin"@,
                ));
                let kw = choose|k: Seq<char>|
                    #[trigger] m0.contains_key(k) && (user_dec(m0[k]) matches Some(u) && u.username
                        == "admin"@);
                assert(keys_with_username(m0, "admin"@).contains(kw));
                assert(has_username(self.users_map(), "admin"@)) by {
                    assert(keys_with_username(self.users_map(), "admin"@).contains(kw));
                }
            }
            if wk && !had {
                assert(well_keyed(m1)) by {
                    assert forall|k: Seq<char>| #[trigger] m1.contains_key(k) implies (user_dec(
                        m1[k],
                    ) matches Some(u) ==> u.id == k) by {}
                }
                assert(has_username(m1, "admin"@));
                assert(m1.contains_key(created_id));
                assert(!needs_migration(user_dec(m1[created_id])));
                assert(self.users_map().contains_key(created_id) && self.users_map()[created_id]
                    == m1[created_id]);
                assert(keys_with_username(self.users_map(), "admin"@) =~= Set::<
                    Seq<char>,
                >::empty().insert(created_id));
            }
        }
        Ok(())
    }
}

} // verus!
