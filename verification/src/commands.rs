//! The command surface: login, user and location management, record
//! queries, and the geofenced check-in pipeline.
//!
//! Each operation takes the storage engine by reference and plain
//! values, and returns a response value; the process shell around the
//! library serializes calls under one lock. List operations degrade to
//! an empty result when storage fails, as the read paths swallow
//! errors deliberately.

use vstd::prelude::*;
use vstd::string::StringExecFns;
use crate::database::{Database, user_in, loc_in, rec_in, has_username, well_keyed,
    loc_well_keyed, rec_well_keyed, unique_usernames};
use crate::store::lex_lt;
use crate::models::{User, Location, AttendanceRecord, AttendanceStatus, opt_view,
    valid_coords, CreateUserRequest, CreateLocationRequest, UpdateLocationRequest, LoginRequest,
    LoginResponse, CheckInRequest, CheckInResponse};
use crate::codec::{user_dec, location_dec, record_dec, user_enc, location_enc, record_enc, fmt_cm,
    format_cm};
use crate::geo::{distance_cm, distance_spec};
use crate::store::StorageError;

verus! {

/// The message of a rejected check-in, carrying the computed distance
/// in meters with two decimals.
pub open spec fn reject_message(cm: nat) -> Seq<char> {
    "out of range: distance "@ + fmt_cm(cm) + " m"@
}

/// A user `uid` stored in `um` belongs to the admin `aid`.
pub open spec fn admin_owns(
    um: Map<Seq<char>, Seq<char>>,
    aid: Seq<char>,
    uid: Seq<char>,
) -> bool {
    exists|k: Seq<char>|
        #[trigger] um.contains_key(k) && (user_dec(um[k]) matches Some(u) && u.id == uid
            && u.admin_id == Some(aid))
}

/// The lengths that tell the command-surface error messages apart.
proof fn lemma_error_messages()
    ensures
        "storage error"@.len() == 13,
        "user not found"@.len() == 14,
        "location not found"@.len() == 18,
        "username already exists"@.len() == 23,
{
    reveal_strlit("storage error");
    reveal_strlit("user not found");
    reveal_strlit("location not found");
    reveal_strlit("username already exists");
}

/// Checks the credentials against the stored user of that username.
pub fn login(db: &Database, request: &LoginRequest) -> (r: LoginResponse)
    ensures
        r.success ==> (r.user matches Some(u) && user_in(db.users_map(), u@) && u@.username
            == request.username@ && u@.password == request.password@ && r.message is None),
        !r.success ==> r.user is None && r.message is Some,
        (r.message matches Some(m) && m@ == "user not found"@) ==> !has_username(
            db.users_map(),
            request.username@,
        ),
        (r.message matches Some(m) && m@ == "incorrect password"@) ==> exists|k: Seq<char>|
            #[trigger] db.users_map().contains_key(k) && (user_dec(db.users_map()[k])
                matches Some(u) && u.username == request.username@ && u.password
                != request.password@),
        !r.success ==> (r.message matches Some(m) && (m@ == "user not found"@ || m@
            == "incorrect password"@ || m@ == "storage error"@)),
        unique_usernames(db.users_map()) && !r.success && (exists|k: Seq<char>|
            #[trigger] db.users_map().contains_key(k) && (user_dec(db.users_map()[k])
                matches Some(u) && u.username == request.username@ && u.password
                == request.password@)) ==> (r.message matches Some(m) && m@
            == "storage error"@),
{
    match db.get_user_by_username(&request.username) {
        Ok(Some(user)) => {
            if user.password == request.password {
                LoginResponse { success: true, user: Some(user), message: None }
            } else {
                proof {
                    reveal_strlit("user not found");
                    reveal_strlit("incorrect password");
                    reveal_strlit("storage error");
                    assert("storage error"@.len() == 13);
                    assert("user not found"@.len() == 14);
                    assert("incorrect password"@.len() == 18);
                    let k = choose|k: Seq<char>|
                        #[trigger] db.users_map().contains_key(k) && user_dec(db.users_map()[k])
                            == Some(user@);
                    assert(db.users_map().contains_key(k) && (user_dec(db.users_map()[k])
                        matches Some(u) && u.username == request.username@ && u.password
                        != request.password@));
                    if unique_usernames(db.users_map()) && (exists|k2: Seq<char>|
                        #[trigger] db.users_map().contains_key(k2) && (user_dec(
                            db.users_map()[k2],
                        ) matches Some(u) && u.username == request.username@ && u.password
                            == request.password@)) {
                        let k2 = choose|k2: Seq<char>|
                            #[trigger] db.users_map().contains_key(k2) && (user_dec(
                                db.users_map()[k2],
                            ) matches Some(u) && u.username == request.username@ && u.password
                                == request.password@);
                        assert(k == k2);
                        assert(false);
                    }
                }
                LoginResponse {
                    success: false,
                    user: None,
                    message: Some("incorrect password".to_owned()),
                }
            }
        },
        Ok(None) => {
            let resp = LoginResponse {
                success: false,
                user: None,
                message: Some("user not found".to_owned()),
            };
            proof {
                reveal_strlit("user not found");
                reveal_strlit("incorrect password");
                reveal_strlit("storage error");
                assert("storage error"@.len() == 13);
                assert("user not found"@.len() == 14);
                assert("incorrect password"@.len() == 18);
                assert("user not found"@ != "incorrect password"@);
                assert(resp.message matches Some(m) ==> m@ == "user not found"@);
                assert(!has_username(db.users_map(), request.username@));
                if exists|k2: Seq<char>|
                    #[trigger] db.users_map().contains_key(k2) && (user_dec(db.users_map()[k2])
                        matches Some(u) && u.username == request.username@ && u.password
                        == request.password@) {
                    let k2 = choose|k2: Seq<char>|
                        #[trigger] db.users_map().contains_key(k2) && (user_dec(
                            db.users_map()[k2],
                        ) matches Some(u) && u.username == request.username@ && u.password
                            == request.password@);
                    assert(has_username(db.users_map(), request.username@));
                    assert(false);
                }
            }
            resp
        },
        Err(_) => {
            proof {
                reveal_strlit("user not found");
                reveal_strlit("incorrect password");
                reveal_strlit("storage error");
                assert("user not found"@.len() == 14);
                assert("incorrect password"@.len() == 18);
                assert("storage error"@.len() == 13);
            }
            LoginResponse { success: false, user: None, message: Some("storage error".to_owned()) }
        },
    }
}

/// All stored users, in ascending id order; an empty list when
/// storage fails.
pub fn get_all_users(db: &Database) -> (r: Vec<User>)
    ensures
        forall|q: int| 0 <= q < r@.len() ==> user_in(db.users_map(), (#[trigger] r@[q])@),
        well_keyed(db.users_map()) ==> forall|q1: int, q2: int|
            0 <= q1 < q2 < r@.len() ==> lex_lt((#[trigger] r@[q1])@.id, (#[trigger] r@[q2])@.id)
                && r@[q1]@ != r@[q2]@,
{
    match db.get_all_users() {
        Ok(us) => us,
        Err(_) => Vec::new(),
    }
}

/// The stored users managed by this admin: sound and complete over
/// the stored map.
pub fn users_by_admin_checked(db: &Database, admin_id: &String) -> (r: Result<
    Vec<User>,
    StorageError,
>)
    ensures
        r matches Ok(us) ==> forall|q: int|
            0 <= q < us@.len() ==> user_in(db.users_map(), (#[trigger] us@[q])@)
                && us@[q]@.admin_id == Some(admin_id@),
        r matches Ok(us) ==> forall|k: Seq<char>|
            #[trigger] db.users_map().contains_key(k) ==> user_dec(db.users_map()[k]) is Some && (
            user_dec(db.users_map()[k]) matches Some(u) ==> (u.admin_id == Some(admin_id@)
                ==> exists|q: int| 0 <= q < us@.len() && us@[q]@ == u)),
        r matches Ok(us) ==> (well_keyed(db.users_map()) ==> forall|q1: int, q2: int|
            0 <= q1 < q2 < us@.len() ==> lex_lt((#[trigger] us@[q1])@.id, (#[trigger] us@[q2])@.id)
                && us@[q1]@ != us@[q2]@),
{
    let all = db.get_all_users()?;
    let ghost wk = well_keyed(db.users_map());
    let n = all.len();
    let mut out: Vec<User> = Vec::new();
    let mut i: usize = 0;
    while i < n
        invariant
            n == all@.len(),
            i <= n,
            wk == well_keyed(db.users_map()),
            forall|q: int| 0 <= q < n ==> user_in(db.users_map(), (#[trigger] all@[q])@),
            crate::database::all_users_listed(db.users_map(), all@),
            wk ==> forall|q1: int, q2: int|
                0 <= q1 < q2 < n ==> lex_lt(
                    (#[trigger] all@[q1])@.id,
                    (#[trigger] all@[q2])@.id,
                ),
            forall|q: int|
                0 <= q < out@.len() ==> user_in(db.users_map(), (#[trigger] out@[q])@)
                    && out@[q]@.admin_id == Some(admin_id@),
            wk ==> forall|q1: int, q2: int|
                0 <= q1 < q2 < out@.len() ==> lex_lt(
                    (#[trigger] out@[q1])@.id,
                    (#[trigger] out@[q2])@.id,
                ) && out@[q1]@ != out@[q2]@,
            wk && out@.len() > 0 ==> exists|j: int|
                0 <= j < i && out@[out@.len() - 1]@ == (#[trigger] all@[j])@,
            forall|q: int|
                0 <= q < i && (#[trigger] all@[q])@.admin_id == Some(admin_id@) ==> exists|q2: int|
                    0 <= q2 < out@.len() && out@[q2]@ == all@[q]@,
        decreases n - i,
    {
        let u = &all[i];
        let keep = match &u.admin_id {
            Some(a) => *a == *admin_id,
            None => false,
        };
        if keep {
            let ghost olen = out@.len();
            let ghost pre = out@;
            out.push(u.duplicate());
            proof {
                assert(out@[olen as int]@ == all@[i as int]@);
                assert forall|q: int|
                    0 <= q < i + 1 && (#[trigger] all@[q])@.admin_id == Some(admin_id@) implies
                    exists|q2: int| 0 <= q2 < out@.len() && out@[q2]@ == all@[q]@ by {
                    if q < i {
                        let q2 = choose|q2: int| 0 <= q2 < olen && pre[q2]@ == all@[q]@;
                        assert(out@[q2]@ == all@[q]@);
                    } else {
                        assert(out@[olen as int]@ == all@[q]@);
                    }
                }
                if wk && olen > 0 {
                    let j = choose|j: int| 0 <= j < i && pre[olen - 1]@ == (#[trigger] all@[j])@;
                    assert(lex_lt(all@[j]@.id, all@[i as int]@.id));
                    assert(lex_lt(pre[olen - 1]@.id, out@[olen as int]@.id));
                    assert forall|q: int| 0 <= q < olen implies lex_lt(
                        (#[trigger] out@[q])@.id,
                        out@[olen as int]@.id,
                    ) && out@[q]@ != out@[olen as int]@ by {
                        if q < olen - 1 {
                            assert(lex_lt(out@[q]@.id, pre[olen - 1]@.id));
                            crate::store::lemma_lex_lt_trans(
                                out@[q]@.id,
                                pre[olen - 1]@.id,
                                out@[olen as int]@.id,
                            );
                        }
                        crate::store::lemma_lex_lt_ne(out@[q]@.id, out@[olen as int]@.id);
                    }
                }
            }
        } else {
            proof {
                assert(all@[i as int]@.admin_id != Some(admin_id@));
            }
        }
        i = i + 1;
    }
    proof {
        assert forall|k: Seq<char>| #[trigger] db.users_map().contains_key(k) implies user_dec(
            db.users_map()[k],
        ) is Some && (user_dec(db.users_map()[k]) matches Some(u2) ==> (u2.admin_id == Some(
            admin_id@,
        ) ==> exists|q: int| 0 <= q < out@.len() && out@[q]@ == u2)) by {
            let u2 = user_dec(db.users_map()[k])->Some_0;
            if user_dec(db.users_map()[k]) is Some && u2.admin_id == Some(admin_id@) {
                let q = choose|q: int| 0 <= q < all@.len() && (#[trigger] all@[q])@ == u2;
                assert(exists|q2: int| 0 <= q2 < out@.len() && out@[q2]@ == all@[q]@);
            }
        }
    }
    Ok(out)
}

/// The stored users managed by this admin; empty only when storage
/// fails.
pub fn get_users_by_admin(db: &Database, admin_id: &String) -> (r: Vec<User>)
    ensures
        forall|q: int|
            0 <= q < r@.len() ==> user_in(db.users_map(), (#[trigger] r@[q])@) && r@[q]@.admin_id
                == Some(admin_id@),
        well_keyed(db.users_map()) ==> forall|q1: int, q2: int|
            0 <= q1 < q2 < r@.len() ==> lex_lt((#[trigger] r@[q1])@.id, (#[trigger] r@[q2])@.id)
                && r@[q1]@ != r@[q2]@,
{
    match users_by_admin_checked(db, admin_id) {
        Ok(us) => us,
        Err(_) => Vec::new(),
    }
}

/// Creates a user, refusing a username that is already taken.
pub fn create_user(db: &mut Database, user: &CreateUserRequest) -> (r: Result<User, String>)
    ensures
        has_username(old(db).users_map(), user.username@) ==> r is Err && final(db).users_map()
            == old(db).users_map(),
        r matches Ok(u) ==> !has_username(old(db).users_map(), user.username@) && final(db).users_map() == old(db).users_map().insert(u.id@, user_enc(u@)) && u@.username
            == user.username@ && u@.password == user.password@ && u@.role == user.role
            && u@.admin_id == opt_view(user.admin_id) && u@.location_id is None,
        r is Err ==> final(db).users_map() == old(db).users_map() || (exists|
            uv: crate::models::UserView,
        |
            uv.username == user.username@ && final(db).users_map() == old(db).users_map().insert(uv.id, user_enc(uv))),
        r matches Err(m) ==> (m@ == "username already exists"@ || m@ == "storage error"@),
        (r matches Err(m) && m@ == "username already exists"@) ==> has_username(
            old(db).users_map(),
            user.username@,
        ),
        final(db).locations_map() == old(db).locations_map(),
        final(db).records_map() == old(db).records_map(),
{
    match db.get_user_by_username(&user.username) {
        Ok(Some(found)) => {
            proof {
                lemma_error_messages();
                let k = choose|k: Seq<char>|
                    #[trigger] db.users_map().contains_key(k) && user_dec(db.users_map()[k])
                        == Some(found@);
                assert(has_username(db.users_map(), user.username@));
            }
            Err("username already exists".to_owned())
        },
        Ok(None) => {
            let admin_id = match &user.admin_id {
                Some(a) => Some(a.clone()),
                None => None,
            };
            let new_user = User::new(
                user.username.clone(),
                user.password.clone(),
                user.role,
                admin_id,
            );
            match db.save_user(&new_user) {
                Ok(()) => Ok(new_user),
                Err(_) => {
                    proof {
                        lemma_error_messages();
                    }
                    Err("storage error".to_owned())
                },
            }
        },
        Err(_) => {
            proof {
                lemma_error_messages();
            }
            Err("storage error".to_owned())
        },
    }
}

/// Deletes a user by id; deleting an absent id succeeds.
pub fn delete_user(db: &mut Database, user_id: &String) -> (r: Result<(), String>)
    ensures
        r is Ok ==> final(db).users_map() == old(db).users_map().remove(user_id@),
        r is Err ==> final(db).users_map() == old(db).users_map() || final(db).users_map() == old(db).users_map().remove(user_id@),
        r matches Err(m) ==> m@ == "storage error"@,
        well_keyed(old(db).users_map()) ==> well_keyed(final(db).users_map()),
        final(db).locations_map() == old(db).locations_map(),
        final(db).records_map() == old(db).records_map(),
{
    match db.delete_user(user_id) {
        Ok(()) => Ok(()),
        Err(_) => Err("storage error".to_owned()),
    }
}

/// Assigns a check-in location to a user.
pub fn update_user_location(db: &mut Database, user_id: &String, location_id: &String) -> (r:
    Result<User, String>)
    ensures
        r matches Ok(u) ==> old(db).users_map().contains_key(user_id@) && (user_dec(
            old(db).users_map()[user_id@],
        ) matches Some(u0) && u@.id == u0.id && u@.username == u0.username && u@.password
            == u0.password && u@.role == u0.role && u@.admin_id == u0.admin_id) && u@.location_id
            == Some(location_id@) && final(db).users_map() == old(db).users_map().insert(
            u@.id,
            user_enc(u@),
        ),
        !old(db).users_map().contains_key(user_id@) ==> r is Err && final(db).users_map() == old(db).users_map(),
        r matches Err(m) ==> (m@ == "user not found"@ || m@ == "storage error"@),
        (r matches Err(m) && m@ == "user not found"@) ==> !old(db).users_map().contains_key(
            user_id@,
        ),
        r is Err ==> final(db).users_map() == old(db).users_map() || (exists|
            uv: crate::models::UserView,
        |
            uv.location_id == Some(location_id@) && final(db).users_map() == old(db).users_map().insert(uv.id, user_enc(uv))),
        well_keyed(old(db).users_map()) ==> well_keyed(final(db).users_map()),
        final(db).locations_map() == old(db).locations_map(),
        final(db).records_map() == old(db).records_map(),
{
    let mut user = match db.get_user(user_id) {
        Ok(Some(u)) => u,
        Ok(None) => {
            proof {
                lemma_error_messages();
            }
            return Err("user not found".to_owned());
        },
        Err(_) => {
            proof {
                lemma_error_messages();
            }
            return Err("storage error".to_owned());
        },
    };
    user.location_id = Some(location_id.clone());
    match db.save_user(&user) {
        Ok(()) => Ok(user),
        Err(_) => {
            proof {
                lemma_error_messages();
            }
            Err("storage error".to_owned())
        },
    }
}

/// The location assigned to a user: absent when the user, the
/// assignment, or the location itself is missing, or when storage
/// fails.
pub fn get_user_location(db: &Database, user_id: &String) -> (r: Option<Location>)
    ensures
        r matches Some(l) ==> db.users_map().contains_key(user_id@) && (user_dec(
            db.users_map()[user_id@],
        ) matches Some(u) && u.location_id matches Some(lid) && db.locations_map().contains_key(
            lid,
        ) && location_dec(db.locations_map()[lid]) == Some(l@)),
        db.users_map().contains_key(user_id@) && (user_dec(db.users_map()[user_id@])
            matches Some(u) && u.location_id matches Some(lid)
            && !db.locations_map().contains_key(lid)) ==> r is None,
{
    let user = match db.get_user(user_id) {
        Ok(Some(u)) => u,
        _ => {
            return None;
        },
    };
    match &user.location_id {
        Some(location_id) => match db.get_location(location_id) {
            Ok(Some(l)) => Some(l),
            _ => None,
        },
        None => None,
    }
}

/// All stored locations, in ascending id order; an empty list when
/// storage fails.
pub fn get_all_locations(db: &Database) -> (r: Vec<Location>)
    ensures
        forall|q: int| 0 <= q < r@.len() ==> loc_in(db.locations_map(), (#[trigger] r@[q])@),
        loc_well_keyed(db.locations_map()) ==> forall|q1: int, q2: int|
            0 <= q1 < q2 < r@.len() ==> lex_lt((#[trigger] r@[q1])@.id, (#[trigger] r@[q2])@.id)
                && r@[q1]@ != r@[q2]@,
{
    match db.get_all_locations() {
        Ok(ls) => ls,
        Err(_) => Vec::new(),
    }
}

/// Every stored location of this admin appears in `ls`.
pub open spec fn admin_locations_listed(
    m: Map<Seq<char>, Seq<char>>,
    aid: Seq<char>,
    ls: Seq<Location>,
) -> bool {
    forall|k: Seq<char>|
        #[trigger] m.contains_key(k) ==> location_dec(m[k]) is Some && (location_dec(m[k])
            matches Some(l) ==> (l.admin_id == aid ==> exists|q: int|
            0 <= q < ls.len() && ls[q]@ == l))
}

/// The stored locations owned by this admin: sound and complete over
/// the stored map.
pub fn locations_by_admin_checked(db: &Database, admin_id: &String) -> (r: Result<
    Vec<Location>,
    StorageError,
>)
    ensures
        r matches Ok(ls) ==> forall|q: int|
            0 <= q < ls@.len() ==> loc_in(db.locations_map(), (#[trigger] ls@[q])@)
                && ls@[q]@.admin_id == admin_id@,
        r matches Ok(ls) ==> admin_locations_listed(db.locations_map(), admin_id@, ls@),
        r matches Ok(ls) ==> (loc_well_keyed(db.locations_map()) ==> forall|q1: int, q2: int|
            0 <= q1 < q2 < ls@.len() ==> lex_lt((#[trigger] ls@[q1])@.id, (#[trigger] ls@[q2])@.id)
                && ls@[q1]@ != ls@[q2]@),
{
    let all = db.get_all_locations()?;
    let ghost wk = loc_well_keyed(db.locations_map());
    let n = all.len();
    let mut out: Vec<Location> = Vec::new();
    let mut i: usize = 0;
    while i < n
        invariant
            n == all@.len(),
            i <= n,
            wk == loc_well_keyed(db.locations_map()),
            forall|q: int| 0 <= q < n ==> loc_in(db.locations_map(), (#[trigger] all@[q])@),
            crate::database::all_locations_listed(db.locations_map(), all@),
            wk ==> forall|q1: int, q2: int|
                0 <= q1 < q2 < n ==> lex_lt(
                    (#[trigger] all@[q1])@.id,
                    (#[trigger] all@[q2])@.id,
                ),
            forall|q: int|
                0 <= q < out@.len() ==> loc_in(db.locations_map(), (#[trigger] out@[q])@)
                    && out@[q]@.admin_id == admin_id@,
            wk ==> forall|q1: int, q2: int|
                0 <= q1 < q2 < out@.len() ==> lex_lt(
                    (#[trigger] out@[q1])@.id,
                    (#[trigger] out@[q2])@.id,
                ) && out@[q1]@ != out@[q2]@,
            wk && out@.len() > 0 ==> exists|j: int|
                0 <= j < i && out@[out@.len() - 1]@ == (#[trigger] all@[j])@,
            forall|q: int|
                0 <= q < i && (#[trigger] all@[q])@.admin_id == admin_id@ ==> exists|q2: int|
                    0 <= q2 < out@.len() && out@[q2]@ == all@[q]@,
        decreases n - i,
    {
        let l = &all[i];
        if l.admin_id == *admin_id {
            let ghost olen = out@.len();
            let ghost pre = out@;
            out.push(l.duplicate());
            proof {
                assert(out@[olen as int]@ == all@[i as int]@);
                assert forall|q: int|
                    0 <= q < i + 1 && (#[trigger] all@[q])@.admin_id == admin_id@ implies exists|
                        q2: int,
                    | 0 <= q2 < out@.len() && out@[q2]@ == all@[q]@ by {
                    if q < i {
                        let q2 = choose|q2: int| 0 <= q2 < olen && pre[q2]@ == all@[q]@;
                        assert(out@[q2]@ == all@[q]@);
                    } else {
                        assert(out@[olen as int]@ == all@[q]@);
                    }
                }
                if wk && olen > 0 {
                    let j = choose|j: int| 0 <= j < i && pre[olen - 1]@ == (#[trigger] all@[j])@;
                    assert(lex_lt(all@[j]@.id, all@[i as int]@.id));
                    assert(lex_lt(pre[olen - 1]@.id, out@[olen as int]@.id));
                    assert forall|q: int| 0 <= q < olen implies lex_lt(
                        (#[trigger] out@[q])@.id,
                        out@[olen as int]@.id,
                    ) && out@[q]@ != out@[olen as int]@ by {
                        if q < olen - 1 {
                            assert(lex_lt(out@[q]@.id, pre[olen - 1]@.id));
                            crate::store::lemma_lex_lt_trans(
                                out@[q]@.id,
                                pre[olen - 1]@.id,
                                out@[olen as int]@.id,
                            );
                        }
                        crate::store::lemma_lex_lt_ne(out@[q]@.id, out@[olen as int]@.id);
                    }
                }
            }
        } else {
            proof {
                assert(all@[i as int]@.admin_id != admin_id@);
            }
        }
        i = i + 1;
    }
    proof {
        assert forall|k: Seq<char>| #[trigger] db.locations_map().contains_key(k) implies
            location_dec(db.locations_map()[k]) is Some && (location_dec(db.locations_map()[k])
            matches Some(l2) ==> (l2.admin_id == admin_id@ ==> exists|q: int|
            0 <= q < out@.len() && out@[q]@ == l2)) by {
            let l2 = location_dec(db.locations_map()[k])->Some_0;
            if location_dec(db.locations_map()[k]) is Some && l2.admin_id == admin_id@ {
                let q = choose|q: int| 0 <= q < all@.len() && (#[trigger] all@[q])@ == l2;
                assert(exists|q2: int| 0 <= q2 < out@.len() && out@[q2]@ == all@[q]@);
            }
        }
        assert(admin_locations_listed(db.locations_map(), admin_id@, out@));
    }
    Ok(out)
}

/// The stored locations owned by this admin; empty only when storage
/// fails.
pub fn get_locations_by_admin(db: &Database, admin_id: &String) -> (r: Vec<Location>)
    ensures
        forall|q: int|
            0 <= q < r@.len() ==> loc_in(db.locations_map(), (#[trigger] r@[q])@)
                && r@[q]@.admin_id == admin_id@,
        loc_well_keyed(db.locations_map()) ==> forall|q1: int, q2: int|
            0 <= q1 < q2 < r@.len() ==> lex_lt((#[trigger] r@[q1])@.id, (#[trigger] r@[q2])@.id)
                && r@[q1]@ != r@[q2]@,
{
    match locations_by_admin_checked(db, admin_id) {
        Ok(ls) => ls,
        Err(_) => Vec::new(),
    }
}

/// Creates a location with on-globe coordinates and a positive radius.
pub fn create_location(db: &mut Database, location: &CreateLocationRequest) -> (r: Result<
    Location,
    String,
>)
    requires
        valid_coords(location.latitude as int, location.longitude as int),
        location.radius >= 1,
    ensures
        r matches Ok(l) ==> final(db).locations_map() == old(db).locations_map().insert(
            l.id@,
            location_enc(l@),
        ) && l@.name == location.name@ && l@.latitude == location.latitude as int && l@.longitude
            == location.longitude as int && l@.radius == location.radius as int && l@.admin_id
            == location.admin_id@,
        r matches Err(m) ==> m@ == "storage error"@,
        r is Err ==> final(db).locations_map() == old(db).locations_map() || (exists|
            lv: crate::models::LocationView,
        |
            lv.name == location.name@ && lv.latitude == location.latitude as int && lv.longitude
                == location.longitude as int && lv.radius == location.radius as int && lv.admin_id
                == location.admin_id@ && final(db).locations_map() == old(db).locations_map().insert(lv.id, location_enc(lv))),
        final(db).users_map() == old(db).users_map(),
        final(db).records_map() == old(db).records_map(),
{
    let new_location = Location::new(
        location.name.clone(),
        location.latitude,
        location.longitude,
        location.radius,
        location.admin_id.clone(),
    );
    match db.save_location(&new_location) {
        Ok(()) => Ok(new_location),
        Err(_) => Err("storage error".to_owned()),
    }
}

/// Applies a partial update to a location: only provided fields change.
pub fn update_location(
    db: &mut Database,
    location_id: &String,
    location: &UpdateLocationRequest,
) -> (r: Result<Location, String>)
    requires
        location.latitude matches Some(lat) ==> -90_000_000 <= lat <= 90_000_000,
        location.longitude matches Some(lon) ==> -180_000_000 <= lon <= 180_000_000,
        location.radius matches Some(rad) ==> rad >= 1,
    ensures
        r matches Ok(l) ==> old(db).locations_map().contains_key(location_id@) && (location_dec(
            old(db).locations_map()[location_id@],
        ) matches Some(l0) && l@.id == l0.id && l@.name == (match location.name {
            Some(nm) => nm@,
            None => l0.name,
        }) && l@.latitude == (match location.latitude {
            Some(la) => la as int,
            None => l0.latitude,
        }) && l@.longitude == (match location.longitude {
            Some(lo) => lo as int,
            None => l0.longitude,
        }) && l@.radius == (match location.radius {
            Some(ra) => ra as int,
            None => l0.radius,
        }) && l@.admin_id == l0.admin_id) && final(db).locations_map() == old(db).locations_map().insert(l@.id, location_enc(l@)),
        !old(db).locations_map().contains_key(location_id@) ==> r is Err && final(db).locations_map() == old(db).locations_map(),
        r matches Err(m) ==> (m@ == "location not found"@ || m@ == "storage error"@),
        (r matches Err(m) && m@ == "location not found"@) ==> !old(db).locations_map().contains_key(location_id@),
        r is Err ==> final(db).locations_map() == old(db).locations_map() || (exists|
            lv: crate::models::LocationView,
        |
            final(db).locations_map() == old(db).locations_map().insert(
                lv.id,
                location_enc(lv),
            )),
        final(db).users_map() == old(db).users_map(),
        final(db).records_map() == old(db).records_map(),
{
    let mut existing = match db.get_location(location_id) {
        Ok(Some(l)) => l,
        Ok(None) => {
            proof {
                lemma_error_messages();
            }
            return Err("location not found".to_owned());
        },
        Err(_) => {
            proof {
                lemma_error_messages();
            }
            return Err("storage error".to_owned());
        },
    };
    match &location.name {
        Some(name) => {
            existing.name = name.clone();
        },
        None => {},
    }
    match location.latitude {
        Some(latitude) => {
            existing.latitude = latitude;
        },
        None => {},
    }
    match location.longitude {
        Some(longitude) => {
            existing.longitude = longitude;
        },
        None => {},
    }
    match location.radius {
        Some(radius) => {
            existing.radius = radius;
        },
        None => {},
    }
    match db.save_location(&existing) {
        Ok(()) => Ok(existing),
        Err(_) => {
            proof {
                lemma_error_messages();
            }
            Err("storage error".to_owned())
        },
    }
}

/// Deletes a location by id; deleting an absent id succeeds.
pub fn delete_location(db: &mut Database, location_id: &String) -> (r: Result<(), String>)
    ensures
        r is Ok ==> final(db).locations_map() == old(db).locations_map().remove(location_id@),
        r is Err ==> final(db).locations_map() == old(db).locations_map() || final(db).locations_map() == old(db).locations_map().remove(location_id@),
        r matches Err(m) ==> m@ == "storage error"@,
        final(db).users_map() == old(db).users_map(),
        final(db).records_map() == old(db).records_map(),
{
    match db.delete_location(location_id) {
        Ok(()) => Ok(()),
        Err(_) => Err("storage error".to_owned()),
    }
}

/// The attendance records of one user, or of everyone when no user is
/// given, in ascending id order; empty when storage fails.
pub fn get_attendance_records(db: &Database, user_id: Option<&String>) -> (r: Vec<
    AttendanceRecord,
>)
    ensures
        forall|q: int| 0 <= q < r@.len() ==> rec_in(db.records_map(), (#[trigger] r@[q])@),
        user_id matches Some(uid) ==> forall|q: int|
            0 <= q < r@.len() ==> (#[trigger] r@[q])@.user_id == uid@,
        rec_well_keyed(db.records_map()) ==> forall|q1: int, q2: int|
            0 <= q1 < q2 < r@.len() ==> lex_lt((#[trigger] r@[q1])@.id, (#[trigger] r@[q2])@.id)
                && r@[q1]@ != r@[q2]@,
{
    match user_id {
        Some(uid) => match db.get_records_by_user(uid) {
            Ok(rs) => {
                proof {
                    if rec_well_keyed(db.records_map()) {
                        assert forall|q1: int, q2: int| 0 <= q1 < q2 < rs@.len() implies lex_lt(
                            (#[trigger] rs@[q1])@.id,
                            (#[trigger] rs@[q2])@.id,
                        ) && rs@[q1]@ != rs@[q2]@ by {}
                    }
                }
                rs
            },
            Err(_) => Vec::new(),
        },
        None => match db.get_all_records() {
            Ok(rs) => {
                proof {
                    if rec_well_keyed(db.records_map()) {
                        assert forall|q1: int, q2: int| 0 <= q1 < q2 < rs@.len() implies lex_lt(
                            (#[trigger] rs@[q1])@.id,
                            (#[trigger] rs@[q2])@.id,
                        ) && rs@[q1]@ != rs@[q2]@ by {}
                    }
                }
                rs
            },
            Err(_) => Vec::new(),
        },
    }
}

/// Some user in `us` has this id and this owning admin.
fn owner_matches(us: &Vec<User>, uid: &String, admin_id: &String) -> (r: bool)
    ensures
        r <==> exists|q: int|
            0 <= q < us@.len() && (#[trigger] us@[q])@.id == uid@ && us@[q]@.admin_id == Some(
                admin_id@,
            ),
{
    let n = us.len();
    let mut i: usize = 0;
    while i < n
        invariant
            n == us@.len(),
            i <= n,
            forall|q: int|
                0 <= q < i ==> !((#[trigger] us@[q])@.id == uid@ && us@[q]@.admin_id == Some(
                    admin_id@,
                )),
        decreases n - i,
    {
        let u = &us[i];
        let admin_ok = match &u.admin_id {
            Some(a) => *a == *admin_id,
            None => false,
        };
        if admin_ok && u.id == *uid {
            return true;
        }
        i = i + 1;
    }
    false
}

/// The attendance records of exactly the users managed by this admin:
/// sound and complete over the stored maps.
#[verifier::rlimit(100)]
pub fn records_by_admin_checked(db: &Database, admin_id: &String) -> (r: Result<
    Vec<AttendanceRecord>,
    StorageError,
>)
    ensures
        r matches Ok(rs) ==> forall|q: int|
            0 <= q < rs@.len() ==> rec_in(db.records_map(), (#[trigger] rs@[q])@) && admin_owns(
                db.users_map(),
                admin_id@,
                rs@[q]@.user_id,
            ),
        r matches Ok(rs) ==> forall|k: Seq<char>|
            #[trigger] db.records_map().contains_key(k) ==> record_dec(db.records_map()[k])
                is Some && (record_dec(db.records_map()[k]) matches Some(a) ==> (admin_owns(
                db.users_map(),
                admin_id@,
                a.user_id,
            ) ==> exists|q: int| 0 <= q < rs@.len() && rs@[q]@ == a)),
{
    let us = db.get_all_users()?;
    let all = db.get_all_records()?;
    let n = all.len();
    let mut out: Vec<AttendanceRecord> = Vec::new();
    let mut i2: usize = 0;
    while i2 < n
        invariant
            n == all@.len(),
            i2 <= n,
            forall|q: int| 0 <= q < n ==> rec_in(db.records_map(), (#[trigger] all@[q])@),
            forall|q: int| 0 <= q < us@.len() ==> user_in(db.users_map(), (#[trigger] us@[q])@),
            crate::database::all_users_listed(db.users_map(), us@),
            forall|q: int|
                0 <= q < out@.len() ==> rec_in(db.records_map(), (#[trigger] out@[q])@)
                    && admin_owns(db.users_map(), admin_id@, out@[q]@.user_id),
            forall|q: int|
                0 <= q < i2 && admin_owns(db.users_map(), admin_id@, (#[trigger] all@[q])@.user_id)
                    ==> exists|q2: int| 0 <= q2 < out@.len() && out@[q2]@ == all@[q]@,
        decreases n - i2,
    {
        let a = &all[i2];
        let keep = owner_matches(&us, &a.user_id, admin_id);
        proof {
            if keep {
                let q = choose|q: int|
                    0 <= q < us@.len() && (#[trigger] us@[q])@.id == a.user_id@ && us@[q]@.admin_id
                        == Some(admin_id@);
                let k = choose|k: Seq<char>|
                    #[trigger] db.users_map().contains_key(k) && user_dec(db.users_map()[k])
                        == Some(us@[q]@);
                assert(admin_owns(db.users_map(), admin_id@, a.user_id@));
            } else {
                if admin_owns(db.users_map(), admin_id@, a.user_id@) {
                    let k = choose|k: Seq<char>|
                        #[trigger] db.users_map().contains_key(k) && (user_dec(db.users_map()[k])
                            matches Some(u) && u.id == a.user_id@ && u.admin_id == Some(
                            admin_id@,
                        ));
                    let uu = user_dec(db.users_map()[k])->Some_0;
                    let q = choose|q: int| 0 <= q < us@.len() && us@[q]@ == uu;
                    assert((#[trigger] us@[q])@.id == a.user_id@ && us@[q]@.admin_id == Some(
                        admin_id@,
                    ));
                    assert(false);
                }
            }
        }
        if keep {
            let ghost olen = out@.len();
            let ghost pre = out@;
            out.push(a.duplicate());
            proof {
                assert(out@[olen as int]@ == all@[i2 as int]@);
                assert forall|q: int|
                    0 <= q < i2 + 1 && admin_owns(
                        db.users_map(),
                        admin_id@,
                        (#[trigger] all@[q])@.user_id,
                    ) implies exists|q2: int| 0 <= q2 < out@.len() && out@[q2]@ == all@[q]@ by {
                    if q < i2 {
                        let q2 = choose|q2: int| 0 <= q2 < olen && pre[q2]@ == all@[q]@;
                        assert(out@[q2]@ == all@[q]@);
                    } else {
                        assert(out@[olen as int]@ == all@[q]@);
                    }
                }
            }
        }
        i2 = i2 + 1;
    }
    proof {
        assert forall|k: Seq<char>| #[trigger] db.records_map().contains_key(k) implies record_dec(
            db.records_map()[k],
        ) is Some && (record_dec(db.records_map()[k]) matches Some(a2) ==> (admin_owns(
            db.users_map(),
            admin_id@,
            a2.user_id,
        ) ==> exists|q: int| 0 <= q < out@.len() && out@[q]@ == a2)) by {
            let a = record_dec(db.records_map()[k])->Some_0;
            if record_dec(db.records_map()[k]) is Some && admin_owns(
                db.users_map(),
                admin_id@,
                a.user_id,
            ) {
                let q = choose|q: int| 0 <= q < all@.len() && (#[trigger] all@[q])@ == a;
                assert(exists|q2: int| 0 <= q2 < out@.len() && out@[q2]@ == all@[q]@);
            }
        }
    }
    Ok(out)
}

/// The attendance records of the users managed by this admin; empty
/// when storage fails.
pub fn get_attendance_records_by_admin(db: &Database, admin_id: &String) -> (r: Vec<
    AttendanceRecord,
>)
    ensures
        forall|q: int|
            0 <= q < r@.len() ==> rec_in(db.records_map(), (#[trigger] r@[q])@) && admin_owns(
                db.users_map(),
                admin_id@,
                r@[q]@.user_id,
            ),
{
    match records_by_admin_checked(db, admin_id) {
        Ok(rs) => rs,
        Err(_) => Vec::new(),
    }
}

/// Geolocation acquisition is delegated to the caller's runtime.
pub fn get_current_location() -> (r: Result<(i64, i64), String>)
    ensures
        r is Err,
{
    Err("use the browser geolocation interface".to_owned())
}

/// The lengths and leading characters that tell the check-in messages
/// apart.
proof fn lemma_check_in_messages()
    ensures
        "user not found"@.len() == 14,
        "location not found"@.len() == 18,
        "check-in successful"@.len() == 19,
        "out of range: distance "@.len() == 23,
        "failed to persist the record"@.len() == 28,
        "no check-in location assigned"@.len() == 29,
        "storage error while loading the user"@.len() == 36,
        "storage error while loading the location"@.len() == 40,
        "out of range: distance "@[0] == 'o',
        "no check-in location assigned"@[0] == 'n',
{
    reveal_strlit("user not found");
    reveal_strlit("location not found");
    reveal_strlit("check-in successful");
    reveal_strlit("out of range: distance ");
    reveal_strlit("failed to persist the record");
    reveal_strlit("no check-in location assigned");
    reveal_strlit("storage error while loading the user");
    reveal_strlit("storage error while loading the location");
}

/// Validates a check-in: looks up the user and their assigned
/// location, computes the great-circle distance from the reported
/// position, and records the outcome. The boundary is inclusive: a
/// distance exactly equal to the radius succeeds. A rejected check-in
/// is recorded best-effort: the response reports the distance even if
/// the record could not be persisted.
pub fn check_in(db: &mut Database, request: &CheckInRequest) -> (r: CheckInResponse)
    requires
        valid_coords(request.latitude as int, request.longitude as int),
    ensures
        final(db).users_map() == old(db).users_map(),
        final(db).locations_map() == old(db).locations_map(),
        !old(db).users_map().contains_key(request.user_id@) ==> !r.success && r.record is None
            && final(db).records_map() == old(db).records_map() && (r.message matches Some(m) && (
        m@ == "user not found"@ || m@ == "storage error while loading the user"@)),
        old(db).users_map().contains_key(request.user_id@) && (user_dec(
            old(db).users_map()[request.user_id@],
        ) matches Some(u) && u.location_id is None) ==> !r.success && r.record is None && final(db).records_map() == old(db).records_map() && (r.message matches Some(m) && (m@
            == "no check-in location assigned"@ || m@
            == "storage error while loading the user"@)),
        old(db).users_map().contains_key(request.user_id@) && (user_dec(
            old(db).users_map()[request.user_id@],
        ) matches Some(u) && (u.location_id matches Some(lid) && !old(db).locations_map().contains_key(lid))) ==> !r.success && r.record is None && final(db).records_map() == old(db).records_map() && (r.message matches Some(m) && (m@
            == "location not found"@ || m@ == "storage error while loading the user"@ || m@
            == "storage error while loading the location"@)),
        (r.message matches Some(m) && m@ == "user not found"@) ==> !old(db).users_map().contains_key(request.user_id@),
        (r.message matches Some(m) && m@ == "no check-in location assigned"@) ==> old(db).users_map().contains_key(request.user_id@) && (user_dec(
            old(db).users_map()[request.user_id@],
        ) matches Some(u) && u.location_id is None),
        (r.message matches Some(m) && m@ == "location not found"@) ==> old(db).users_map().contains_key(request.user_id@) && (user_dec(
            old(db).users_map()[request.user_id@],
        ) matches Some(u) && (u.location_id matches Some(lid) && !old(db).locations_map().contains_key(lid))),
        r.record is None ==> !r.success && (final(db).records_map() == old(db).records_map() || ((
        r.message matches Some(m) && m@ == "failed to persist the record"@) && exists|
            rv: crate::models::RecordView,
        |
            rv.status == AttendanceStatus::Success && final(db).records_map() == old(db).records_map().insert(rv.id, record_enc(rv)))),
        old(db).users_map().contains_key(request.user_id@) && (user_dec(
            old(db).users_map()[request.user_id@],
        ) matches Some(u) && (u.location_id matches Some(lid) && old(db).locations_map().contains_key(lid) && location_dec(old(db).locations_map()[lid])
            is Some)) ==> ({
            let u = user_dec(old(db).users_map()[request.user_id@])->Some_0;
            let lid = u.location_id->0;
            let l = location_dec(old(db).locations_map()[lid])->Some_0;
            let d = distance_spec(
                request.latitude as int,
                request.longitude as int,
                l.latitude,
                l.longitude,
            );
            &&& (d <= l.radius ==> ((r.success && r.record is Some) || (r.message matches Some(m)
                && (m@ == "failed to persist the record"@ || m@
                == "storage error while loading the user"@ || m@
                == "storage error while loading the location"@))))
            &&& (d > l.radius ==> (r.record is Some || (r.message matches Some(m) && (m@
                == "storage error while loading the user"@ || m@
                == "storage error while loading the location"@))))
        }),
        r.record matches Some(rec) ==> ({
            let u = user_dec(old(db).users_map()[request.user_id@])->Some_0;
            let lid = u.location_id->0;
            let l = location_dec(old(db).locations_map()[lid])->Some_0;
            let d = distance_spec(
                request.latitude as int,
                request.longitude as int,
                l.latitude,
                l.longitude,
            );
            &&& old(db).users_map().contains_key(request.user_id@)
            &&& user_dec(old(db).users_map()[request.user_id@]) is Some
            &&& u.location_id is Some
            &&& old(db).locations_map().contains_key(lid)
            &&& location_dec(old(db).locations_map()[lid]) is Some
            &&& rec@.user_id == request.user_id@
            &&& rec@.location_id == l.id
            &&& rec@.latitude == request.latitude as int
            &&& rec@.longitude == request.longitude as int
            &&& (r.success <==> d <= l.radius)
            &&& (r.success ==> rec@.status == AttendanceStatus::Success && rec@.error_message
                is None && final(db).records_map() == old(db).records_map().insert(
                rec@.id,
                record_enc(rec@),
            ) && (r.message matches Some(m) && m@ == "check-in successful"@))
            &&& (!r.success ==> rec@.status == AttendanceStatus::Failed && rec@.error_message
                == Some(reject_message(d as nat)) && (r.message matches Some(m) && m@
                == reject_message(d as nat)) && (final(db).records_map() == old(db).records_map()
                || final(db).records_map() == old(db).records_map().insert(
                rec@.id,
                record_enc(rec@),
            )))
        }),
{
    proof {
        lemma_check_in_messages();
    }
    let user = match db.get_user(&request.user_id) {
        Ok(Some(u)) => u,
        Ok(None) => {
            return CheckInResponse {
                success: false,
                record: None,
                message: Some("user not found".to_owned()),
            };
        },
        Err(_) => {
            return CheckInResponse {
                success: false,
                record: None,
                message: Some("storage error while loading the user".to_owned()),
            };
        },
    };
    let location_id = match &user.location_id {
        Some(id) => id.clone(),
        None => {
            return CheckInResponse {
                success: false,
                record: None,
                message: Some("no check-in location assigned".to_owned()),
            };
        },
    };
    let location = match db.get_location(&location_id) {
        Ok(Some(l)) => l,
        Ok(None) => {
            return CheckInResponse {
                success: false,
                record: None,
                message: Some("location not found".to_owned()),
            };
        },
        Err(_) => {
            return CheckInResponse {
                success: false,
                record: None,
                message: Some("storage error while loading the location".to_owned()),
            };
        },
    };
    let distance = distance_cm(
        request.latitude,
        request.longitude,
        location.latitude,
        location.longitude,
    );
    if distance <= location.radius {
        let record = AttendanceRecord::new(
            request.user_id.clone(),
            location.id.clone(),
            request.latitude,
            request.longitude,
            AttendanceStatus::Success,
            None,
        );
        match db.save_record(&record) {
            Ok(()) => CheckInResponse {
                success: true,
                record: Some(record),
                message: Some("check-in successful".to_owned()),
            },
            Err(_) => CheckInResponse {
                success: false,
                record: None,
                message: Some("failed to persist the record".to_owned()),
            },
        }
    } else {
        let mut msg = "out of range: distance ".to_owned();
        msg.append(format_cm(distance).as_str());
        msg.append(" m");
        let record = AttendanceRecord::new(
            request.user_id.clone(),
            location.id.clone(),
            request.latitude,
            request.longitude,
            AttendanceStatus::Failed,
            Some(msg.clone()),
        );
        let saved = db.save_record(&record);
        proof {
            lemma_check_in_messages();
            reveal_strlit(" m");
            assert(" m"@.len() == 2);
            assert(msg@ == reject_message(distance as nat));
            crate::codec::lemma_fmt_cm_len(distance as nat);
            assert(msg@.len() >= 29);
            assert(msg@[0] == "out of range: distance "@[0]);
            assert(msg@[0] == 'o');
            assert(msg@ != "user not found"@);
            assert(msg@ != "location not found"@);
            assert(msg@ != "no check-in location assigned"@);
        }
        match saved {
            Ok(()) => CheckInResponse {
                success: false,
                record: Some(record),
                message: Some(msg),
            },
            Err(_) => CheckInResponse {
                success: false,
                record: Some(record),
                message: Some(msg),
            },
        }
    }
}

} // verus!
