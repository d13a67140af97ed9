use attendance::commands::{check_in, create_location, create_user, delete_location, delete_user,
    get_all_locations, get_all_users, get_attendance_records, get_attendance_records_by_admin,
    get_current_location, get_locations_by_admin, get_user_location, get_users_by_admin, login,
    update_location, update_user_location};
use attendance::database::Database;
use attendance::geo::distance_cm;
use attendance::models::{CheckInRequest, CreateLocationRequest, CreateUserRequest, LoginRequest,
    UpdateLocationRequest, UserRole, AttendanceStatus};

fn fresh_db() -> Database {
    let path = format!("/tmp/attendance_test_{}", uuid::Uuid::new_v4());
    Database::new(&path).expect("open store")
}

fn make_admin(db: &mut Database, name: &str) -> attendance::models::User {
    create_user(
        db,
        &CreateUserRequest {
            username: name.to_string(),
            password: "pw".to_string(),
            role: UserRole::Admin,
            admin_id: None,
        },
    )
    .expect("create admin")
}

fn make_user(db: &mut Database, name: &str, admin_id: &str) -> attendance::models::User {
    create_user(
        db,
        &CreateUserRequest {
            username: name.to_string(),
            password: "pw".to_string(),
            role: UserRole::User,
            admin_id: Some(admin_id.to_string()),
        },
    )
    .expect("create user")
}

fn make_location(
    db: &mut Database,
    lat: i64,
    lon: i64,
    radius: u64,
    admin_id: &str,
) -> attendance::models::Location {
    create_location(
        db,
        &CreateLocationRequest {
            name: "office".to_string(),
            latitude: lat,
            longitude: lon,
            radius,
            admin_id: admin_id.to_string(),
        },
    )
    .expect("create location")
}

#[test]
fn check_in_at_center_succeeds() {
    let mut db = fresh_db();
    let admin = make_admin(&mut db, "boss");
    let user = make_user(&mut db, "worker", &admin.id);
    let loc = make_location(&mut db, 52_520_000, 13_405_000, 100, &admin.id);
    update_user_location(&mut db, &user.id, &loc.id).expect("assign");
    let r = check_in(
        &mut db,
        &CheckInRequest { user_id: user.id.clone(), latitude: 52_520_000, longitude: 13_405_000 },
    );
    assert!(r.success);
    let rec = r.record.expect("record");
    assert!(matches!(rec.status, AttendanceStatus::Success));
    assert_eq!(rec.user_id, user.id);
    assert!(rec.error_message.is_none());
}

#[test]
fn check_in_boundary_is_inclusive() {
    let mut db = fresh_db();
    let admin = make_admin(&mut db, "boss");
    let user = make_user(&mut db, "worker", &admin.id);
    let d = distance_cm(0, 0, 0, 10_000);
    assert!(d > 200);
    let loc = make_location(&mut db, 0, 10_000, d, &admin.id);
    update_user_location(&mut db, &user.id, &loc.id).expect("assign");
    let r = check_in(&mut db, &CheckInRequest { user_id: user.id.clone(), latitude: 0, longitude: 0 });
    assert!(r.success, "distance exactly equal to the radius must succeed");
}

#[test]
fn check_in_outside_reports_distance() {
    let mut db = fresh_db();
    let admin = make_admin(&mut db, "boss");
    let user = make_user(&mut db, "worker", &admin.id);
    let d = distance_cm(0, 0, 0, 10_000);
    let loc = make_location(&mut db, 0, 10_000, d - 100, &admin.id);
    update_user_location(&mut db, &user.id, &loc.id).expect("assign");
    let r = check_in(&mut db, &CheckInRequest { user_id: user.id.clone(), latitude: 0, longitude: 0 });
    assert!(!r.success);
    let expected = format!("{}.{:02}", d / 100, d % 100);
    let msg = r.message.expect("message");
    assert!(msg.contains(&expected), "message {msg:?} must contain {expected:?}");
    let rec = r.record.expect("record");
    assert!(matches!(rec.status, AttendanceStatus::Failed));
    assert!(rec.error_message.expect("error message").contains(&expected));
}

#[test]
fn check_in_unknown_user_fails() {
    let mut db = fresh_db();
    let r = check_in(
        &mut db,
        &CheckInRequest { user_id: "missing".to_string(), latitude: 0, longitude: 0 },
    );
    assert!(!r.success);
    assert!(r.record.is_none());
    assert_eq!(r.message.as_deref(), Some("user not found"));
}

#[test]
fn check_in_without_assignment_fails() {
    let mut db = fresh_db();
    let admin = make_admin(&mut db, "boss");
    let user = make_user(&mut db, "worker", &admin.id);
    let r = check_in(&mut db, &CheckInRequest { user_id: user.id.clone(), latitude: 0, longitude: 0 });
    assert!(!r.success);
    assert_eq!(r.message.as_deref(), Some("no check-in location assigned"));
}

#[test]
fn check_in_dangling_location_fails() {
    let mut db = fresh_db();
    let admin = make_admin(&mut db, "boss");
    let user = make_user(&mut db, "worker", &admin.id);
    let loc = make_location(&mut db, 0, 0, 100, &admin.id);
    update_user_location(&mut db, &user.id, &loc.id).expect("assign");
    delete_location(&mut db, &loc.id).expect("delete");
    let r = check_in(&mut db, &CheckInRequest { user_id: user.id.clone(), latitude: 0, longitude: 0 });
    assert!(!r.success);
    assert_eq!(r.message.as_deref(), Some("location not found"));
}

#[test]
fn duplicate_username_is_refused() {
    let mut db = fresh_db();
    let first = make_admin(&mut db, "sam");
    let second = create_user(
        &mut db,
        &CreateUserRequest {
            username: "sam".to_string(),
            password: "other".to_string(),
            role: UserRole::User,
            admin_id: None,
        },
    );
    assert_eq!(second.unwrap_err(), "username already exists");
    let r = login(&db, &LoginRequest { username: "sam".to_string(), password: "pw".to_string() });
    assert!(r.success, "the first user must be unaffected");
    assert_eq!(r.user.expect("user").id, first.id);
}

#[test]
fn login_rejects_bad_credentials() {
    let mut db = fresh_db();
    make_admin(&mut db, "sam");
    let wrong = login(&db, &LoginRequest { username: "sam".to_string(), password: "x".to_string() });
    assert!(!wrong.success);
    assert_eq!(wrong.message.as_deref(), Some("incorrect password"));
    let missing = login(&db, &LoginRequest { username: "nobody".to_string(), password: "x".to_string() });
    assert!(!missing.success);
    assert_eq!(missing.message.as_deref(), Some("user not found"));
}

#[test]
fn deleted_location_reads_as_absent() {
    let mut db = fresh_db();
    let admin = make_admin(&mut db, "boss");
    let user = make_user(&mut db, "worker", &admin.id);
    let loc = make_location(&mut db, 1_000_000, 2_000_000, 500, &admin.id);
    update_user_location(&mut db, &user.id, &loc.id).expect("assign");
    assert!(get_user_location(&db, &user.id).is_some());
    delete_location(&mut db, &loc.id).expect("delete");
    assert!(get_user_location(&db, &user.id).is_none());
}

#[test]
fn bootstrap_is_idempotent() {
    let mut db = fresh_db();
    db.init_default_admin().expect("first init");
    db.init_default_admin().expect("second init");
    let admins: Vec<_> = get_all_users(&db)
        .into_iter()
        .filter(|u| u.username == "admin")
        .collect();
    assert_eq!(admins.len(), 1);
    assert!(matches!(admins[0].role, UserRole::Admin));
}

#[test]
fn migration_leaves_assigned_users_alone() {
    let mut db = fresh_db();
    db.init_default_admin().expect("init");
    let assigned = make_user(&mut db, "assigned", "custom-admin-id");
    let orphan = create_user(
        &mut db,
        &CreateUserRequest {
            username: "orphan".to_string(),
            password: "pw".to_string(),
            role: UserRole::User,
            admin_id: None,
        },
    )
    .expect("orphan");
    db.init_default_admin().expect("re-init runs migration");
    let users = get_all_users(&db);
    let assigned_after = users.iter().find(|u| u.id == assigned.id).expect("assigned");
    assert_eq!(assigned_after.admin_id.as_deref(), Some("custom-admin-id"));
    let orphan_after = users.iter().find(|u| u.id == orphan.id).expect("orphan");
    let default_admin = users.iter().find(|u| u.username == "admin").expect("admin");
    assert_eq!(orphan_after.admin_id.as_deref(), Some(default_admin.id.as_str()));
}

#[test]
fn records_by_admin_are_exactly_the_admins_users() {
    let mut db = fresh_db();
    let a1 = make_admin(&mut db, "a1");
    let a2 = make_admin(&mut db, "a2");
    let u1 = make_user(&mut db, "u1", &a1.id);
    let u2 = make_user(&mut db, "u2", &a2.id);
    let l1 = make_location(&mut db, 0, 0, 1_000, &a1.id);
    let l2 = make_location(&mut db, 0, 0, 1_000, &a2.id);
    update_user_location(&mut db, &u1.id, &l1.id).expect("assign u1");
    update_user_location(&mut db, &u2.id, &l2.id).expect("assign u2");
    assert!(check_in(&mut db, &CheckInRequest { user_id: u1.id.clone(), latitude: 0, longitude: 0 }).success);
    assert!(check_in(&mut db, &CheckInRequest { user_id: u1.id.clone(), latitude: 0, longitude: 0 }).success);
    assert!(check_in(&mut db, &CheckInRequest { user_id: u2.id.clone(), latitude: 0, longitude: 0 }).success);
    let rs1 = get_attendance_records_by_admin(&db, &a1.id);
    assert_eq!(rs1.len(), 2);
    assert!(rs1.iter().all(|r| r.user_id == u1.id));
    let rs2 = get_attendance_records_by_admin(&db, &a2.id);
    assert_eq!(rs2.len(), 1);
    assert!(rs2.iter().all(|r| r.user_id == u2.id));
}

#[test]
fn entities_round_trip_through_storage() {
    let mut db = fresh_db();
    let admin = make_admin(&mut db, "a|d\\min\u{1F600} 名前");
    let r = login(
        &db,
        &LoginRequest { username: "a|d\\min\u{1F600} 名前".to_string(), password: "pw".to_string() },
    );
    assert!(r.success);
    let back = r.user.expect("user");
    assert_eq!(back.id, admin.id);
    assert_eq!(back.username, admin.username);
    let loc = make_location(&mut db, -33_868_800, 151_209_300, 250, &admin.id);
    let locs = get_all_locations(&db);
    assert_eq!(locs.len(), 1);
    assert_eq!(locs[0].id, loc.id);
    assert_eq!(locs[0].latitude, -33_868_800);
    assert_eq!(locs[0].longitude, 151_209_300);
    assert_eq!(locs[0].radius, 250);
}

#[test]
fn partial_update_changes_only_given_fields() {
    let mut db = fresh_db();
    let admin = make_admin(&mut db, "boss");
    let loc = make_location(&mut db, 1_000_000, 2_000_000, 500, &admin.id);
    let updated = update_location(
        &mut db,
        &loc.id,
        &UpdateLocationRequest { name: None, latitude: None, longitude: None, radius: Some(900) },
    )
    .expect("update");
    assert_eq!(updated.radius, 900);
    assert_eq!(updated.name, "office");
    assert_eq!(updated.latitude, 1_000_000);
    assert_eq!(updated.longitude, 2_000_000);
    let missing = update_location(
        &mut db,
        &"nope".to_string(),
        &UpdateLocationRequest { name: None, latitude: None, longitude: None, radius: None },
    );
    assert_eq!(missing.unwrap_err(), "location not found");
}

#[test]
fn filters_scope_to_the_admin() {
    let mut db = fresh_db();
    let a1 = make_admin(&mut db, "a1");
    let a2 = make_admin(&mut db, "a2");
    make_user(&mut db, "u1", &a1.id);
    make_user(&mut db, "u2", &a2.id);
    make_location(&mut db, 0, 0, 100, &a1.id);
    make_location(&mut db, 0, 0, 100, &a2.id);
    let us = get_users_by_admin(&db, &a1.id);
    assert_eq!(us.len(), 1);
    assert_eq!(us[0].username, "u1");
    let ls = get_locations_by_admin(&db, &a2.id);
    assert_eq!(ls.len(), 1);
    assert_eq!(ls[0].admin_id, a2.id);
}

#[test]
fn records_filter_by_user() {
    let mut db = fresh_db();
    let admin = make_admin(&mut db, "boss");
    let user = make_user(&mut db, "worker", &admin.id);
    let loc = make_location(&mut db, 0, 0, 1_000, &admin.id);
    update_user_location(&mut db, &user.id, &loc.id).expect("assign");
    assert!(check_in(&mut db, &CheckInRequest { user_id: user.id.clone(), latitude: 0, longitude: 0 }).success);
    let mine = get_attendance_records(&db, Some(&user.id));
    assert_eq!(mine.len(), 1);
    let everyone = get_attendance_records(&db, None);
    assert_eq!(everyone.len(), 1);
    let nobody = get_attendance_records(&db, Some(&"ghost".to_string()));
    assert!(nobody.is_empty());
}

#[test]
fn delete_user_removes_the_account() {
    let mut db = fresh_db();
    let admin = make_admin(&mut db, "boss");
    let user = make_user(&mut db, "worker", &admin.id);
    delete_user(&mut db, &user.id).expect("delete");
    let r = login(&db, &LoginRequest { username: "worker".to_string(), password: "pw".to_string() });
    assert!(!r.success);
    assert_eq!(get_users_by_admin(&db, &admin.id).len(), 0);
    delete_user(&mut db, &user.id).expect("deleting an absent id succeeds");
}

#[test]
fn current_location_is_delegated() {
    assert!(get_current_location().is_err());
}

#[test]
fn updating_a_missing_user_reports_not_found() {
    let mut db = fresh_db();
    let admin = make_admin(&mut db, "boss");
    let loc = make_location(&mut db, 0, 0, 100, &admin.id);
    let r = update_user_location(&mut db, &"ghost".to_string(), &loc.id);
    assert_eq!(r.unwrap_err(), "user not found");
}

#[test]
fn admin_filters_come_in_key_order() {
    let mut db = fresh_db();
    let a = make_admin(&mut db, "boss");
    make_user(&mut db, "u1", &a.id);
    make_user(&mut db, "u2", &a.id);
    make_user(&mut db, "u3", &a.id);
    let us = get_users_by_admin(&db, &a.id);
    assert_eq!(us.len(), 3);
    for w in us.windows(2) {
        assert!(w[0].id < w[1].id, "ids must come in ascending key order");
    }
}
