//! Entity model: users, locations, attendance records, and the
//! request/response shapes of the command surface.
//!
//! Coordinates are carried as signed microdegrees (1e-6 of a degree), so
//! a latitude lies in [-90_000_000, 90_000_000] and a longitude in
//! [-180_000_000, 180_000_000]. Radii and distances are carried in
//! centimeters, which keeps the two-decimal meter formatting of messages
//! exact.

use vstd::prelude::*;

verus! {

/// Role of a user account: administrators own locations and manage users.
#[derive(Clone, Copy, PartialEq, Eq, Structural, Debug)]
pub enum UserRole {
    Admin,
    User,
}

/// Outcome recorded for one check-in attempt.
#[derive(Clone, Copy, PartialEq, Eq, Structural, Debug)]
pub enum AttendanceStatus {
    Success,
    Failed,
}

/// A user account. `admin_id` and `location_id` are optional references
/// by id with no referential integrity: they may dangle.
#[derive(Clone, Debug)]
pub struct User {
    pub id: String,
    pub username: String,
    pub password: String,
    pub role: UserRole,
    pub admin_id: Option<String>,
    pub location_id: Option<String>,
}

/// A geofenced location: a circle of `radius` centimeters around the
/// point (`latitude`, `longitude`) in microdegrees, owned by an admin.
#[derive(Clone, Debug)]
pub struct Location {
    pub id: String,
    pub name: String,
    pub latitude: i64,
    pub longitude: i64,
    pub radius: u64,
    pub admin_id: String,
}

/// One check-in attempt: the reported position, when it happened, and
/// whether it fell inside the assigned location's geofence.
#[derive(Clone, Debug)]
pub struct AttendanceRecord {
    pub id: String,
    pub user_id: String,
    pub location_id: String,
    pub latitude: i64,
    pub longitude: i64,
    pub timestamp: i64,
    pub status: AttendanceStatus,
    pub error_message: Option<String>,
}

/// Mathematical view of a `User`: the same fields over `Seq<char>`.
pub struct UserView {
    pub id: Seq<char>,
    pub username: Seq<char>,
    pub password: Seq<char>,
    pub role: UserRole,
    pub admin_id: Option<Seq<char>>,
    pub location_id: Option<Seq<char>>,
}

/// Mathematical view of a `Location`.
pub struct LocationView {
    pub id: Seq<char>,
    pub name: Seq<char>,
    pub latitude: int,
    pub longitude: int,
    pub radius: int,
    pub admin_id: Seq<char>,
}

/// Mathematical view of an `AttendanceRecord`.
pub struct RecordView {
    pub id: Seq<char>,
    pub user_id: Seq<char>,
    pub location_id: Seq<char>,
    pub latitude: int,
    pub longitude: int,
    pub timestamp: int,
    pub status: AttendanceStatus,
    pub error_message: Option<Seq<char>>,
}

/// View of an optional string as an optional character sequence.
pub open spec fn opt_view(o: Option<String>) -> Option<Seq<char>> {
    match o {
        Some(s) => Some(s@),
        None => None,
    }
}

impl View for User {
    type V = UserView;

    open spec fn view(&self) -> UserView {
        UserView {
            id: self.id@,
            username: self.username@,
            password: self.password@,
            role: self.role,
            admin_id: opt_view(self.admin_id),
            location_id: opt_view(self.location_id),
        }
    }
}

impl View for Location {
    type V = LocationView;

    open spec fn view(&self) -> LocationView {
        LocationView {
            id: self.id@,
            name: self.name@,
            latitude: self.latitude as int,
            longitude: self.longitude as int,
            radius: self.radius as int,
            admin_id: self.admin_id@,
        }
    }
}

impl View for AttendanceRecord {
    type V = RecordView;

    open spec fn view(&self) -> RecordView {
        RecordView {
            id: self.id@,
            user_id: self.user_id@,
            location_id: self.location_id@,
            latitude: self.latitude as int,
            longitude: self.longitude as int,
            timestamp: self.timestamp as int,
            status: self.status,
            error_message: opt_view(self.error_message),
        }
    }
}

/// A latitude/longitude pair lies on the globe.
pub open spec fn valid_coords(lat: int, lon: int) -> bool {
    -90_000_000 <= lat <= 90_000_000 && -180_000_000 <= lon <= 180_000_000
}

/// The data-model invariant of a location: coordinates on the globe and
/// a strictly positive radius.
pub open spec fn valid_location(l: LocationView) -> bool {
    valid_coords(l.latitude, l.longitude) && l.radius >= 1
}

/// Request to create a user account.
pub struct CreateUserRequest {
    pub username: String,
    pub password: String,
    pub role: UserRole,
    pub admin_id: Option<String>,
}

/// Request to create a location.
pub struct CreateLocationRequest {
    pub name: String,
    pub latitude: i64,
    pub longitude: i64,
    pub radius: u64,
    pub admin_id: String,
}

/// Partial update of a location: only the fields that are present change.
pub struct UpdateLocationRequest {
    pub name: Option<String>,
    pub latitude: Option<i64>,
    pub longitude: Option<i64>,
    pub radius: Option<u64>,
}

/// Login credentials.
pub struct LoginRequest {
    pub username: String,
    pub password: String,
}

/// Outcome of a login attempt.
pub struct LoginResponse {
    pub success: bool,
    pub user: Option<User>,
    pub message: Option<String>,
}

/// A check-in attempt: reported position in microdegrees.
pub struct CheckInRequest {
    pub user_id: String,
    pub latitude: i64,
    pub longitude: i64,
}

/// Outcome of a check-in attempt.
pub struct CheckInResponse {
    pub success: bool,
    pub record: Option<AttendanceRecord>,
    pub message: Option<String>,
}

/// Relies on `uuid::Uuid::new_v4` and `uuid::fmt::Hyphenated`: a random
/// version-4 UUID rendered in the hyphenated form, which is always 36
/// ASCII characters. The value is random, so nothing more is promised.
#[verifier::external_body]
pub fn fresh_id() -> (r: String)
    ensures
        r@.len() == 36,
{
    uuid::Uuid::new_v4().to_string()
}

/// Relies on `chrono::Utc::now`: seconds since the Unix epoch at the
/// moment of the call. The clock is outside the model, so nothing is
/// promised of the value.
#[verifier::external_body]
pub fn now_timestamp() -> (r: i64) {
    chrono::Utc::now().timestamp()
}

impl User {
    /// Builds a user with a freshly generated id and no assigned location.
    pub fn new(username: String, password: String, role: UserRole, admin_id: Option<String>) -> (r:
        User)
        ensures
            r@.username == username@,
            r@.password == password@,
            r@.role == role,
            r@.admin_id == opt_view(admin_id),
            r@.location_id is None,
            r@.id.len() == 36,
    {
        User {
            id: fresh_id(),
            username,
            password,
            role,
            admin_id,
            location_id: None,
        }
    }
}

impl Location {
    /// Builds a location with a freshly generated id.
    pub fn new(name: String, latitude: i64, longitude: i64, radius: u64, admin_id: String) -> (r:
        Location)
        ensures
            r@.name == name@,
            r@.latitude == latitude as int,
            r@.longitude == longitude as int,
            r@.radius == radius as int,
            r@.admin_id == admin_id@,
            r@.id.len() == 36,
    {
        Location { id: fresh_id(), name, latitude, longitude, radius, admin_id }
    }
}

impl AttendanceRecord {
    /// Builds a record with a freshly generated id, stamped with the
    /// current time.
    pub fn new(
        user_id: String,
        location_id: String,
        latitude: i64,
        longitude: i64,
        status: AttendanceStatus,
        error_message: Option<String>,
    ) -> (r: AttendanceRecord)
        ensures
            r@.user_id == user_id@,
            r@.location_id == location_id@,
            r@.latitude == latitude as int,
            r@.longitude == longitude as int,
            r@.status == status,
            r@.error_message == opt_view(error_message),
            r@.id.len() == 36,
    {
        AttendanceRecord {
            id: fresh_id(),
            user_id,
            location_id,
            latitude,
            longitude,
            timestamp: now_timestamp(),
            status,
            error_message,
        }
    }
}


impl User {
    /// A field-for-field copy.
    pub fn duplicate(&self) -> (r: User)
        ensures
            r@ == self@,
    {
        User {
            id: self.id.clone(),
            username: self.username.clone(),
            password: self.password.clone(),
            role: self.role,
            admin_id: match &self.admin_id {
                Some(s) => Some(s.clone()),
                None => None,
            },
            location_id: match &self.location_id {
                Some(s) => Some(s.clone()),
                None => None,
            },
        }
    }
}

impl Location {
    /// A field-for-field copy.
    pub fn duplicate(&self) -> (r: Location)
        ensures
            r@ == self@,
    {
        Location {
            id: self.id.clone(),
            name: self.name.clone(),
            latitude: self.latitude,
            longitude: self.longitude,
            radius: self.radius,
            admin_id: self.admin_id.clone(),
        }
    }
}

impl AttendanceRecord {
    /// A field-for-field copy.
    pub fn duplicate(&self) -> (r: AttendanceRecord)
        ensures
            r@ == self@,
    {
        AttendanceRecord {
            id: self.id.clone(),
            user_id: self.user_id.clone(),
            location_id: self.location_id.clone(),
            latitude: self.latitude,
            longitude: self.longitude,
            timestamp: self.timestamp,
            status: self.status,
            error_message: match &self.error_message {
                Some(s) => Some(s.clone()),
                None => None,
            },
        }
    }
}

} // verus!
