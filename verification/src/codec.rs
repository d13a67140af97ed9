//! Character-level codec for durable entity records.
//!
//! Every entity is stored as one text record: a sequence of fields, each
//! terminated by `'|'`, with `'\\'` escaping any literal `'|'` or `'\\'`
//! inside a field. Numbers are stored as decimal digit runs, negatives
//! with a leading `'-'`, options as a `0`/`1` tag field followed by the
//! payload. Decoding parses a record back; `lemma_user_round_trip` and
//! its siblings prove that decoding inverts encoding.

use vstd::prelude::*;
use vstd::arithmetic::div_mod::lemma_fundamental_div_mod;
use crate::models::{User, UserView, UserRole, Location, LocationView, AttendanceRecord, RecordView,
    AttendanceStatus, opt_view, valid_location};

verus! {

/// Largest numeric value the parser accepts; everything the codec
/// writes is far below it.
pub const NUM_LIMIT: u128 = 100_000_000_000_000_000_000;

/// The decimal digit `d` as a character.
pub open spec fn digit_char(d: nat) -> char {
    if d == 0 {
        '0'
    } else if d == 1 {
        '1'
    } else if d == 2 {
        '2'
    } else if d == 3 {
        '3'
    } else if d == 4 {
        '4'
    } else if d == 5 {
        '5'
    } else if d == 6 {
        '6'
    } else if d == 7 {
        '7'
    } else if d == 8 {
        '8'
    } else {
        '9'
    }
}

/// The numeric value of a digit character, 10 for anything else.
pub open spec fn char_val(c: char) -> nat {
    if c == '0' {
        0
    } else if c == '1' {
        1
    } else if c == '2' {
        2
    } else if c == '3' {
        3
    } else if c == '4' {
        4
    } else if c == '5' {
        5
    } else if c == '6' {
        6
    } else if c == '7' {
        7
    } else if c == '8' {
        8
    } else if c == '9' {
        9
    } else {
        10
    }
}

pub open spec fn is_digit(c: char) -> bool {
    char_val(c) < 10
}

/// Decimal representation of `n`, most significant digit first.
pub open spec fn dec_rep(n: nat) -> Seq<char>
    decreases n,
{
    if n < 10 {
        seq![digit_char(n)]
    } else {
        dec_rep(n / 10) + seq![digit_char(n % 10)]
    }
}

/// A field character, escaped if it collides with the separator or the
/// escape character itself.
pub open spec fn esc_char(c: char) -> Seq<char> {
    if c == '\\' || c == '|' {
        seq!['\\', c]
    } else {
        seq![c]
    }
}

/// A whole field, escaped.
pub open spec fn esc_str(f: Seq<char>) -> Seq<char>
    decreases f.len(),
{
    if f.len() == 0 {
        Seq::empty()
    } else {
        esc_char(f[0]) + esc_str(f.drop_first())
    }
}

/// An encoded string field: the escaped content and the terminator.
pub open spec fn enc_str(f: Seq<char>) -> Seq<char> {
    esc_str(f) + seq!['|']
}

/// An encoded nonnegative number field.
pub open spec fn enc_nat(n: nat) -> Seq<char> {
    dec_rep(n) + seq!['|']
}

/// An encoded signed number field.
pub open spec fn enc_int(x: int) -> Seq<char> {
    if x >= 0 {
        enc_nat(x as nat)
    } else {
        seq!['-'] + enc_nat((-x) as nat)
    }
}

/// An encoded optional string: a presence tag, then the payload.
pub open spec fn enc_opt(o: Option<Seq<char>>) -> Seq<char> {
    match o {
        None => enc_nat(0),
        Some(f) => enc_nat(1) + enc_str(f),
    }
}

/// Parses a digit run terminated by `'|'`, accumulating into `acc`;
/// refuses numbers at or above `NUM_LIMIT`.
pub open spec fn parse_nat_at(s: Seq<char>, i: int, acc: nat) -> Option<(nat, int)>
    decreases s.len() - i,
{
    if i < 0 || i >= s.len() {
        None
    } else if s[i] == '|' {
        Some((acc, i + 1))
    } else if is_digit(s[i]) && acc < NUM_LIMIT {
        parse_nat_at(s, i + 1, acc * 10 + char_val(s[i]))
    } else {
        None
    }
}

/// Parses a signed number field.
pub open spec fn parse_int_at(s: Seq<char>, i: int) -> Option<(int, int)> {
    if 0 <= i < s.len() && s[i] == '-' {
        match parse_nat_at(s, i + 1, 0) {
            Some((m, j)) => Some((-(m as int), j)),
            None => None,
        }
    } else {
        match parse_nat_at(s, i, 0) {
            Some((m, j)) => Some((m as int, j)),
            None => None,
        }
    }
}

/// Parses one escaped field terminated by `'|'`.
pub open spec fn parse_field_at(s: Seq<char>, i: int) -> Option<(Seq<char>, int)>
    decreases s.len() - i,
{
    if i < 0 || i >= s.len() {
        None
    } else if s[i] == '|' {
        Some((Seq::empty(), i + 1))
    } else if s[i] == '\\' {
        if i + 1 < s.len() {
            match parse_field_at(s, i + 2) {
                Some((f, j)) => Some((seq![s[i + 1]] + f, j)),
                None => None,
            }
        } else {
            None
        }
    } else {
        match parse_field_at(s, i + 1) {
            Some((f, j)) => Some((seq![s[i]] + f, j)),
            None => None,
        }
    }
}

/// Parses an optional string field.
pub open spec fn parse_opt_at(s: Seq<char>, i: int) -> Option<(Option<Seq<char>>, int)> {
    match parse_nat_at(s, i, 0) {
        Some((tag, j)) => if tag == 0 {
            Some((None, j))
        } else if tag == 1 {
            match parse_field_at(s, j) {
                Some((f, k)) => Some((Some(f), k)),
                None => None,
            }
        } else {
            None
        },
        None => None,
    }
}

/// `p` occurs in `s` at offset `i`.
pub open spec fn matches_at(s: Seq<char>, i: int, p: Seq<char>) -> bool {
    0 <= i && i + p.len() <= s.len() && (forall|k: int| 0 <= k < p.len() ==> s[i + k] == #[trigger] p[k])
}

/// A match of a concatenation splits into matches of the parts.
pub proof fn lemma_matches_split(s: Seq<char>, i: int, x: Seq<char>, y: Seq<char>)
    requires
        matches_at(s, i, x + y),
    ensures
        matches_at(s, i, x),
        matches_at(s, i + x.len(), y),
{
    assert forall|k: int| 0 <= k < x.len() implies s[i + k] == #[trigger] x[k] by {
        assert((x + y)[k] == x[k]);
    }
    assert forall|k: int| 0 <= k < y.len() implies s[i + x.len() + k] == #[trigger] y[k] by {
        assert((x + y)[x.len() + k] == y[k]);
    }
}

/// Value of a digit run, most significant first, on top of `acc`.
pub open spec fn val_acc(ds: Seq<char>, acc: nat) -> nat
    decreases ds.len(),
{
    if ds.len() == 0 {
        acc
    } else {
        val_acc(ds.drop_first(), acc * 10 + char_val(ds[0]))
    }
}

pub open spec fn all_digits(ds: Seq<char>) -> bool {
    forall|k: int| 0 <= k < ds.len() ==> is_digit(#[trigger] ds[k])
}

/// The accumulated value never shrinks along the scan.
proof fn lemma_val_acc_ge(ds: Seq<char>, acc: nat)
    ensures
        val_acc(ds, acc) >= acc,
    decreases ds.len(),
{
    if ds.len() > 0 {
        lemma_val_acc_ge(ds.drop_first(), acc * 10 + char_val(ds[0]));
    }
}

/// Appending a digit multiplies the accumulated value by ten.
proof fn lemma_val_acc_append(ds: Seq<char>, c: char, acc: nat)
    ensures
        val_acc(ds + seq![c], acc) == val_acc(ds, acc) * 10 + char_val(c),
    decreases ds.len(),
{
    if ds.len() == 0 {
        assert(ds + seq![c] =~= seq![c]);
        let one = seq![c];
        assert(one[0] == c);
        assert(one.drop_first().len() == 0);
        assert(val_acc(one.drop_first(), acc * 10 + char_val(c)) == acc * 10 + char_val(c));
        assert(val_acc(one, acc) == val_acc(one.drop_first(), acc * 10 + char_val(one[0])));
    } else {
        assert((ds + seq![c]).drop_first() =~= ds.drop_first() + seq![c]);
        lemma_val_acc_append(ds.drop_first(), c, acc * 10 + char_val(ds[0]));
    }
}

/// Scanning the decimal representation of `n` over `acc == 0` yields `n`.
proof fn lemma_dec_rep_val(n: nat)
    ensures
        val_acc(dec_rep(n), 0) == n,
        all_digits(dec_rep(n)),
        dec_rep(n).len() >= 1,
    decreases n,
{
    lemma_dec_rep_val_acc(n, 0);
}

/// Generalization of `lemma_dec_rep_val` over the accumulator.
proof fn lemma_dec_rep_val_acc(n: nat, acc: nat)
    ensures
        val_acc(dec_rep(n), acc) == acc * pow10(dec_rep(n).len()) + n,
        all_digits(dec_rep(n)),
        dec_rep(n).len() >= 1,
    decreases n,
{
    if n < 10 {
        assert(dec_rep(n) =~= seq![digit_char(n)]);
        let one = seq![digit_char(n)];
        assert(one[0] == digit_char(n));
        assert(one.drop_first().len() == 0);
        assert(val_acc(one.drop_first(), acc * 10 + char_val(digit_char(n))) == acc * 10
            + char_val(digit_char(n)));
        assert(char_val(digit_char(n)) == n);
        assert(pow10(0) == 1);
        assert(pow10(1) == 10);
    } else {
        lemma_dec_rep_val_acc(n / 10, acc);
        lemma_val_acc_append(dec_rep(n / 10), digit_char(n % 10), acc);
        let l = dec_rep(n / 10).len();
        assert(char_val(digit_char(n % 10)) == n % 10);
        assert(val_acc(dec_rep(n), acc) == (acc * pow10(l) + n / 10) * 10 + n % 10);
        assert((acc * pow10(l) + n / 10) * 10 == acc * pow10(l) * 10 + (n / 10) * 10)
            by (nonlinear_arith);
        assert(acc * pow10(l) * 10 == acc * (pow10(l) * 10)) by (nonlinear_arith);
        assert(pow10(l) * 10 == pow10(l + 1));
        lemma_fundamental_div_mod(n as int, 10);
        assert(dec_rep(n).len() == l + 1);
        assert(forall|k: int|
            0 <= k < dec_rep(n).len() ==> is_digit(#[trigger] dec_rep(n)[k]));
    }
}

pub open spec fn pow10(k: nat) -> nat
    decreases k,
{
    if k == 0 {
        1
    } else {
        10 * pow10((k - 1) as nat)
    }
}

/// Scanning a matched digit run advances the parser over it.
proof fn lemma_parse_digits(s: Seq<char>, i: int, ds: Seq<char>, acc: nat)
    requires
        matches_at(s, i, ds),
        all_digits(ds),
        val_acc(ds, acc) < NUM_LIMIT,
    ensures
        parse_nat_at(s, i, acc) == parse_nat_at(s, i + ds.len(), val_acc(ds, acc)),
    decreases ds.len(),
{
    if ds.len() > 0 {
        assert(s[i] == ds[0]);
        assert(is_digit(ds[0]));
        assert(s[i] != '|');
        lemma_val_acc_ge(ds.drop_first(), acc * 10 + char_val(ds[0]));
        assert(acc < NUM_LIMIT);
        assert forall|k: int| 0 <= k < ds.drop_first().len() implies s[i + 1 + k]
            == #[trigger] ds.drop_first()[k] by {
            assert(ds.drop_first()[k] == ds[k + 1]);
            assert(s[i + (k + 1)] == ds[k + 1]);
        }
        lemma_parse_digits(s, i + 1, ds.drop_first(), acc * 10 + char_val(ds[0]));
    }
}

/// Parsing at an encoded number field returns exactly that number.
pub proof fn lemma_parse_nat_enc(s: Seq<char>, i: int, n: nat)
    requires
        matches_at(s, i, enc_nat(n)),
        n < NUM_LIMIT,
    ensures
        parse_nat_at(s, i, 0) == Some((n, i + enc_nat(n).len())),
{
    lemma_dec_rep_val(n);
    lemma_matches_split(s, i, dec_rep(n), seq!['|']);
    lemma_parse_digits(s, i, dec_rep(n), 0);
    let j = i + dec_rep(n).len();
    assert(s[j + 0] == seq!['|'][0]);
    assert(s[j] == '|');
}

/// Parsing at an encoded signed field returns exactly that value.
pub proof fn lemma_parse_int_enc(s: Seq<char>, i: int, x: int)
    requires
        matches_at(s, i, enc_int(x)),
        -(NUM_LIMIT as int) < x < NUM_LIMIT as int,
    ensures
        parse_int_at(s, i) == Some((x, i + enc_int(x).len())),
{
    if x >= 0 {
        lemma_parse_nat_enc(s, i, x as nat);
        if 0 <= i < s.len() && s[i] == '-' {
            lemma_dec_rep_val(x as nat);
            assert(s[i + 0] == enc_nat(x as nat)[0]);
            assert(is_digit(dec_rep(x as nat)[0]));
            assert(enc_nat(x as nat)[0] == dec_rep(x as nat)[0]);
            assert(false);
        }
    } else {
        lemma_matches_split(s, i, seq!['-'], enc_nat((-x) as nat));
        assert(s[i + 0] == seq!['-'][0]);
        assert(s[i] == '-');
        lemma_parse_nat_enc(s, i + 1, (-x) as nat);
    }
}

/// Parsing at an encoded string field returns exactly that string.
pub proof fn lemma_parse_field_enc(s: Seq<char>, i: int, f: Seq<char>)
    requires
        matches_at(s, i, enc_str(f)),
    ensures
        parse_field_at(s, i) == Some((f, i + enc_str(f).len())),
    decreases f.len(),
{
    lemma_matches_split(s, i, esc_str(f), seq!['|']);
    assert(seq!['|'][0] == '|');
    assert(s[i + esc_str(f).len() + 0] == '|');
    if f.len() == 0 {
        assert(esc_str(f).len() == 0);
        assert(s[i] == '|');
        assert(parse_field_at(s, i) == Some((Seq::<char>::empty(), i + 1)));
        assert(f =~= Seq::<char>::empty());
    } else {
        let c = f[0];
        let rest = f.drop_first();
        assert(esc_str(f) == esc_char(c) + esc_str(rest));
        assert(enc_str(f) =~= esc_char(c) + enc_str(rest));
        lemma_matches_split(s, i, esc_char(c), enc_str(rest));
        if c == '\\' || c == '|' {
            assert(s[i + 0] == esc_char(c)[0]);
            assert(s[i + 1] == esc_char(c)[1]);
            assert(s[i] == '\\');
            assert(s[i + 1] == c);
            lemma_parse_field_enc(s, i + 2, rest);
            assert(seq![s[i + 1]] + rest =~= f);
        } else {
            assert(s[i + 0] == esc_char(c)[0]);
            assert(s[i] == c);
            lemma_parse_field_enc(s, i + 1, rest);
            assert(seq![s[i]] + rest =~= f);
        }
    }
}

/// Parsing at an encoded optional field returns exactly that option.
pub proof fn lemma_parse_opt_enc(s: Seq<char>, i: int, o: Option<Seq<char>>)
    requires
        matches_at(s, i, enc_opt(o)),
    ensures
        parse_opt_at(s, i) == Some((o, i + enc_opt(o).len())),
{
    match o {
        None => {
            lemma_parse_nat_enc(s, i, 0);
        },
        Some(f) => {
            lemma_matches_split(s, i, enc_nat(1), enc_str(f));
            lemma_parse_nat_enc(s, i, 1);
            lemma_parse_field_enc(s, i + enc_nat(1).len(), f);
        },
    }
}


/// Numeric tag of a role.
pub open spec fn role_tag(r: UserRole) -> nat {
    match r {
        UserRole::Admin => 0,
        UserRole::User => 1,
    }
}

/// Numeric tag of an attendance status.
pub open spec fn status_tag(st: AttendanceStatus) -> nat {
    match st {
        AttendanceStatus::Success => 0,
        AttendanceStatus::Failed => 1,
    }
}

/// The stored record of a user.
pub open spec fn user_enc(u: UserView) -> Seq<char> {
    enc_str(u.id) + (enc_str(u.username) + (enc_str(u.password) + (enc_nat(role_tag(u.role)) + (
    enc_opt(u.admin_id) + enc_opt(u.location_id)))))
}

/// The stored record of a location.
pub open spec fn location_enc(l: LocationView) -> Seq<char> {
    enc_str(l.id) + (enc_str(l.name) + (enc_int(l.latitude) + (enc_int(l.longitude) + (enc_nat(
    l.radius as nat) + enc_str(l.admin_id)))))
}

/// The stored record of an attendance record.
pub open spec fn record_enc(r: RecordView) -> Seq<char> {
    enc_str(r.id) + (enc_str(r.user_id) + (enc_str(r.location_id) + (enc_int(r.latitude) + (
    enc_int(r.longitude) + (enc_int(r.timestamp) + (enc_nat(status_tag(r.status)) + enc_opt(
    r.error_message)))))))
}

/// Decodes a stored user record; `None` on any malformed input.
pub open spec fn user_dec(s: Seq<char>) -> Option<UserView> {
    match parse_field_at(s, 0) {
        None => None,
        Some((id, i1)) => match parse_field_at(s, i1) {
            None => None,
            Some((username, i2)) => match parse_field_at(s, i2) {
                None => None,
                Some((password, i3)) => match parse_nat_at(s, i3, 0) {
                    None => None,
                    Some((tag, i4)) => if tag > 1 {
                        None
                    } else {
                        match parse_opt_at(s, i4) {
                            None => None,
                            Some((admin_id, i5)) => match parse_opt_at(s, i5) {
                                None => None,
                                Some((location_id, i6)) => if i6 == s.len() {
                                    Some(UserView {
                                        id,
                                        username,
                                        password,
                                        role: if tag == 0 {
                                            UserRole::Admin
                                        } else {
                                            UserRole::User
                                        },
                                        admin_id,
                                        location_id,
                                    })
                                } else {
                                    None
                                },
                            },
                        }
                    },
                },
            },
        },
    }
}

/// Decodes a stored location record, enforcing the location invariant;
/// `None` on any malformed or out-of-range input.
pub open spec fn location_dec(s: Seq<char>) -> Option<LocationView> {
    match parse_field_at(s, 0) {
        None => None,
        Some((id, i1)) => match parse_field_at(s, i1) {
            None => None,
            Some((name, i2)) => match parse_int_at(s, i2) {
                None => None,
                Some((latitude, i3)) => match parse_int_at(s, i3) {
                    None => None,
                    Some((longitude, i4)) => match parse_nat_at(s, i4, 0) {
                        None => None,
                        Some((radius, i5)) => match parse_field_at(s, i5) {
                            None => None,
                            Some((admin_id, i6)) => {
                                let l = LocationView {
                                    id,
                                    name,
                                    latitude,
                                    longitude,
                                    radius: radius as int,
                                    admin_id,
                                };
                                if i6 == s.len() && valid_location(l) && radius
                                    <= 0xffff_ffff_ffff_ffff {
                                    Some(l)
                                } else {
                                    None
                                }
                            },
                        },
                    },
                },
            },
        },
    }
}

/// A value fits in a signed 64-bit integer.
pub open spec fn fits_i64(x: int) -> bool {
    -0x8000_0000_0000_0000 <= x <= 0x7fff_ffff_ffff_ffff
}

/// Decodes a stored attendance record; `None` on any malformed or
/// out-of-range input.
pub open spec fn record_dec(s: Seq<char>) -> Option<RecordView> {
    match parse_field_at(s, 0) {
        None => None,
        Some((id, i1)) => match parse_field_at(s, i1) {
            None => None,
            Some((user_id, i2)) => match parse_field_at(s, i2) {
                None => None,
                Some((location_id, i3)) => match parse_int_at(s, i3) {
                    None => None,
                    Some((latitude, i4)) => match parse_int_at(s, i4) {
                        None => None,
                        Some((longitude, i5)) => match parse_int_at(s, i5) {
                            None => None,
                            Some((timestamp, i6)) => match parse_nat_at(s, i6, 0) {
                                None => None,
                                Some((tag, i7)) => if tag > 1 {
                                    None
                                } else {
                                    match parse_opt_at(s, i7) {
                                        None => None,
                                        Some((error_message, i8)) => if i8 == s.len()
                                            && crate::models::valid_coords(latitude, longitude)
                                            && fits_i64(timestamp) {
                                            Some(RecordView {
                                                id,
                                                user_id,
                                                location_id,
                                                latitude,
                                                longitude,
                                                timestamp,
                                                status: if tag == 0 {
                                                    AttendanceStatus::Success
                                                } else {
                                                    AttendanceStatus::Failed
                                                },
                                                error_message,
                                            })
                                        } else {
                                            None
                                        },
                                    }
                                },
                            },
                        },
                    },
                },
            },
        },
    }
}

/// Every sequence matches itself at the origin.
proof fn lemma_matches_self(s: Seq<char>)
    ensures
        matches_at(s, 0, s),
{
    assert forall|k: int| 0 <= k < s.len() implies s[0 + k] == #[trigger] s[k] by {}
}

/// Decoding inverts encoding for users.
pub proof fn lemma_user_round_trip(u: UserView)
    ensures
        user_dec(user_enc(u)) == Some(u),
{
    let s = user_enc(u);
    lemma_matches_self(s);
    let e1 = enc_str(u.id);
    let e2 = enc_str(u.username);
    let e3 = enc_str(u.password);
    let e4 = enc_nat(role_tag(u.role));
    let e5 = enc_opt(u.admin_id);
    let e6 = enc_opt(u.location_id);
    lemma_matches_split(s, 0, e1, e2 + (e3 + (e4 + (e5 + e6))));
    lemma_parse_field_enc(s, 0, u.id);
    let i1 = e1.len() as int;
    lemma_matches_split(s, i1, e2, e3 + (e4 + (e5 + e6)));
    lemma_parse_field_enc(s, i1, u.username);
    let i2 = i1 + e2.len();
    lemma_matches_split(s, i2, e3, e4 + (e5 + e6));
    lemma_parse_field_enc(s, i2, u.password);
    let i3 = i2 + e3.len();
    lemma_matches_split(s, i3, e4, e5 + e6);
    lemma_parse_nat_enc(s, i3, role_tag(u.role));
    let i4 = i3 + e4.len();
    lemma_matches_split(s, i4, e5, e6);
    lemma_parse_opt_enc(s, i4, u.admin_id);
    let i5 = i4 + e5.len();
    lemma_parse_opt_enc(s, i5, u.location_id);
    let i6 = i5 + e6.len();
    assert(i6 == s.len());
}

/// Decoding inverts encoding for locations that satisfy the invariant.
pub proof fn lemma_location_round_trip(l: LocationView)
    requires
        valid_location(l),
        l.radius <= 0xffff_ffff_ffff_ffff,
    ensures
        location_dec(location_enc(l)) == Some(l),
{
    let s = location_enc(l);
    lemma_matches_self(s);
    let e1 = enc_str(l.id);
    let e2 = enc_str(l.name);
    let e3 = enc_int(l.latitude);
    let e4 = enc_int(l.longitude);
    let e5 = enc_nat(l.radius as nat);
    let e6 = enc_str(l.admin_id);
    lemma_matches_split(s, 0, e1, e2 + (e3 + (e4 + (e5 + e6))));
    lemma_parse_field_enc(s, 0, l.id);
    let i1 = e1.len() as int;
    lemma_matches_split(s, i1, e2, e3 + (e4 + (e5 + e6)));
    lemma_parse_field_enc(s, i1, l.name);
    let i2 = i1 + e2.len();
    lemma_matches_split(s, i2, e3, e4 + (e5 + e6));
    lemma_parse_int_enc(s, i2, l.latitude);
    let i3 = i2 + e3.len();
    lemma_matches_split(s, i3, e4, e5 + e6);
    lemma_parse_int_enc(s, i3, l.longitude);
    let i4 = i3 + e4.len();
    lemma_matches_split(s, i4, e5, e6);
    lemma_parse_nat_enc(s, i4, l.radius as nat);
    let i5 = i4 + e5.len();
    lemma_parse_field_enc(s, i5, l.admin_id);
    let i6 = i5 + e6.len();
    assert(i6 == s.len());
}

/// Decoding inverts encoding for records with on-globe coordinates.
pub proof fn lemma_record_round_trip(r: RecordView)
    requires
        crate::models::valid_coords(r.latitude, r.longitude),
        fits_i64(r.timestamp),
    ensures
        record_dec(record_enc(r)) == Some(r),
{
    let s = record_enc(r);
    lemma_matches_self(s);
    let e1 = enc_str(r.id);
    let e2 = enc_str(r.user_id);
    let e3 = enc_str(r.location_id);
    let e4 = enc_int(r.latitude);
    let e5 = enc_int(r.longitude);
    let e6 = enc_int(r.timestamp);
    let e7 = enc_nat(status_tag(r.status));
    let e8 = enc_opt(r.error_message);
    lemma_matches_split(s, 0, e1, e2 + (e3 + (e4 + (e5 + (e6 + (e7 + e8))))));
    lemma_parse_field_enc(s, 0, r.id);
    let i1 = e1.len() as int;
    lemma_matches_split(s, i1, e2, e3 + (e4 + (e5 + (e6 + (e7 + e8)))));
    lemma_parse_field_enc(s, i1, r.user_id);
    let i2 = i1 + e2.len();
    lemma_matches_split(s, i2, e3, e4 + (e5 + (e6 + (e7 + e8))));
    lemma_parse_field_enc(s, i2, r.location_id);
    let i3 = i2 + e3.len();
    lemma_matches_split(s, i3, e4, e5 + (e6 + (e7 + e8)));
    lemma_parse_int_enc(s, i3, r.latitude);
    let i4 = i3 + e4.len();
    lemma_matches_split(s, i4, e5, e6 + (e7 + e8));
    lemma_parse_int_enc(s, i4, r.longitude);
    let i5 = i4 + e5.len();
    lemma_matches_split(s, i5, e6, e7 + e8);
    lemma_parse_int_enc(s, i5, r.timestamp);
    let i6 = i5 + e6.len();
    lemma_matches_split(s, i6, e7, e8);
    lemma_parse_nat_enc(s, i6, status_tag(r.status));
    let i7 = i6 + e7.len();
    lemma_parse_opt_enc(s, i7, r.error_message);
    let i8 = i7 + e8.len();
    assert(i8 == s.len());
}


/// Relies on `str::chars`: the characters of the string, in order.
#[verifier::external_body]
pub fn str_to_chars(s: &str) -> (r: Vec<char>)
    ensures
        r@ == s@,
{
    s.chars().collect()
}

/// Relies on `FromIterator for String`: the string holding exactly
/// these characters, in order.
#[verifier::external_body]
pub fn chars_to_string(v: &Vec<char>) -> (r: String)
    ensures
        r@ == v@,
{
    v.iter().collect()
}

/// The decimal digit `d` as a character.
fn digit_of(d: u128) -> (c: char)
    requires
        d < 10,
    ensures
        c == digit_char(d as nat),
{
    if d == 0 {
        '0'
    } else if d == 1 {
        '1'
    } else if d == 2 {
        '2'
    } else if d == 3 {
        '3'
    } else if d == 4 {
        '4'
    } else if d == 5 {
        '5'
    } else if d == 6 {
        '6'
    } else if d == 7 {
        '7'
    } else if d == 8 {
        '8'
    } else {
        '9'
    }
}

/// The numeric value of a digit character, 10 for anything else.
fn digit_val(c: char) -> (r: u128)
    ensures
        r == char_val(c),
{
    if c == '0' {
        0
    } else if c == '1' {
        1
    } else if c == '2' {
        2
    } else if c == '3' {
        3
    } else if c == '4' {
        4
    } else if c == '5' {
        5
    } else if c == '6' {
        6
    } else if c == '7' {
        7
    } else if c == '8' {
        8
    } else if c == '9' {
        9
    } else {
        10
    }
}

/// Appends the decimal representation of `n`.
fn push_dec(out: &mut Vec<char>, n: u128)
    ensures
        final(out)@ == old(out)@ + dec_rep(n as nat),
    decreases n,
{
    if n < 10 {
        out.push(digit_of(n));
        assert(out@ =~= old(out)@ + dec_rep(n as nat));
    } else {
        push_dec(out, n / 10);
        out.push(digit_of(n % 10));
        assert(out@ =~= old(out)@ + dec_rep(n as nat));
    }
}

/// Appends an encoded nonnegative number field.
fn push_nat_field(out: &mut Vec<char>, n: u128)
    ensures
        final(out)@ == old(out)@ + enc_nat(n as nat),
{
    push_dec(out, n);
    out.push('|');
    assert(out@ =~= old(out)@ + enc_nat(n as nat));
}

/// Appends an encoded signed number field.
fn push_int_field(out: &mut Vec<char>, x: i64)
    ensures
        final(out)@ == old(out)@ + enc_int(x as int),
{
    if x < 0 {
        out.push('-');
        let m: u128 = (-(x as i128)) as u128;
        push_nat_field(out, m);
        assert(out@ =~= old(out)@ + enc_int(x as int));
    } else {
        push_nat_field(out, x as u128);
    }
}

/// Escaping distributes over appending one character.
proof fn lemma_esc_str_snoc(a: Seq<char>, c: char)
    ensures
        esc_str(a + seq![c]) == esc_str(a) + esc_char(c),
    decreases a.len(),
{
    if a.len() == 0 {
        assert(a + seq![c] =~= seq![c]);
        assert(seq![c].drop_first() =~= Seq::<char>::empty());
        assert(esc_str(seq![c].drop_first()) =~= Seq::<char>::empty());
        assert(esc_str(seq![c]) =~= esc_char(c));
        assert(esc_str(a) + esc_char(c) =~= esc_char(c));
    } else {
        assert((a + seq![c]).drop_first() =~= a.drop_first() + seq![c]);
        lemma_esc_str_snoc(a.drop_first(), c);
        assert(esc_str(a + seq![c]) =~= esc_str(a) + esc_char(c)) by {
            assert((a + seq![c])[0] == a[0]);
            assert(esc_str(a + seq![c]) == esc_char(a[0]) + (esc_str(a.drop_first())
                + esc_char(c)));
        }
    }
}

/// Appends an encoded string field, escaping as needed.
fn push_str_field(out: &mut Vec<char>, f: &String)
    ensures
        final(out)@ == old(out)@ + enc_str(f@),
{
    let cs = str_to_chars(f.as_str());
    let n = cs.len();
    let mut i: usize = 0;
    proof {
        assert(f@.take(0) =~= Seq::<char>::empty());
        assert(out@ =~= out@ + esc_str(f@.take(0)));
    }
    while i < n
        invariant
            n == cs.len(),
            cs@ == f@,
            i <= n,
            out@ == old(out)@ + esc_str(f@.take(i as int)),
        decreases n - i,
    {
        let c = cs[i];
        if c == '\\' || c == '|' {
            out.push('\\');
            out.push(c);
        } else {
            out.push(c);
        }
        proof {
            lemma_esc_str_snoc(f@.take(i as int), c);
            assert(f@.take(i as int) + seq![c] =~= f@.take(i as int + 1));
            assert(out@ =~= old(out)@ + esc_str(f@.take(i as int + 1)));
        }
        i = i + 1;
    }
    out.push('|');
    proof {
        assert(f@.take(n as int) =~= f@);
        assert(out@ =~= old(out)@ + enc_str(f@));
    }
}

/// Appends an encoded optional string field.
fn push_opt_field(out: &mut Vec<char>, o: &Option<String>)
    ensures
        final(out)@ == old(out)@ + enc_opt(opt_view(*o)),
{
    match o {
        None => {
            push_nat_field(out, 0);
        },
        Some(f) => {
            push_nat_field(out, 1);
            push_str_field(out, f);
            assert(out@ =~= old(out)@ + enc_opt(opt_view(*o)));
        },
    }
}

/// Encodes a user into its stored record.
pub fn encode_user(u: &User) -> (r: Vec<char>)
    ensures
        r@ == user_enc(u@),
{
    let mut out: Vec<char> = Vec::new();
    push_str_field(&mut out, &u.id);
    push_str_field(&mut out, &u.username);
    push_str_field(&mut out, &u.password);
    match u.role {
        UserRole::Admin => push_nat_field(&mut out, 0),
        UserRole::User => push_nat_field(&mut out, 1),
    }
    push_opt_field(&mut out, &u.admin_id);
    push_opt_field(&mut out, &u.location_id);
    proof {
        assert(out@ =~= user_enc(u@));
    }
    out
}

/// Encodes a location into its stored record.
pub fn encode_location(l: &Location) -> (r: Vec<char>)
    ensures
        r@ == location_enc(l@),
{
    let mut out: Vec<char> = Vec::new();
    push_str_field(&mut out, &l.id);
    push_str_field(&mut out, &l.name);
    push_int_field(&mut out, l.latitude);
    push_int_field(&mut out, l.longitude);
    push_nat_field(&mut out, l.radius as u128);
    push_str_field(&mut out, &l.admin_id);
    proof {
        assert(out@ =~= location_enc(l@));
    }
    out
}

/// Encodes an attendance record into its stored record.
#[verifier::rlimit(100)]
pub fn encode_record(r: &AttendanceRecord) -> (out: Vec<char>)
    ensures
        out@ == record_enc(r@),
{
    let mut out: Vec<char> = Vec::new();
    push_str_field(&mut out, &r.id);
    push_str_field(&mut out, &r.user_id);
    push_str_field(&mut out, &r.location_id);
    push_int_field(&mut out, r.latitude);
    push_int_field(&mut out, r.longitude);
    push_int_field(&mut out, r.timestamp);
    match r.status {
        AttendanceStatus::Success => push_nat_field(&mut out, 0),
        AttendanceStatus::Failed => push_nat_field(&mut out, 1),
    }
    push_opt_field(&mut out, &r.error_message);
    proof {
        assert(out@ =~= record_enc(r@));
    }
    out
}

/// Scans a digit run on top of `acc`, mirroring `parse_nat_at`.
fn p_nat_acc(s: &Vec<char>, i: usize, acc: u128) -> (r: Option<(u128, usize)>)
    requires
        i <= s.len(),
        acc < NUM_LIMIT * 10,
    ensures
        match parse_nat_at(s@, i as int, acc as nat) {
            Some((m, j)) => r matches Some(p) && p.0 == m && p.1 == j && p.1 <= s.len(),
            None => r is None,
        },
    decreases s.len() - i,
{
    if i >= s.len() {
        None
    } else {
        let c = s[i];
        if c == '|' {
            Some((acc, i + 1))
        } else {
            let d = digit_val(c);
            if d < 10 && acc < NUM_LIMIT {
                p_nat_acc(s, i + 1, acc * 10 + d)
            } else {
                None
            }
        }
    }
}

/// Scans one field, mirroring `parse_field_at`.
fn p_field(s: &Vec<char>, i: usize) -> (r: Option<(Vec<char>, usize)>)
    requires
        i <= s.len(),
    ensures
        match parse_field_at(s@, i as int) {
            Some((f, j)) => r matches Some(p) && p.0@ == f && p.1 == j && p.1 <= s.len(),
            None => r is None,
        },
    decreases s.len() - i,
{
    if i >= s.len() {
        None
    } else {
        let c = s[i];
        if c == '|' {
            Some((Vec::new(), i + 1))
        } else if c == '\\' {
            if i + 1 < s.len() {
                match p_field(s, i + 2) {
                    Some((mut f, j)) => {
                        let e = s[i + 1];
                        f.insert(0, e);
                        proof {
                            assert(f@ =~= seq![s@[i as int + 1]]
                                + (parse_field_at(s@, i as int + 2)->0).0);
                        }
                        Some((f, j))
                    },
                    None => None,
                }
            } else {
                None
            }
        } else {
            match p_field(s, i + 1) {
                Some((mut f, j)) => {
                    f.insert(0, c);
                    proof {
                        assert(f@ =~= seq![s@[i as int]] + (parse_field_at(s@, i as int + 1)->0).0);
                    }
                    Some((f, j))
                },
                None => None,
            }
        }
    }
}

/// Scans a signed number field, mirroring `parse_int_at`; also refuses
/// values that do not fit in an `i64`.
fn p_int(s: &Vec<char>, i: usize) -> (r: Option<(i64, usize)>)
    requires
        i <= s.len(),
    ensures
        match parse_int_at(s@, i as int) {
            Some((x, j)) => if fits_i64(x) {
                r matches Some(p) && p.0 == x && p.1 == j && p.1 <= s.len()
            } else {
                r is None
            },
            None => r is None,
        },
{
    if i < s.len() && s[i] == '-' {
        match p_nat_acc(s, i + 1, 0) {
            Some((m, j)) => {
                if m <= 0x8000_0000_0000_0000 {
                    let v: i64 = (-(m as i128)) as i64;
                    Some((v, j))
                } else {
                    None
                }
            },
            None => None,
        }
    } else {
        match p_nat_acc(s, i, 0) {
            Some((m, j)) => {
                if m <= 0x7fff_ffff_ffff_ffff {
                    Some((m as i64, j))
                } else {
                    None
                }
            },
            None => None,
        }
    }
}

/// Scans an optional string field, mirroring `parse_opt_at`.
fn p_opt(s: &Vec<char>, i: usize) -> (r: Option<(Option<Vec<char>>, usize)>)
    requires
        i <= s.len(),
    ensures
        match parse_opt_at(s@, i as int) {
            Some((o, j)) => r matches Some(p) && p.1 == j && p.1 <= s.len() && (match o {
                None => p.0 is None,
                Some(f) => p.0 matches Some(fv) && fv@ == f,
            }),
            None => r is None,
        },
{
    match p_nat_acc(s, i, 0) {
        Some((tag, j)) => {
            if tag == 0 {
                Some((None, j))
            } else if tag == 1 {
                match p_field(s, j) {
                    Some((f, k)) => Some((Some(f), k)),
                    None => None,
                }
            } else {
                None
            }
        },
        None => None,
    }
}

/// Decodes a stored user record.
pub fn decode_user(v: &Vec<char>) -> (r: Option<User>)
    ensures
        match user_dec(v@) {
            Some(uv) => r matches Some(u) && u@ == uv,
            None => r is None,
        },
{
    let r1 = match p_field(v, 0) {
        Some(p) => p,
        None => {
            return None;
        },
    };
    let r2 = match p_field(v, r1.1) {
        Some(p) => p,
        None => {
            return None;
        },
    };
    let r3 = match p_field(v, r2.1) {
        Some(p) => p,
        None => {
            return None;
        },
    };
    let r4 = match p_nat_acc(v, r3.1, 0) {
        Some(p) => p,
        None => {
            return None;
        },
    };
    if r4.0 > 1 {
        return None;
    }
    let r5 = match p_opt(v, r4.1) {
        Some(p) => p,
        None => {
            return None;
        },
    };
    let r6 = match p_opt(v, r5.1) {
        Some(p) => p,
        None => {
            return None;
        },
    };
    if r6.1 != v.len() {
        return None;
    }
    let admin_id = match r5.0 {
        Some(f) => Some(chars_to_string(&f)),
        None => None,
    };
    let location_id = match r6.0 {
        Some(f) => Some(chars_to_string(&f)),
        None => None,
    };
    Some(User {
        id: chars_to_string(&r1.0),
        username: chars_to_string(&r2.0),
        password: chars_to_string(&r3.0),
        role: if r4.0 == 0 {
            UserRole::Admin
        } else {
            UserRole::User
        },
        admin_id,
        location_id,
    })
}

/// Decodes a stored location record, enforcing the location invariant.
pub fn decode_location(v: &Vec<char>) -> (r: Option<Location>)
    ensures
        match location_dec(v@) {
            Some(lv) => r matches Some(l) && l@ == lv,
            None => r is None,
        },
{
    let r1 = match p_field(v, 0) {
        Some(p) => p,
        None => {
            return None;
        },
    };
    let r2 = match p_field(v, r1.1) {
        Some(p) => p,
        None => {
            return None;
        },
    };
    let r3 = match p_int(v, r2.1) {
        Some(p) => p,
        None => {
            return None;
        },
    };
    let r4 = match p_int(v, r3.1) {
        Some(p) => p,
        None => {
            return None;
        },
    };
    let r5 = match p_nat_acc(v, r4.1, 0) {
        Some(p) => p,
        None => {
            return None;
        },
    };
    let r6 = match p_field(v, r5.1) {
        Some(p) => p,
        None => {
            return None;
        },
    };
    if r6.1 != v.len() {
        return None;
    }
    if !(-90_000_000 <= r3.0 && r3.0 <= 90_000_000 && -180_000_000 <= r4.0 && r4.0 <= 180_000_000)
    {
        return None;
    }
    if r5.0 < 1 || r5.0 > 0xffff_ffff_ffff_ffff {
        return None;
    }
    Some(Location {
        id: chars_to_string(&r1.0),
        name: chars_to_string(&r2.0),
        latitude: r3.0,
        longitude: r4.0,
        radius: r5.0 as u64,
        admin_id: chars_to_string(&r6.0),
    })
}

/// Decodes a stored attendance record.
pub fn decode_record(v: &Vec<char>) -> (r: Option<AttendanceRecord>)
    ensures
        match record_dec(v@) {
            Some(rv) => r matches Some(a) && a@ == rv,
            None => r is None,
        },
{
    let r1 = match p_field(v, 0) {
        Some(p) => p,
        None => {
            return None;
        },
    };
    let r2 = match p_field(v, r1.1) {
        Some(p) => p,
        None => {
            return None;
        },
    };
    let r3 = match p_field(v, r2.1) {
        Some(p) => p,
        None => {
            return None;
        },
    };
    let r4 = match p_int(v, r3.1) {
        Some(p) => p,
        None => {
            return None;
        },
    };
    let r5 = match p_int(v, r4.1) {
        Some(p) => p,
        None => {
            return None;
        },
    };
    let r6 = match p_int(v, r5.1) {
        Some(p) => p,
        None => {
            return None;
        },
    };
    let r7 = match p_nat_acc(v, r6.1, 0) {
        Some(p) => p,
        None => {
            return None;
        },
    };
    if r7.0 > 1 {
        return None;
    }
    let r8 = match p_opt(v, r7.1) {
        Some(p) => p,
        None => {
            return None;
        },
    };
    if r8.1 != v.len() {
        return None;
    }
    if !(-90_000_000 <= r4.0 && r4.0 <= 90_000_000 && -180_000_000 <= r5.0 && r5.0 <= 180_000_000)
    {
        return None;
    }
    let error_message = match r8.0 {
        Some(f) => Some(chars_to_string(&f)),
        None => None,
    };
    Some(AttendanceRecord {
        id: chars_to_string(&r1.0),
        user_id: chars_to_string(&r2.0),
        location_id: chars_to_string(&r3.0),
        latitude: r4.0,
        longitude: r5.0,
        timestamp: r6.0,
        status: if r7.0 == 0 {
            AttendanceStatus::Success
        } else {
            AttendanceStatus::Failed
        },
        error_message,
    })
}


/// Exactly two decimal digits, for the fractional meters of a distance.
pub open spec fn two_digits(m: nat) -> Seq<char> {
    seq![digit_char(m / 10), digit_char(m % 10)]
}

/// A distance in centimeters as meters with two decimals.
pub open spec fn fmt_cm(cm: nat) -> Seq<char> {
    dec_rep(cm / 100) + seq!['.'] + two_digits(cm % 100)
}

/// Renders a distance in centimeters as meters with two decimals.
#[verifier::rlimit(50)]
pub fn format_cm(cm: u64) -> (s: String)
    ensures
        s@ == fmt_cm(cm as nat),
{
    let mut out: Vec<char> = Vec::new();
    let whole = cm / 100;
    let frac = cm % 100;
    push_dec(&mut out, whole as u128);
    out.push('.');
    let d1 = frac / 10;
    let d2 = frac % 10;
    proof {
        assert(d1 < 10);
        assert(d2 < 10);
        assert(whole as u128 as nat == (cm as nat) / 100);
        assert(d1 as u128 as nat == ((cm as nat) % 100) / 10);
        assert(d2 as u128 as nat == ((cm as nat) % 100) % 10);
    }
    out.push(digit_of(d1 as u128));
    out.push(digit_of(d2 as u128));
    proof {
        assert(out@ =~= fmt_cm(cm as nat));
    }
    chars_to_string(&out)
}


/// A formatted distance has at least one whole digit, the point, and
/// two fraction digits.
pub proof fn lemma_fmt_cm_len(cm: nat)
    ensures
        fmt_cm(cm).len() >= 4,
{
    lemma_dec_rep_val(cm / 100);
}

} // verus!
