//! Spot-instance termination notices and the start of the replacement
//! instance on AWS.
use crate::text::chars_of;
use vstd::prelude::*;

verus! {

/// Seconds assumed to be left when a termination notice is posted but the
/// termination time in it cannot be read.
pub const SPOT_TERMINATION_LEAD_SECONDS: u64 = 197;

/// Seconds reported by the mock provider that simulates a termination.
pub const MOCK_TERMINATION_LEAD_SECONDS: u64 = 117;

/// Whether an HTTP status code reports success (`StatusCode::is_success`).
pub open spec fn is_success_status(status: u16) -> bool {
    200 <= status < 300
}

/// The value of the decimal digit at `s[i]`.
pub open spec fn digit_at(s: Seq<char>, i: int) -> int {
    s[i] as int - 48
}

/// `c` is a decimal digit.
pub open spec fn is_digit_char(c: char) -> bool {
    '0' <= c && c <= '9'
}

/// `s` has the shape `YYYY-MM-DDThh:mm:ssZ` of the posted termination time.
pub open spec fn timestamp_shape(s: Seq<char>) -> bool {
    &&& s.len() == 20
    &&& s[4] == '-' && s[7] == '-' && s[10] == 'T'
    &&& s[13] == ':' && s[16] == ':' && s[19] == 'Z'
    &&& forall|i: int|
        0 <= i < 20 && i != 4 && i != 7 && i != 10 && i != 13 && i != 16 && i != 19
            ==> is_digit_char(#[trigger] s[i])
}

/// The number of the two digits `s[i]`, `s[i + 1]`.
pub open spec fn two_digits(s: Seq<char>, i: int) -> int {
    10 * digit_at(s, i) + digit_at(s, i + 1)
}

/// The year of a timestamp.
pub open spec fn year_of(s: Seq<char>) -> int {
    1000 * digit_at(s, 0) + 100 * digit_at(s, 1) + 10 * digit_at(s, 2) + digit_at(s, 3)
}

/// Whether `y` is a leap year of the Gregorian calendar.
pub open spec fn is_leap(y: int) -> bool {
    y % 4 == 0 && (y % 100 != 0 || y % 400 == 0)
}

/// The number of days of month `m` (1 to 12) of year `y`.
pub open spec fn days_in_month(y: int, m: int) -> int {
    if m == 2 {
        if is_leap(y) {
            29
        } else {
            28
        }
    } else if m == 4 || m == 6 || m == 9 || m == 11 {
        30
    } else {
        31
    }
}

/// `s` is a UTC time `YYYY-MM-DDThh:mm:ssZ` naming an existing date and time.
pub open spec fn valid_timestamp(s: Seq<char>) -> bool {
    &&& timestamp_shape(s)
    &&& 1 <= two_digits(s, 5) <= 12
    &&& 1 <= two_digits(s, 8) <= days_in_month(year_of(s), two_digits(s, 5))
    &&& two_digits(s, 11) < 24
    &&& two_digits(s, 14) < 60
    &&& two_digits(s, 17) < 60
}

/// The number of days of year `y`.
pub open spec fn days_in_year(y: int) -> int {
    if is_leap(y) {
        366
    } else {
        365
    }
}

/// The number of days from 1970-01-01 to the first of January of year `y`
/// (negative before 1970).
pub open spec fn days_to_year(y: int) -> int
    decreases (if y >= 1970 {
        y - 1970
    } else {
        1970 - y
    }),
{
    if y > 1970 {
        days_to_year(y - 1) + days_in_year(y - 1)
    } else if y < 1970 {
        days_to_year(y + 1) - days_in_year(y)
    } else {
        0
    }
}

/// The number of days of year `y` before the first of month `m`.
pub open spec fn days_to_month(y: int, m: int) -> int
    decreases m,
{
    if m <= 1 {
        0
    } else {
        days_to_month(y, m - 1) + days_in_month(y, m - 1)
    }
}

/// The number of days from 1970-01-01 to the date `y-m-d` (negative before).
pub open spec fn days_since_epoch(y: int, m: int, d: int) -> int {
    days_to_year(y) + days_to_month(y, m) + d - 1
}

/// The seconds since 1970-01-01T00:00:00Z of the valid timestamp `s`.
pub open spec fn timestamp_seconds(s: Seq<char>) -> int {
    days_since_epoch(year_of(s), two_digits(s, 5), two_digits(s, 8)) * 86400 + two_digits(s, 11)
        * 3600 + two_digits(s, 14) * 60 + two_digits(s, 17)
}

/// Days before 1 March of the year `yy - 400` (years counted from 1 March),
/// counted from 1 March of the year -400: whole 400-year eras of 146097 days,
/// then 365 days a year plus the leap days.
spec fn march_start(yy: int) -> int {
    let era = yy / 400;
    let yoe = yy - era * 400;
    era * 146097 + yoe * 365 + yoe / 4 - yoe / 100
}

/// Days of a year counted from 1 March before the first of month `m`.
spec fn march_offset(m: int) -> int {
    let mp = if m > 2 {
        m - 3
    } else {
        m + 9
    };
    (153 * mp + 2) / 5
}

/// The computation the executable code performs: the day count from eras of
/// years that start on 1 March, shifted to 1970-01-01.
spec fn era_day_count(y: int, m: int, d: int) -> int {
    let yy = (if m <= 2 {
        y - 1
    } else {
        y
    }) + 400;
    march_start(yy) + march_offset(m) + d - 1 - 719468 - 146097
}

proof fn lemma_march_step(y: int)
    requires
        0 <= y + 399,
    ensures
        march_start(y + 400) - march_start(y + 399) == days_in_year(y),
{
    let big_y = y + 399;
    let e = big_y / 400;
    let o = big_y - e * 400;
    assert(0 <= o < 400 && big_y == e * 400 + o) by (nonlinear_arith)
        requires
            0 <= big_y,
            e == big_y / 400,
            o == big_y - e * 400,
    ;
    assert(y == (e - 1) * 400 + o + 1);
    if o < 399 {
        assert((big_y + 1) / 400 == e) by (nonlinear_arith)
            requires
                big_y == e * 400 + o,
                0 <= o < 399,
        ;
        assert(y % 4 == (o + 1) % 4) by (nonlinear_arith)
            requires
                y == (e - 1) * 400 + o + 1,
        ;
        assert(y % 100 == (o + 1) % 100) by (nonlinear_arith)
            requires
                y == (e - 1) * 400 + o + 1,
        ;
        assert(y % 400 == o + 1) by (nonlinear_arith)
            requires
                y == (e - 1) * 400 + o + 1,
                0 <= o < 399,
        ;
        assert((o + 1) / 4 - o / 4 == if (o + 1) % 4 == 0 {
            1int
        } else {
            0int
        }) by (nonlinear_arith)
            requires
                0 <= o,
        ;
        assert((o + 1) / 100 - o / 100 == if (o + 1) % 100 == 0 {
            1int
        } else {
            0int
        }) by (nonlinear_arith)
            requires
                0 <= o,
        ;
    } else {
        assert((big_y + 1) / 400 == e + 1) by (nonlinear_arith)
            requires
                big_y == e * 400 + o,
                o == 399,
        ;
        assert(y == e * 400);
        assert(y % 400 == 0) by (nonlinear_arith)
            requires
                y == e * 400,
        ;
        assert(y % 4 == 0) by (nonlinear_arith)
            requires
                y == e * 400,
        ;
    }
}

proof fn lemma_year_start(y: int)
    requires
        0 <= y <= 10000,
    ensures
        era_day_count(y, 1, 1) == days_to_year(y),
    decreases (if y >= 1970 {
        y - 1970
    } else {
        1970 - y
    }),
{
    if y > 1970 {
        lemma_year_start(y - 1);
        lemma_march_step(y - 1);
    } else if y < 1970 {
        lemma_year_start(y + 1);
        lemma_march_step(y);
    } else {
        assert(march_start(2369) == 865259);
        assert(march_offset(1) == 306);
    }
}

/// The executable day count agrees with the calendar for the years 0 to 9999.
proof fn lemma_era_day_count(y: int, m: int, d: int)
    requires
        0 <= y <= 9999,
        1 <= m <= 12,
    ensures
        era_day_count(y, m, d) == days_since_epoch(y, m, d),
{
    lemma_year_start(y);
    lemma_march_step(y);
    reveal_with_fuel(days_to_month, 12);
    assert(march_offset(1) == 306);
    assert(march_offset(2) == 337);
    assert(march_offset(3) == 0);
    assert(march_offset(4) == 31);
    assert(march_offset(5) == 61);
    assert(march_offset(6) == 92);
    assert(march_offset(7) == 122);
    assert(march_offset(8) == 153);
    assert(march_offset(9) == 184);
    assert(march_offset(10) == 214);
    assert(march_offset(11) == 245);
    assert(march_offset(12) == 275);
}

/// The number of the digit `v[i]`.
fn digit_exec(v: &Vec<char>, i: usize) -> (r: i64)
    requires
        i < v@.len(),
        is_digit_char(v@[i as int]),
    ensures
        r == digit_at(v@, i as int),
        0 <= r <= 9,
{
    let c = v[i];
    let code = c as u32;
    (code - 48) as i64
}

/// The number of the digits `v[i]`, `v[i + 1]`.
fn two_digits_exec(v: &Vec<char>, i: usize) -> (r: i64)
    requires
        i < 19,
        v@.len() == 20,
        is_digit_char(v@[i as int]),
        is_digit_char(v@[i + 1]),
    ensures
        r == two_digits(v@, i as int),
        0 <= r <= 99,
{
    10 * digit_exec(v, i) + digit_exec(v, i + 1)
}

/// The number of days of `m` in year `y`.
fn days_in_month_exec(y: i64, m: i64) -> (r: i64)
    ensures
        r == days_in_month(y as int, m as int),
{
    if m == 2 {
        if y % 4 == 0 && (y % 100 != 0 || y % 400 == 0) {
            29
        } else {
            28
        }
    } else if m == 4 || m == 6 || m == 9 || m == 11 {
        30
    } else {
        31
    }
}

/// The seconds since 1970-01-01T00:00:00Z of a termination time posted as
/// `YYYY-MM-DDThh:mm:ssZ`; `None` when `text` is not such a time.
pub fn parse_termination_time(text: &str) -> (r: Option<i64>)
    ensures
        r is Some <==> valid_timestamp(text@),
        r matches Some(t) ==> t == timestamp_seconds(text@),
{
    let v = chars_of(text);
    if v.len() != 20 {
        return None;
    }
    let mut i: usize = 0;
    while i < 20
        invariant
            v@ == text@,
            v@.len() == 20,
            i <= 20,
            forall|j: int|
                0 <= j < i && j != 4 && j != 7 && j != 10 && j != 13 && j != 16 && j != 19
                    ==> is_digit_char(#[trigger] v@[j]),
        decreases 20 - i,
    {
        if i != 4 && i != 7 && i != 10 && i != 13 && i != 16 && i != 19 {
            let c = v[i];
            if !('0' <= c && c <= '9') {
                assert(!timestamp_shape(text@));
                return None;
            }
        }
        i = i + 1;
    }
    if !(v[4] == '-' && v[7] == '-' && v[10] == 'T' && v[13] == ':' && v[16] == ':' && v[19]
        == 'Z') {
        return None;
    }
    assert(timestamp_shape(text@));
    let y = 1000 * digit_exec(&v, 0) + 100 * digit_exec(&v, 1) + 10 * digit_exec(&v, 2)
        + digit_exec(&v, 3);
    let m = two_digits_exec(&v, 5);
    let d = two_digits_exec(&v, 8);
    let hh = two_digits_exec(&v, 11);
    let mi = two_digits_exec(&v, 14);
    let ss = two_digits_exec(&v, 17);
    if !(1 <= m && m <= 12 && 1 <= d && d <= days_in_month_exec(y, m) && hh < 24 && mi < 60 && ss
        < 60) {
        return None;
    }
    let yy: i64 = (if m <= 2 {
        y - 1
    } else {
        y
    }) + 400;
    let era = yy / 400;
    let yoe = yy - era * 400;
    let mp = if m > 2 {
        m - 3
    } else {
        m + 9
    };
    let doy = (153 * mp + 2) / 5 + d - 1;
    let doe = yoe * 365 + yoe / 4 - yoe / 100 + doy;
    let days = era * 146097 + doe - 719468 - 146097;
    proof {
        lemma_era_day_count(y as int, m as int, d as int);
    }
    Some(days * 86400 + hh * 3600 + mi * 60 + ss)
}

/// What a poll of the termination-time endpoint leads to.
#[derive(Debug, Clone, Copy, PartialEq, Eq, Structural)]
pub enum TerminationPoll {
    /// A notice is posted: this many seconds are left.
    Terminating(u64),
    /// No notice yet: poll again after the interval.
    KeepPolling,
}

/// The seconds from `now` until `t`, none once `t` has passed.
pub open spec fn seconds_until(t: int, now: u64) -> int {
    if t > now {
        t - now
    } else {
        0
    }
}

/// The decision after the termination-time endpoint answered with `status`
/// and `body` at `now` (seconds since 1970-01-01T00:00:00Z): a success status
/// means a notice is posted, and the time left is the time until the posted
/// termination time (or [`SPOT_TERMINATION_LEAD_SECONDS`] when the body holds
/// no such time).
pub fn termination_poll(status: u16, body: &str, now: u64) -> (r: TerminationPoll)
    ensures
        !is_success_status(status) ==> r == TerminationPoll::KeepPolling,
        !(200 <= status < 300) ==> r == TerminationPoll::KeepPolling,
        200 <= status < 300 ==> r is Terminating,
        200 <= status < 300 && valid_timestamp(body@) && timestamp_seconds(body@) > now ==> r
            == TerminationPoll::Terminating((timestamp_seconds(body@) - now) as u64),
        200 <= status < 300 && valid_timestamp(body@) && timestamp_seconds(body@) <= now ==> r
            == TerminationPoll::Terminating(0),
        is_success_status(status) && valid_timestamp(body@) ==> r == TerminationPoll::Terminating(
            seconds_until(timestamp_seconds(body@), now) as u64,
        ),
        is_success_status(status) && !valid_timestamp(body@) ==> r
            == TerminationPoll::Terminating(SPOT_TERMINATION_LEAD_SECONDS),
{
    if !(200 <= status && status < 300) {
        return TerminationPoll::KeepPolling;
    }
    match parse_termination_time(body) {
        Some(t) => {
            if t > 0 && (t as u64) > now {
                TerminationPoll::Terminating((t as u64) - now)
            } else {
                TerminationPoll::Terminating(0)
            }
        },
        None => TerminationPoll::Terminating(SPOT_TERMINATION_LEAD_SECONDS),
    }
}

/// The answer of the mock provider when asked to wait for termination.
pub fn mock_termination_notice() -> (r: TerminationPoll)
    ensures
        r == TerminationPoll::Terminating(MOCK_TERMINATION_LEAD_SECONDS),
{
    TerminationPoll::Terminating(MOCK_TERMINATION_LEAD_SECONDS)
}

/// A network interface in the description of an instance.
#[derive(Debug)]
pub struct NetworkInterfaceDescription {
    pub private_ip_address: Option<String>,
}

/// An instance in a reservation.
#[derive(Debug)]
pub struct InstanceDescription {
    pub network_interfaces: Vec<NetworkInterfaceDescription>,
}

/// A reservation in the answer to a request that describes instances.
#[derive(Debug)]
pub struct ReservationDescription {
    pub instances: Vec<InstanceDescription>,
}

/// The description names a first instance of a first reservation, whose
/// first network interface has a private address.
pub open spec fn names_private_ip(reservations: Seq<ReservationDescription>) -> bool {
    &&& reservations.len() > 0
    &&& reservations[0].instances@.len() > 0
    &&& reservations[0].instances@[0].network_interfaces@.len() > 0
    &&& reservations[0].instances@[0].network_interfaces@[0].private_ip_address is Some
}

/// The private address of the first network interface of the first instance
/// of the first reservation.
pub open spec fn private_ip_of(reservations: Seq<ReservationDescription>) -> Seq<char> {
    reservations[0].instances@[0].network_interfaces@[0].private_ip_address->0@
}

/// The private address of the instance that was started, as described.
pub fn started_instance_private_ip(reservations: &Vec<ReservationDescription>) -> (r: String)
    requires
        names_private_ip(reservations@),
    ensures
        r@ == private_ip_of(reservations@),
{
    let interface = &reservations[0].instances[0].network_interfaces[0];
    match &interface.private_ip_address {
        Some(ip) => ip.clone(),
        None => String::new(),
    }
}

} // verus!
