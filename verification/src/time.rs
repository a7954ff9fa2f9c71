//! Instants and time zones, through chrono and chrono-tz.  Instants are
//! whole seconds since the Unix epoch; a time zone is held by its IANA name.

use vstd::prelude::*;

use chrono::{DateTime, Timelike};
use chrono_tz::Tz;

verus! {

/// Whether chrono-tz knows `name` as an IANA time-zone name.
pub uninterp spec fn known_zone(name: Seq<char>) -> bool;

/// The instant (seconds since the epoch) that chrono reads from an RFC 2822
/// date-time, if it accepts the text.
pub uninterp spec fn rfc2822_instant(s: Seq<char>) -> Option<int>;

/// The instant (seconds since the epoch) that chrono reads from an RFC 3339
/// date-time, if it accepts the text.
pub uninterp spec fn rfc3339_instant(s: Seq<char>) -> Option<int>;

/// The local calendar date (formatted `%Y-%m-%d`) and hour of an instant in
/// the named time zone, if chrono can represent the instant.
pub uninterp spec fn local_time(instant: int, zone: Seq<char>) -> Option<(Seq<char>, int)>;

/// An optional `i64` as an optional integer.
pub open spec fn opt_int(o: Option<i64>) -> Option<int> {
    match o {
        Some(t) => Some(t as int),
        None => None,
    }
}

/// A local date-and-hour result as plain values.
pub open spec fn local_view(o: Option<(String, u32)>) -> Option<(Seq<char>, int)> {
    match o {
        Some((d, h)) => Some((d@, h as int)),
        None => None,
    }
}

/// chrono-tz's `FromStr` for `Tz`: whether the name is in its zone table.
#[verifier::external_body]
fn zone_name_known(name: &str) -> (b: bool)
    ensures
        b == known_zone(name@),
{
    name.parse::<Tz>().is_ok()
}

/// chrono's `DateTime::parse_from_rfc2822`, reduced to the instant it
/// denotes (`DateTime::timestamp`).
#[verifier::external_body]
fn parse_rfc2822(s: &str) -> (r: Option<i64>)
    ensures
        opt_int(r) == rfc2822_instant(s@),
{
    DateTime::parse_from_rfc2822(s).ok().map(|d| d.timestamp())
}

/// chrono's `DateTime::parse_from_rfc3339`, reduced to the instant it
/// denotes (`DateTime::timestamp`).
#[verifier::external_body]
fn parse_rfc3339(s: &str) -> (r: Option<i64>)
    ensures
        opt_int(r) == rfc3339_instant(s@),
{
    DateTime::parse_from_rfc3339(s).ok().map(|d| d.timestamp())
}

/// chrono's `DateTime::with_timezone` into a chrono-tz zone, read back as
/// the `%Y-%m-%d` date and the hour (`Timelike::hour`, documented to lie in
/// 0..=23).  `None` when `DateTime::from_timestamp` rejects the instant.
#[verifier::external_body]
fn zone_local_time(instant: i64, zone: &str) -> (r: Option<(String, u32)>)
    requires
        known_zone(zone@),
    ensures
        local_view(r) == local_time(instant as int, zone@),
        r matches Some((_, h)) ==> h < 24,
{
    let tz: Tz = zone.parse().unwrap();
    DateTime::from_timestamp(instant, 0).map(
        |d| {
            let local = d.with_timezone(&tz);
            (local.format("%Y-%m-%d").to_string(), local.hour())
        },
    )
}

/// A time zone known to chrono-tz, held by its IANA name.
pub struct Zone {
    name: String,
}

impl Zone {
    #[verifier::type_invariant]
    spec fn known(self) -> bool {
        known_zone(self.name@)
    }

    /// The zone's IANA name.
    pub closed spec fn name_view(self) -> Seq<char> {
        self.name@
    }

    /// The zone of an IANA name, when chrono-tz knows the name.
    pub fn parse(name: &str) -> (z: Option<Zone>)
        ensures
            z is Some <==> known_zone(name@),
            z matches Some(z) ==> z.name_view() == name@,
    {
        if zone_name_known(name) {
            Some(Zone { name: name.to_string() })
        } else {
            None
        }
    }

    /// The zone's IANA name.
    pub fn name(&self) -> (s: &str)
        ensures
            s@ == self.name_view(),
    {
        self.name.as_str()
    }
}

/// The local date and hour of `instant` in `zone`.
pub fn local_date_hour(instant: i64, zone: &Zone) -> (r: Option<(String, u32)>)
    ensures
        local_view(r) == local_time(instant as int, zone.name_view()),
        r matches Some((_, h)) ==> h < 24,
{
    proof {
        use_type_invariant(zone);
    }
    zone_local_time(instant, zone.name.as_str())
}

/// The instant of a feed date: RFC 2822 first, RFC 3339 as a fallback.
pub open spec fn feed_instant(s: Seq<char>) -> Option<int> {
    match rfc2822_instant(s) {
        Some(t) => Some(t),
        None => rfc3339_instant(s),
    }
}

/// Read a feed date as an instant: RFC 2822, with an RFC 3339 fallback.
pub fn parse_feed_instant(s: &str) -> (r: Option<i64>)
    ensures
        opt_int(r) == feed_instant(s@),
{
    match parse_rfc2822(s) {
        Some(t) => Some(t),
        None => parse_rfc3339(s),
    }
}

} // verus!
