//! The canonical timestamp: a UTC instant at microsecond precision.

use vstd::prelude::*;

verus! {

/// The first microsecond of the year 0, counted from the UNIX epoch.
pub const MIN_MICROS: i64 = -62167219200000000;

/// The last microsecond of the year 9999, counted from the UNIX epoch.
pub const MAX_MICROS: i64 = 253402300799999999;

/// The RFC 3339 text of an instant given in microseconds since the UNIX
/// epoch, with six fractional digits and a `Z` zone.
pub uninterp spec fn rfc3339_micros(micros: int) -> Seq<char>;

/// Relies on chrono's `DateTime::from_timestamp_micros` and
/// `to_rfc3339_opts(SecondsFormat::Micros, true)`: the text of the instant,
/// which chrono writes for every instant from the start of the year 0 to the end of
/// the year 9999.
#[verifier::external_body]
fn format_micros(micros: i64) -> (r: Option<String>)
    ensures
        r matches Some(t) ==> t@ == rfc3339_micros(micros as int),
        MIN_MICROS <= micros <= MAX_MICROS ==> r is Some,
{
    match chrono::DateTime::from_timestamp_micros(micros) {
        Some(dt) => Some(dt.to_rfc3339_opts(chrono::SecondsFormat::Micros, true)),
        None => None,
    }
}

/// The instant an RFC 3339 text names, in microseconds since the UNIX epoch
/// (finer digits dropped), or `None` where the text is not RFC 3339.
pub uninterp spec fn rfc3339_instant(s: Seq<char>) -> Option<int>;

/// Relies on chrono's `DateTime::parse_from_rfc3339` and `timestamp_micros`:
/// the instant the text names, or `None` where chrono refuses the text.
#[verifier::external_body]
fn parse_micros(s: &str) -> (r: Option<i64>)
    ensures
        r matches Some(m) ==> rfc3339_instant(s@) == Some(m as int),
        r is None ==> rfc3339_instant(s@) is None,
{
    match chrono::DateTime::parse_from_rfc3339(s) {
        Ok(dt) => Some(dt.timestamp_micros()),
        Err(_) => None,
    }
}

/// Relies on `SystemTime::duration_since` of `SystemTime::now()` and the
/// UNIX epoch: the microseconds the system clock reads past the epoch, or
/// `None` where it reads before the epoch. Nothing is promised of the value.
#[verifier::external_body]
fn clock_micros() -> (r: Option<u128>) {
    match std::time::SystemTime::now().duration_since(std::time::UNIX_EPOCH) {
        Ok(d) => Some(d.as_micros()),
        Err(_) => None,
    }
}

/// The instant of a clock reading: the reading where it lies within the
/// year 9999, the epoch otherwise.
pub open spec fn clock_instant(reading: Option<u128>) -> int {
    match reading {
        Some(m) => if m <= MAX_MICROS {
            m as int
        } else {
            0
        },
        None => 0,
    }
}

/// A UTC instant at microsecond precision, with its canonical text.
#[derive(Debug, Clone, PartialEq, Eq)]
pub struct StorageDatetime {
    micros: i64,
    text: String,
}

impl StorageDatetime {
    /// Microseconds since the UNIX epoch.
    pub closed spec fn spec_micros(&self) -> int {
        self.micros as int
    }

    /// The canonical text, `YYYY-MM-DDTHH:MM:SS.ffffffZ`.
    pub closed spec fn spec_text(&self) -> Seq<char> {
        self.text@
    }

    /// Whether the instant lies in the representable range and the text is
    /// its canonical text.
    pub closed spec fn wf(&self) -> bool {
        &&& MIN_MICROS <= self.micros <= MAX_MICROS
        &&& self.text@ == rfc3339_micros(self.micros as int)
    }

    /// The instant `micros` microseconds after the UNIX epoch; `None` where it
    /// lies before the year 0 or after the year 9999.
    pub fn from_micros(micros: i64) -> (r: Option<StorageDatetime>)
        ensures
            r is Some <==> MIN_MICROS <= micros <= MAX_MICROS,
            r matches Some(d) ==> d.spec_micros() == micros && d.wf() && d.spec_text()
                == rfc3339_micros(micros as int),
    {
        if micros < MIN_MICROS || micros > MAX_MICROS {
            return None;
        }
        match format_micros(micros) {
            Some(text) => Some(StorageDatetime { micros, text }),
            None => None,
        }
    }

    /// The instant an RFC 3339 text names; `None` where the text is not
    /// RFC 3339 or the instant lies outside the representable range.
    pub fn parse(s: &str) -> (r: Option<StorageDatetime>)
        ensures
            r matches Some(d) ==> rfc3339_instant(s@) == Some(d.spec_micros()) && d.wf()
                && d.spec_text() == rfc3339_micros(d.spec_micros()),
            r is None <==> (rfc3339_instant(s@) matches Some(m) ==> !(MIN_MICROS <= m <= MAX_MICROS)),
    {
        match parse_micros(s) {
            Some(m) => StorageDatetime::from_micros(m),
            None => None,
        }
    }

    /// The instant of a clock reading: `m` microseconds past the UNIX epoch
    /// where the reading is `Some(m)` and lies before the end of the year
    /// 9999, and the epoch itself otherwise (a clock before the epoch, or far
    /// ahead).
    pub fn from_clock(reading: Option<u128>) -> (r: StorageDatetime)
        ensures
            r.wf(),
            r.spec_micros() == clock_instant(reading),
            r.spec_text() == rfc3339_micros(r.spec_micros()),
    {
        let micros: i64 = match reading {
            Some(m) => if m <= MAX_MICROS as u128 {
                m as i64
            } else {
                0
            },
            None => 0,
        };
        let text = match format_micros(micros) {
            Some(t) => t,
            None => String::new(),
        };
        StorageDatetime { micros, text }
    }

    /// The current instant, as the clock reads it; see `from_clock`.
    pub fn now() -> (r: StorageDatetime)
        ensures
            r.wf(),
    {
        StorageDatetime::from_clock(clock_micros())
    }

    /// Microseconds since the UNIX epoch.
    pub fn micros(&self) -> (r: i64)
        ensures
            r == self.spec_micros(),
    {
        self.micros
    }

    /// The canonical text of this instant.
    pub fn text(&self) -> (r: String)
        ensures
            r@ == self.spec_text(),
    {
        self.text.clone()
    }

    /// A copy of this instant.
    pub fn duplicate(&self) -> (r: StorageDatetime)
        ensures
            r == *self,
    {
        StorageDatetime { micros: self.micros, text: self.text.clone() }
    }

    /// The instant `delta` microseconds later (earlier where negative);
    /// `None` where it leaves the representable range.
    pub fn plus_micros(&self, delta: i64) -> (r: Option<StorageDatetime>)
        ensures
            r is Some <==> MIN_MICROS <= self.spec_micros() + delta <= MAX_MICROS,
            r matches Some(d) ==> d.spec_micros() == self.spec_micros() + delta && d.wf(),
    {
        let m = self.micros as i128 + delta as i128;
        if m < MIN_MICROS as i128 || m > MAX_MICROS as i128 {
            return None;
        }
        StorageDatetime::from_micros(m as i64)
    }

    /// Whether this instant lies after `now`.
    pub fn is_after(&self, now: &StorageDatetime) -> (r: bool)
        ensures
            r == (self.spec_micros() > now.spec_micros()),
    {
        self.micros > now.micros
    }

    /// Whether this instant lies after the clock's current instant.
    pub fn is_from_future(&self) -> (r: bool) {
        let now = StorageDatetime::now();
        self.is_after(&now)
    }
}

} // verus!
