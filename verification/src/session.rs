//! Session ids, the session's paths, and the history directory's stamp.

use vstd::prelude::*;

use crate::cli::Run;
use crate::config::Config;
use crate::text::{
    byte_path_join, char_is_alphanumeric, is_alphanumeric, join_bytes, push_padded, to_chars, utf8, utf8_bytes,
    zero_padded,
};

verus! {

/// One shell conversation: its id, the adapter's state directory and the
/// directory that holds pi's session file and the history.
#[derive(Debug)]
pub struct Session {
    pub id: String,
    /// `$XDG_STATE_HOME/pi-command-not-found-adapter`: pi's sessions and the
    /// agent's notes live here. Paths are the bytes the system holds them in.
    pub state: Vec<u8>,
    pub dir: Vec<u8>,
}

/// Whether a character may stand in a session id unchanged.
pub open spec fn id_char(c: char) -> bool {
    char_is_alphanumeric(c) || c == '-'
}

/// Session ids keep only characters that are safe in a path component.
pub open spec fn sanitized(raw: Seq<char>) -> Seq<char> {
    raw.map_values(|c: char| if id_char(c) { c } else { '_' })
}

/// Keep session ids to characters that are safe in a path component.
pub fn sanitize(raw: &str) -> (r: String)
    ensures
        r@ == sanitized(raw@),
{
    let c = to_chars(raw);
    let mut out = String::new();
    for i in 0..c.len()
        invariant
            c@ == raw@,
            out@ == sanitized(raw@.take(i as int)),
    {
        let ch = c[i];
        if is_alphanumeric(ch) || ch == '-' {
            out.push(ch);
        } else {
            out.push('_');
        }
        assert(out@ =~= sanitized(raw@.take(i + 1)));
    }
    assert(raw@.take(c.len() as int) =~= raw@);
    out
}

/// Sanitizing keeps the length and changes nothing in an id that was
/// already sanitized; every character it leaves is one an id may hold or
/// the replacement `_`, so no separator, dot, whitespace or control
/// character is left: the id is one safe path component.
pub proof fn lemma_sanitize_stable(raw: Seq<char>)
    ensures
        sanitized(raw).len() == raw.len(),
        sanitized(sanitized(raw)) == sanitized(raw),
        forall|i: int| 0 <= i < raw.len() ==> id_char(#[trigger] sanitized(raw)[i]) || sanitized(raw)[i] == '_',
        forall|i: int|
            0 <= i < raw.len() ==> {
                let c = #[trigger] sanitized(raw)[i];
                &&& c != '/'
                &&& c != '.'
                &&& !crate::text::char_is_whitespace(c)
                &&& !crate::text::char_is_control(c)
            },
{
    assert(sanitized(sanitized(raw)) =~= sanitized(raw));
}

pub open spec fn opt_view(o: Option<String>) -> Option<Seq<char>> {
    match o {
        Some(s) => Some(s@),
        None => None,
    }
}

/// The id a session gets: the given one, sanitized, unless that leaves
/// nothing, then a fresh one.
pub open spec fn session_id_of(raw: Option<Seq<char>>, fresh: Seq<char>) -> Seq<char> {
    let given = match raw {
        Some(r) => sanitized(r),
        None => Seq::empty(),
    };
    if given.len() == 0 { fresh } else { given }
}

/// The adapter's state directory under the state home.
pub open spec fn state_dir_of(state_home: Seq<u8>) -> Seq<u8> {
    byte_path_join(state_home, utf8("pi-command-not-found-adapter"@))
}

/// Where the sessions live: the configured root, or `sessions` under the
/// state directory.
pub open spec fn session_root_of(state: Seq<u8>, session_root: Option<Seq<char>>) -> Seq<u8> {
    match session_root {
        Some(root) => utf8(root),
        None => byte_path_join(state, utf8("sessions"@)),
    }
}

/// Whether no usable session id was given, so a fresh one is needed.
pub fn needs_fresh_id(raw: Option<&str>) -> (r: bool)
    ensures
        r == (session_id_of(crate::config::opt_str(raw), Seq::empty()).len() == 0),
{
    match raw {
        Some(raw) => to_chars(sanitize(raw).as_str()).len() == 0,
        None => true,
    }
}

/// Calls `dirs::state_dir`: `$XDG_STATE_HOME` or `$HOME/.local/state` on
/// Linux, `None` where it cannot be determined; the path's bytes as the
/// system holds them (`OsString::into_encoded_bytes`). The result depends
/// on the environment, so nothing is stated of it.
#[verifier::external_body]
fn state_home() -> (r: Option<Vec<u8>>) {
    dirs::state_dir().map(|path| path.into_os_string().into_encoded_bytes())
}

pub open spec fn opt_utf8(o: Option<&str>) -> Option<Seq<char>> {
    crate::config::opt_str(o)
}

/// The session of a call. Its paths are bytes, as the system holds them:
/// the state home need not be UTF-8, and the id and the configured root
/// join it in UTF-8.
impl Session {
    /// The session of a given id under a given state home.
    pub fn locate(raw_id: Option<&str>, fresh_id: &str, state_home: &[u8], session_root: Option<&str>) -> (r: Session)
        ensures
            r.id@ == session_id_of(opt_utf8(raw_id), fresh_id@),
            r.state@ == state_dir_of(state_home@),
            r.dir@ == byte_path_join(session_root_of(r.state@, opt_utf8(session_root)), utf8(r.id@)),
    {
        let given = match raw_id {
            Some(raw) => sanitize(raw),
            None => String::new(),
        };
        let id = if to_chars(given.as_str()).len() == 0 {
            fresh_id.to_owned()
        } else {
            given
        };
        let state = join_bytes(state_home, utf8_bytes("pi-command-not-found-adapter"));
        let root = match session_root {
            Some(root) => {
                let bytes = join_bytes(&[], utf8_bytes(root));
                assert(bytes@ =~= utf8(root@));
                bytes
            },
            None => join_bytes(state.as_slice(), utf8_bytes("sessions")),
        };
        let dir = join_bytes(root.as_slice(), utf8_bytes(id.as_str()));
        Session { id, state, dir }
    }

    /// The session of a call under the state home that was found, if any.
    pub fn at_home(
        home: Option<Vec<u8>>,
        args: &Run,
        config: &Config,
        fresh_id: &str,
    ) -> (r: Result<Session, String>)
        ensures
            match home {
                None => r matches Err(e) && e@ == "cannot determine the XDG state directory"@,
                Some(h) => r matches Ok(s) && {
                    &&& s.id@ == session_id_of(opt_view(args.session_id), fresh_id@)
                    &&& s.state@ == state_dir_of(h@)
                    &&& s.dir@ == byte_path_join(session_root_of(s.state@, opt_view(config.session_root)), utf8(s.id@))
                },
            },
    {
        let home = match home {
            Some(home) => home,
            None => return Err("cannot determine the XDG state directory".to_owned()),
        };
        let raw = match &args.session_id {
            Some(id) => Some(id.as_str()),
            None => None,
        };
        let root = match &config.session_root {
            Some(root) => Some(root.as_str()),
            None => None,
        };
        Ok(Session::locate(raw, fresh_id, home.as_slice(), root))
    }

    /// The session of a call, under the XDG state directory.
    pub fn resolve(args: &Run, config: &Config, fresh_id: &str) -> (r: Result<Session, String>)
        ensures
            match r {
                Ok(s) => {
                    &&& s.id@ == session_id_of(opt_view(args.session_id), fresh_id@)
                    &&& exists|home: Seq<u8>| s.state@ == state_dir_of(home)
                    &&& s.dir@ == byte_path_join(session_root_of(s.state@, opt_view(config.session_root)), utf8(s.id@))
                },
                Err(e) => e@ == "cannot determine the XDG state directory"@,
            },
    {
        Session::at_home(state_home(), args, config, fresh_id)
    }

    /// pi's own session file, resumed on every invocation.
    pub fn session_file(&self) -> (r: Vec<u8>)
        ensures
            r@ == byte_path_join(self.dir@, utf8("session.jsonl"@)),
    {
        join_bytes(self.dir.as_slice(), utf8_bytes("session.jsonl"))
    }

    /// The per-invocation log directory: `history/<stamp>` in the session.
    pub fn history_dir(&self, stamp: &str) -> (r: Vec<u8>)
        ensures
            r@ == byte_path_join(byte_path_join(self.dir@, utf8("history"@)), utf8(stamp@)),
    {
        let history = join_bytes(self.dir.as_slice(), utf8_bytes("history"));
        join_bytes(history.as_slice(), utf8_bytes(stamp))
    }
}

/// Gregorian leap years.
pub open spec fn is_leap_year(y: int) -> bool {
    (y % 4 == 0 && y % 100 != 0) || y % 400 == 0
}

pub open spec fn days_in_month(y: int, m: int) -> int {
    if m == 2 {
        if is_leap_year(y) { 29 } else { 28 }
    } else if m == 4 || m == 6 || m == 9 || m == 11 {
        30
    } else {
        31
    }
}

/// Days of the year before the first of month `m`.
pub open spec fn days_before_month(y: int, m: int) -> int {
    let common: int = if m == 1 { 0 }
    else if m == 2 { 31 }
    else if m == 3 { 59 }
    else if m == 4 { 90 }
    else if m == 5 { 120 }
    else if m == 6 { 151 }
    else if m == 7 { 181 }
    else if m == 8 { 212 }
    else if m == 9 { 243 }
    else if m == 10 { 273 }
    else if m == 11 { 304 }
    else { 334 };
    if m > 2 && is_leap_year(y) { common + 1 } else { common }
}

/// Leap years among the years `1 ..= y - 1` (counted negatively before the
/// year 1, so that differences are right for every pair of years).
pub open spec fn leap_years_before(y: int) -> int {
    (y - 1) / 4 - (y - 1) / 100 + (y - 1) / 400
}

/// Days from 1970-01-01 to the given date of the proleptic Gregorian calendar.
pub open spec fn days_from_civil(y: int, m: int, d: int) -> int {
    365 * (y - 1970) + leap_years_before(y) - leap_years_before(1970) + days_before_month(y, m) + d - 1
}

pub open spec fn is_valid_date(y: int, m: int, d: int) -> bool {
    1 <= m <= 12 && 1 <= d <= days_in_month(y, m)
}

/// The date of a day: the one valid date that many days after 1970-01-01.
pub open spec fn civil_date(days: int) -> (int, int, int) {
    choose|t: (int, int, int)| is_valid_date(t.0, t.1, t.2) && days_from_civil(t.0, t.1, t.2) == days
}

#[verifier::spinoff_prover]
proof fn lemma_count_step(y: int)
    ensures
        y / 4 - (y - 1) / 4 == if y % 4 == 0 { 1int } else { 0 },
        y / 100 - (y - 1) / 100 == if y % 100 == 0 { 1int } else { 0 },
        y / 400 - (y - 1) / 400 == if y % 400 == 0 { 1int } else { 0 },
{
}

#[verifier::spinoff_prover]
proof fn lemma_year_length(y: int)
    ensures
        days_from_civil(y + 1, 1, 1) - days_from_civil(y, 1, 1) == 365 + if is_leap_year(y) { 1int } else { 0 },
{
    lemma_count_step(y);
    let step: int = if is_leap_year(y) { 1 } else { 0 };
    assert(leap_years_before(y + 1) - leap_years_before(y) == step) by {
        assert(leap_years_before(y + 1) == y / 4 - y / 100 + y / 400);
        assert(leap_years_before(y) == (y - 1) / 4 - (y - 1) / 100 + (y - 1) / 400);
    }
    assert(days_before_month(y, 1) == 0);
    assert(days_before_month(y + 1, 1) == 0);
    assert(days_from_civil(y, 1, 1) == 365 * (y - 1970) + leap_years_before(y) - leap_years_before(1970));
    assert(days_from_civil(y + 1, 1, 1) == 365 * (y + 1 - 1970) + leap_years_before(y + 1) - leap_years_before(
        1970,
    ));
}

proof fn lemma_day_in_year(y: int, m: int, d: int)
    requires
        is_valid_date(y, m, d),
    ensures
        days_from_civil(y, 1, 1) <= days_from_civil(y, m, d) < days_from_civil(y + 1, 1, 1),
{
    lemma_year_length(y);
}

proof fn lemma_years_ordered(y1: int, y2: int)
    requires
        y1 < y2,
    ensures
        days_from_civil(y1 + 1, 1, 1) <= days_from_civil(y2, 1, 1),
    decreases y2 - y1,
{
    if y1 + 1 < y2 {
        lemma_years_ordered(y1 + 1, y2);
        lemma_year_length(y1 + 1);
    }
}

proof fn lemma_months_ordered(y: int, m1: int, d1: int, m2: int, d2: int)
    requires
        is_valid_date(y, m1, d1),
        is_valid_date(y, m2, d2),
        m1 < m2,
    ensures
        days_from_civil(y, m1, d1) < days_from_civil(y, m2, d2),
{
}

/// Two valid dates on the same day are the same date.
pub proof fn lemma_date_unique(a: (int, int, int), b: (int, int, int))
    requires
        is_valid_date(a.0, a.1, a.2),
        is_valid_date(b.0, b.1, b.2),
        days_from_civil(a.0, a.1, a.2) == days_from_civil(b.0, b.1, b.2),
    ensures
        a == b,
{
    lemma_day_in_year(a.0, a.1, a.2);
    lemma_day_in_year(b.0, b.1, b.2);
    if a.0 < b.0 {
        lemma_years_ordered(a.0, b.0);
    } else if b.0 < a.0 {
        lemma_years_ordered(b.0, a.0);
    } else if a.1 < b.1 {
        lemma_months_ordered(a.0, a.1, a.2, b.1, b.2);
    } else if b.1 < a.1 {
        lemma_months_ordered(a.0, b.1, b.2, a.1, a.2);
    }
}

/// First day of a month in a year that starts in March.
spec fn march_start(mp: int) -> int {
    (153 * mp + 2) / 5
}

/// Whether the `k`-th year of a 400-year era (`1 ..= 400`) is a leap year.
spec fn leap_in_era(k: int) -> bool {
    (k % 4 == 0 && k % 100 != 0) || k == 400
}

proof fn lemma_year_of_era(doe: u32)
    requires
        doe <= 146096,
    ensures
        ({
            let yoe: int = (doe - doe / 1460 + doe / 36524 - doe / 146096) / 365;
            let doy: int = doe - (365 * yoe + yoe / 4 - yoe / 100);
            &&& yoe <= 399
            &&& 365 * yoe + yoe / 4 - yoe / 100 <= doe
            &&& doy <= 365
            &&& doy == 365 ==> ((yoe + 1) % 4 == 0 && (yoe + 1) % 100 != 0) || yoe == 399
        }),
{
    assert({
        let yoe: u32 = ((doe - doe / 1460 + doe / 36524 - doe / 146096) / 365) as u32;
        &&& yoe <= 399
        &&& 365 * yoe + yoe / 4 - yoe / 100 <= doe
        &&& doe - (365 * yoe + yoe / 4 - yoe / 100) <= 365
        &&& doe - (365 * yoe + yoe / 4 - yoe / 100) == 365 ==> ((yoe + 1) % 4 == 0 && (yoe + 1)
            % 100 != 0) || yoe == 399
    }) by (bit_vector)
        requires
            doe <= 146096,
    ;
}

proof fn lemma_month_of_year(doy: u32)
    requires
        doy <= 365,
    ensures
        (5 * doy + 2) / 153 <= 11,
        (153 * ((5 * doy + 2) / 153) + 2) / 5 <= doy,
        doy < (153 * ((5 * doy + 2) / 153) + 155) / 5,
{
    assert({
        &&& (5 * doy + 2) / 153 <= 11
        &&& (153 * ((5 * doy + 2) / 153) + 2) / 5 <= doy
        &&& doy < (153 * ((5 * doy + 2) / 153) + 155) / 5
    }) by (bit_vector)
        requires
            doy <= 365,
    ;
}

proof fn lemma_era_shift(e: int, x: int)
    ensures
        (400 * e + x) / 4 == 100 * e + x / 4,
        (400 * e + x) / 100 == 4 * e + x / 100,
        (400 * e + x) / 400 == e + x / 400,
        (400 * e + x) % 4 == x % 4,
        (400 * e + x) % 100 == x % 100,
        (400 * e + x) % 400 == x % 400,
{
}

proof fn lemma_leaps_in_era(r: int)
    requires
        0 <= r <= 399,
    ensures
        (r - 1) / 4 - (r - 1) / 100 + (r - 1) / 400 + (if is_leap_year(r) { 1int } else { 0 }) == r / 4 - r / 100,
        r / 400 == 0,
{
}

/// The date `doe` days after the first of March of the first year of era `era`,
/// as Hinnant's algorithm takes it apart.
proof fn lemma_civil(era: int, doe: int, yoe: int, doy: int, mp: int, d: int)
    requires
        0 <= doe <= 146096,
        0 <= yoe <= 399,
        doy == doe - (365 * yoe + yoe / 4 - yoe / 100),
        0 <= doy <= 365,
        doy == 365 ==> leap_in_era(yoe + 1),
        0 <= mp <= 11,
        march_start(mp) <= doy < march_start(mp + 1),
        d == doy - march_start(mp) + 1,
    ensures
        ({
            let m: int = if mp < 10 { mp + 3 } else { mp - 9 };
            let y: int = 400 * era + yoe + if m <= 2 { 1int } else { 0 };
            &&& is_valid_date(y, m, d)
            &&& days_from_civil(y, m, d) == 146097 * era + doe - 719468
        }),
{
    let m: int = if mp < 10 { mp + 3 } else { mp - 9 };
    let big_y: int = 400 * era + yoe;
    lemma_era_shift(era, yoe - 1);
    lemma_era_shift(era, yoe);
    lemma_era_shift(era, yoe + 1);
    lemma_leaps_in_era(yoe);
    assert(400 * era + yoe - 1 == 400 * era + (yoe - 1));
    assert(400 * era + yoe + 1 == 400 * era + (yoe + 1));
    assert(is_leap_year(big_y + 1) == leap_in_era(yoe + 1));
    assert(is_leap_year(big_y) == is_leap_year(yoe));
    if mp == 0 {} else if mp == 1 {} else if mp == 2 {} else if mp == 3 {} else if mp == 4 {}
    else if mp == 5 {} else if mp == 6 {} else if mp == 7 {} else if mp == 8 {} else if mp == 9 {}
    else if mp == 10 {} else {}
}

/// Days since the Unix epoch to a civil date (Howard Hinnant's algorithm).
pub fn civil_from_days(days: i64) -> (r: (i64, u32, u32))
    requires
        days <= i64::MAX - 719_468,
    ensures
        is_valid_date(r.0 as int, r.1 as int, r.2 as int),
        days_from_civil(r.0 as int, r.1 as int, r.2 as int) == days,
        (r.0 as int, r.1 as int, r.2 as int) == civil_date(days as int),
{
    let z: i64 = days + 719_468;
    let era: i64 = match z.checked_div_euclid(146_097) {
        Some(era) => era,
        None => 0,
    };
    assert(era == z / 146_097);
    let doe_wide: i64 = z - era * 146_097;
    assert(0 <= doe_wide < 146_097);
    let doe: u32 = doe_wide as u32;
    proof {
        lemma_year_of_era(doe);
    }
    let yoe: u32 = (doe - doe / 1460 + doe / 36_524 - doe / 146_096) / 365;
    let doy: u32 = doe - (365 * yoe + yoe / 4 - yoe / 100);
    proof {
        lemma_month_of_year(doy);
    }
    let mp: u32 = (5 * doy + 2) / 153;
    let d: u32 = doy - (153 * mp + 2) / 5 + 1;
    let m: u32 = if mp < 10 { mp + 3 } else { mp - 9 };
    let y: i64 = yoe as i64 + era * 400 + if m <= 2 { 1 } else { 0 };
    proof {
        assert(march_start(mp + 1) == (153 * mp + 155) / 5);
        lemma_civil(era as int, doe as int, yoe as int, doy as int, mp as int, d as int);
        let t: (int, int, int) = (y as int, m as int, d as int);
        assert(is_valid_date(t.0, t.1, t.2) && days_from_civil(t.0, t.1, t.2) == days);
        let c: (int, int, int) = civil_date(days as int);
        lemma_date_unique(t, c);
    }
    (y, m, d)
}

/// `2026-09-09T16-56-00-023Z`: the UTC time of a Unix time in milliseconds,
/// as the history directory is named.
pub open spec fn stamp_text(millis: int) -> Seq<char> {
    let date = civil_date(millis / 86_400_000);
    let rest = millis % 86_400_000;
    zero_padded(date.0, 4) + seq!['-'] + zero_padded(date.1, 2) + seq!['-'] + zero_padded(date.2, 2)
        + seq!['T'] + zero_padded(rest / 3_600_000, 2) + seq!['-'] + zero_padded(rest / 60_000 % 60, 2)
        + seq!['-'] + zero_padded(rest / 1000 % 60, 2) + seq!['-'] + zero_padded(rest % 1000, 3) + seq!['Z']
}

/// The history directory's name for a Unix time in milliseconds.
pub fn stamp(millis: i64) -> (r: String)
    ensures
        r@ == stamp_text(millis as int),
{
    let days: i64 = match millis.checked_div_euclid(86_400_000) {
        Some(days) => days,
        None => 0,
    };
    assert(days == millis / 86_400_000);
    let rest: i64 = match millis.checked_rem_euclid(86_400_000) {
        Some(rest) => rest,
        None => 0,
    };
    assert(rest == millis % 86_400_000);
    let (year, month, day) = civil_from_days(days);
    let mut out = String::new();
    push_padded(&mut out, year, 4);
    out.push('-');
    push_padded(&mut out, month as i64, 2);
    out.push('-');
    push_padded(&mut out, day as i64, 2);
    out.push('T');
    push_padded(&mut out, rest / 3_600_000, 2);
    out.push('-');
    push_padded(&mut out, rest / 60_000 % 60, 2);
    out.push('-');
    push_padded(&mut out, rest / 1000 % 60, 2);
    out.push('-');
    push_padded(&mut out, rest % 1000, 3);
    out.push('Z');
    assert(out@ =~= stamp_text(millis as int));
    out
}

} // verus!
