//! The text of the SIP log of a test run: file names stamped with the UTC
//! date and time, and the entries written for messages, events and the
//! summary.
use vstd::prelude::*;
use crate::num::{dec, zero_pad, push_dec_padded};

verus! {

/// The side a test plays, named in the log file.
#[derive(Debug, Clone, Copy, PartialEq, Eq, Structural)]
pub enum SipRole {
    /// The side that places the calls.
    Agent,
    /// The side that answers them.
    User,
}

pub open spec fn role_name(r: SipRole) -> Seq<char> {
    match r {
        SipRole::Agent => "agent"@,
        SipRole::User => "user"@,
    }
}

impl SipRole {
    pub fn as_str(&self) -> (s: &'static str)
        ensures
            s@ == role_name(*self),
    {
        match self {
            SipRole::Agent => "agent",
            SipRole::User => "user",
        }
    }
}

/// Direction of a logged message.
#[derive(Debug, Clone, Copy, PartialEq, Eq, Structural)]
pub enum Direction {
    Send,
    Recv,
}

pub open spec fn direction_label(d: Direction) -> Seq<char> {
    match d {
        Direction::Send => "→ SERVER"@,
        Direction::Recv => "← SERVER"@,
    }
}

pub open spec fn direction_arrow(d: Direction) -> Seq<char> {
    match d {
        Direction::Send => ">>>"@,
        Direction::Recv => "<<<"@,
    }
}

impl Direction {
    pub fn label(&self) -> (s: &'static str)
        ensures
            s@ == direction_label(*self),
    {
        match self {
            Direction::Send => "→ SERVER",
            Direction::Recv => "← SERVER",
        }
    }
}

// ─── the calendar ────────────────────────────────────────────────────

/// Gregorian leap year.
pub open spec fn leap(y: nat) -> bool {
    (y % 4 == 0 && y % 100 != 0) || y % 400 == 0
}

pub open spec fn days_in_year(y: nat) -> nat {
    if leap(y) {
        366
    } else {
        365
    }
}

/// Counting `days` from January 1 of year `y`: the year they fall in and
/// the day within it.
pub open spec fn year_from(days: nat, y: nat) -> (nat, nat)
    decreases days,
{
    if days < days_in_year(y) {
        (y, days)
    } else {
        year_from((days - days_in_year(y)) as nat, y + 1)
    }
}

/// Days in month `m` (1 to 12) of year `y`.
pub open spec fn days_in_month(y: nat, m: nat) -> nat {
    if m == 2 {
        if leap(y) {
            29
        } else {
            28
        }
    } else if m == 4 || m == 6 || m == 9 || m == 11 {
        30
    } else {
        31
    }
}

/// Counting `rest` days from the first of month `m` of year `y`: the month
/// they fall in and the day within it (from 0).
pub open spec fn month_from(rest: nat, y: nat, m: nat) -> (nat, nat)
    decreases 13 - m,
{
    if m > 12 || rest < days_in_month(y, m) {
        (m, rest)
    } else {
        month_from((rest - days_in_month(y, m)) as nat, y, m + 1)
    }
}

/// The year of the UTC date of `secs` seconds after the Unix epoch.
pub open spec fn year_of(secs: nat) -> nat {
    year_from(secs / 86400, 1970).0
}

/// Two-digit (or wider) zero-padded decimal.
pub open spec fn pad2(n: nat) -> Seq<char> {
    zero_pad(dec(n), 2)
}

/// `YYYYMMDD_HHMMSS` of `secs` seconds after the Unix epoch, in UTC.
pub open spec fn datetime_text(secs: nat) -> Seq<char> {
    let days = secs / 86400;
    let tod = secs % 86400;
    let (y, r) = year_from(days, 1970);
    let (m, d) = month_from(r, y, 1);
    zero_pad(dec(y), 4) + pad2(m) + pad2(d + 1) + "_"@ + pad2(tod / 3600) + pad2((tod % 3600) / 60)
        + pad2(tod % 60)
}

/// `HH:MM:SS.mmm` of `secs` seconds and `millis` milliseconds after the
/// Unix epoch, in UTC.
pub open spec fn clock_text(secs: nat, millis: nat) -> Seq<char> {
    let tod = secs % 86400;
    pad2(tod / 3600) + ":"@ + pad2((tod % 3600) / 60) + ":"@ + pad2(tod % 60) + "."@ + zero_pad(
        dec(millis),
        3,
    )
}

proof fn lemma_year_from_grows(days: nat, y: nat)
    ensures
        year_from(days, y).0 >= y,
        days >= days_in_year(y) ==> year_from(days, y).0 >= y + 1,
        year_from(days, y).1 < days_in_year(year_from(days, y).0),
    decreases days,
{
    if days >= days_in_year(y) {
        lemma_year_from_grows((days - days_in_year(y)) as nat, y + 1);
    }
}

proof fn lemma_month_from_bound(rest: nat, y: nat, m: nat)
    requires
        1 <= m <= 13,
        m <= 12 ==> rest < 366,
    ensures
        month_from(rest, y, m).1 <= rest,
        month_from(rest, y, m).0 <= 13,
    decreases 13 - m,
{
    if !(m > 12 || rest < days_in_month(y, m)) {
        lemma_month_from_bound((rest - days_in_month(y, m)) as nat, y, m + 1);
    }
}

proof fn lemma_year_from_at_most(days: nat, y: nat)
    ensures
        year_from(days, y).0 <= y + days / 365,
    decreases days,
{
    if days >= days_in_year(y) {
        let rest = (days - days_in_year(y)) as nat;
        lemma_year_from_at_most(rest, y + 1);
        assert(rest / 365 + 1 <= days / 365) by (nonlinear_arith)
            requires
                rest + 365 <= days,
        ;
    }
}

/// Whether the date of `secs` is surely within the years `SipLogger`
/// writes (up to `u32::MAX`): true for every time up to the year
/// 4294967295 less a few million years.
pub fn year_fits(secs: u64) -> (b: bool)
    ensures
        b == (secs / 86400 <= 365 * (u32::MAX - 1970)),
        b ==> year_of(secs as nat) <= u32::MAX,
{
    let days = secs / 86400;
    let b = days <= 365 * (0xFFFF_FFFFu64 - 1970);
    proof {
        if b {
            lemma_year_from_at_most(days as nat, 1970);
        }
    }
    b
}

/// Days from the first of month `m` to the end of year `y`.
pub open spec fn days_from_month(y: nat, m: nat) -> nat
    decreases 13 - m,
{
    if m > 12 {
        0
    } else {
        days_in_month(y, m) + days_from_month(y, m + 1)
    }
}

proof fn lemma_year_is_its_months(y: nat)
    ensures
        days_from_month(y, 1) == days_in_year(y),
{
    reveal_with_fuel(days_from_month, 13);
}

proof fn lemma_month_from_valid(rest: nat, y: nat, m: nat)
    requires
        1 <= m <= 12,
        rest < days_from_month(y, m),
    ensures
        m <= month_from(rest, y, m).0 <= 12,
        month_from(rest, y, m).1 < days_in_month(y, month_from(rest, y, m).0),
    decreases 13 - m,
{
    if rest >= days_in_month(y, m) {
        if m == 12 {
            assert(days_from_month(y, 13) == 0);
        } else {
            lemma_month_from_valid((rest - days_in_month(y, m)) as nat, y, m + 1);
        }
    }
}

/// Every file-name stamp names a real date and time: a year from 1970, a
/// month from 1 to 12, a day within that month, an hour below 24, a minute
/// and a second below 60.
pub proof fn lemma_datetime_valid(secs: nat)
    ensures
        ({
            let (y, r) = year_from(secs / 86400, 1970);
            let (m, d) = month_from(r, y, 1);
            &&& y >= 1970
            &&& 1 <= m <= 12
            &&& 1 <= d + 1 <= days_in_month(y, m)
            &&& (secs % 86400) / 3600 < 24
            &&& ((secs % 86400) % 3600) / 60 < 60
            &&& (secs % 86400) % 60 < 60
        }),
{
    let (y, r) = year_from(secs / 86400, 1970);
    lemma_year_from_grows(secs / 86400, 1970);
    lemma_year_is_its_months(y);
    lemma_month_from_valid(r, y, 1);
}

fn month_length(leap_year: bool, m: u32) -> (d: u64)
    requires
        1 <= m <= 12,
    ensures
        forall|y: nat| leap(y) == leap_year ==> d == days_in_month(y, m as nat),
{
    if m == 2 {
        if leap_year {
            29
        } else {
            28
        }
    } else if m == 4 || m == 6 || m == 9 || m == 11 {
        30
    } else {
        31
    }
}

/// The log of one test run: the side it records and the name of its file.
pub struct SipLogger {
    pub role: SipRole,
    /// `YYYYMMDD_HHMMSS` of when the log was started.
    pub timestamp: String,
    /// `YYYYMMDD_HHMMSS_<role>.sip.log`.
    pub file_name: String,
}

/// Heavy horizontal rule of the summary block.
pub open spec fn summary_rule() -> Seq<char> {
    "# ════════════════════════════════════"@
}

/// The lines that open a log file.
pub open spec fn header_text(timestamp: Seq<char>, role: SipRole) -> Seq<char> {
    "# sipress SIP Log\n"@ + "# 檔案建立時間："@ + timestamp + "\n"@ + "# 角色："@ + role_name(role)
        + "\n"@ + "# ----------------------------------------\n"@ + "\n"@
}

/// The entry for a message: a header line with the time, the direction
/// and the peer, the message, and a blank line (two when the message does
/// not end with a newline).
pub open spec fn message_text(
    clock: Seq<char>,
    direction: Direction,
    msg: Seq<char>,
    peer: Seq<char>,
) -> Seq<char> {
    "── "@ + clock + " "@ + direction_arrow(direction) + " "@ + peer + " ["@ + direction_label(
        direction,
    ) + "] ──\n"@ + msg + "\n"@ + (if msg.len() > 0 && msg.last() == '\n' {
        Seq::empty()
    } else {
        "\n"@
    }) + "\n"@
}

/// The entry for an event of a call.
pub open spec fn event_text(clock: Seq<char>, call_id: Seq<char>, event: Seq<char>) -> Seq<char> {
    "── "@ + clock + " [EVENT] call-id="@ + call_id + " → "@ + event + " ──\n"@ + "\n"@
}

/// The summary block that closes a log.
pub open spec fn summary_text(summary: Seq<char>) -> Seq<char> {
    summary_rule() + "\n"@ + "# 壓測結束摘要\n"@ + summary_rule() + "\n"@ + summary + "\n"@
}

impl SipLogger {
    /// The log of a run started at `secs` seconds after the Unix epoch.
    pub fn new(role: SipRole, secs: u64) -> (l: Self)
        requires
            year_of(secs as nat) <= u32::MAX,
        ensures
            l.role == role,
            l.timestamp@ == datetime_text(secs as nat),
            l.file_name@ == datetime_text(secs as nat) + "_"@ + role_name(role) + ".sip.log"@,
    {
        let timestamp = Self::secs_to_datetime(secs);
        let mut file_name = String::new();
        file_name.append(timestamp.as_str());
        file_name.append("_");
        file_name.append(role.as_str());
        file_name.append(".sip.log");
        SipLogger { role, timestamp, file_name }
    }

    /// The lines that open the log file.
    pub fn header(&self) -> (s: String)
        ensures
            s@ == header_text(self.timestamp@, self.role),
    {
        let mut s = String::new();
        s.append("# sipress SIP Log\n");
        s.append("# 檔案建立時間：");
        s.append(self.timestamp.as_str());
        s.append("\n");
        s.append("# 角色：");
        s.append(self.role.as_str());
        s.append("\n");
        s.append("# ----------------------------------------\n");
        s.append("\n");
        s
    }

    /// `YYYYMMDD_HHMMSS` for file names (UTC).
    pub fn timestamp_for_filename(secs: u64) -> (s: String)
        requires
            year_of(secs as nat) <= u32::MAX,
        ensures
            s@ == datetime_text(secs as nat),
    {
        Self::secs_to_datetime(secs)
    }

    /// `HH:MM:SS.mmm` (UTC) of a time given as seconds and milliseconds
    /// after the Unix epoch.
    pub fn now_str(secs: u64, millis: u32) -> (s: String)
        ensures
            s@ == clock_text(secs as nat, millis as nat),
    {
        let day_secs = secs % 86400;
        let mut s = String::new();
        push_dec_padded(&mut s, day_secs / 3600, 2);
        s.append(":");
        push_dec_padded(&mut s, (day_secs % 3600) / 60, 2);
        s.append(":");
        push_dec_padded(&mut s, day_secs % 60, 2);
        s.append(".");
        push_dec_padded(&mut s, millis as u64, 3);
        s
    }

    /// The entry for a message sent to or received from `peer`, at the
    /// time `secs`, `millis`.
    pub fn message_entry(direction: Direction, msg: &str, peer: &str, secs: u64, millis: u32) -> (s: String)
        ensures
            s@ == message_text(clock_text(secs as nat, millis as nat), direction, msg@, peer@),
    {
        let ts = Self::now_str(secs, millis);
        let arrow = match direction {
            Direction::Send => ">>>",
            Direction::Recv => "<<<",
        };
        let mut s = String::new();
        s.append("── ");
        s.append(ts.as_str());
        s.append(" ");
        s.append(arrow);
        s.append(" ");
        s.append(peer);
        s.append(" [");
        s.append(direction.label());
        s.append("] ──\n");
        s.append(msg);
        s.append("\n");
        let n = msg.unicode_len();
        let ends_nl = n > 0 && msg.get_char(n - 1) == '\n';
        if !ends_nl {
            s.append("\n");
        }
        s.append("\n");
        s
    }

    /// The entry for an event of call `call_id` at the time `secs`, `millis`.
    pub fn event_entry(call_id: &str, event: &str, secs: u64, millis: u32) -> (s: String)
        ensures
            s@ == event_text(clock_text(secs as nat, millis as nat), call_id@, event@),
    {
        let ts = Self::now_str(secs, millis);
        let mut s = String::new();
        s.append("── ");
        s.append(ts.as_str());
        s.append(" [EVENT] call-id=");
        s.append(call_id);
        s.append(" → ");
        s.append(event);
        s.append(" ──\n");
        s.append("\n");
        s
    }

    /// The summary block written at the end of the log.
    pub fn summary_entry(summary: &str) -> (s: String)
        ensures
            s@ == summary_text(summary@),
    {
        let mut s = String::new();
        s.append("# ════════════════════════════════════");
        s.append("\n");
        s.append("# 壓測結束摘要\n");
        s.append("# ════════════════════════════════════");
        s.append("\n");
        s.append(summary);
        s.append("\n");
        s
    }

    /// Leap year of the Gregorian calendar.
    pub fn is_leap(year: u32) -> (b: bool)
        ensures
            b == leap(year as nat),
    {
        (year % 4 == 0 && year % 100 != 0) || (year % 400 == 0)
    }

    /// `YYYYMMDD_HHMMSS` of `secs` seconds after the Unix epoch, in UTC (a
    /// year past `u32::MAX` is out of range).
    pub fn secs_to_datetime(secs: u64) -> (s: String)
        requires
            year_of(secs as nat) <= u32::MAX,
        ensures
            s@ == datetime_text(secs as nat),
    {
        let days = secs / 86400;
        let time_of_day = secs % 86400;
        let hh = time_of_day / 3600;
        let mm = (time_of_day % 3600) / 60;
        let ss = time_of_day % 60;
        let mut year: u32 = 1970;
        let mut remaining: u64 = days;
        proof {
            lemma_year_from_grows(days as nat, 1970);
        }
        loop
            invariant
                year_from(days as nat, 1970) == year_from(remaining as nat, year as nat),
                year_from(days as nat, 1970).0 <= u32::MAX,
            ensures
                year_from(days as nat, 1970) == (year as nat, remaining as nat),
            decreases remaining,
        {
            let diy: u64 = if Self::is_leap(year) {
                366
            } else {
                365
            };
            if remaining < diy {
                assert(year_from(remaining as nat, year as nat) == (year as nat, remaining as nat));
                break;
            }
            proof {
                lemma_year_from_grows(remaining as nat, year as nat);
            }
            remaining = remaining - diy;
            year = year + 1;
        }
        proof {
            lemma_year_from_grows(days as nat, 1970);
        }
        let leap_year = Self::is_leap(year);
        let mut month: u32 = 1;
        proof {
            lemma_month_from_bound(remaining as nat, year as nat, 1);
        }
        while month <= 12
            invariant
                1 <= month <= 13,
                leap_year == leap(year as nat),
                month_from(year_from(days as nat, 1970).1, year as nat, 1) == month_from(
                    remaining as nat,
                    year as nat,
                    month as nat,
                ),
                month <= 12 ==> remaining < 366,
            ensures
                month_from(year_from(days as nat, 1970).1, year as nat, 1) == (
                    month as nat,
                    remaining as nat,
                ),
            decreases 13 - month,
        {
            let dim = month_length(leap_year, month);
            if remaining < dim {
                assert(month_from(remaining as nat, year as nat, month as nat) == (
                    month as nat,
                    remaining as nat,
                ));
                break;
            }
            remaining = remaining - dim;
            month = month + 1;
        }
        let day = remaining + 1;
        let mut s = String::new();
        push_dec_padded(&mut s, year as u64, 4);
        push_dec_padded(&mut s, month as u64, 2);
        push_dec_padded(&mut s, day, 2);
        s.append("_");
        push_dec_padded(&mut s, hh, 2);
        push_dec_padded(&mut s, mm, 2);
        push_dec_padded(&mut s, ss, 2);
        s
    }
}

} // verus!
