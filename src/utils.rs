use vstd::prelude::*;
use vstd::string::StringExecFns;

use chrono::{Datelike, Timelike};

verus! {

/// The decimal digit that stands for `d`.
pub open spec fn digit_char(d: int) -> char {
    if d == 0 {
        '0'
    } else if d == 1 {
        '1'
    } else if d == 2 {
        '2'
    } else if d == 3 {
        '3'
    } else if d == 4 {
        '4'
    } else if d == 5 {
        '5'
    } else if d == 6 {
        '6'
    } else if d == 7 {
        '7'
    } else if d == 8 {
        '8'
    } else {
        '9'
    }
}

/// The decimal notation of `n`, without leading zeros.
pub open spec fn decimal(n: nat) -> Seq<char>
    decreases n,
{
    if n < 10 {
        seq![digit_char(n as int)]
    } else {
        decimal(n / 10).push(digit_char((n % 10) as int))
    }
}

/// The decimal notation of `n`, padded on the left with zeros to `width` characters.
pub open spec fn padded(n: nat, width: nat) -> Seq<char> {
    let digits = decimal(n);
    if digits.len() < width {
        Seq::new((width - digits.len()) as nat, |i: int| '0') + digits
    } else {
        digits
    }
}

/// `HH:MM:SS.mmm` for a span of `time` ms; the hours are not bounded.
pub open spec fn clock_string(time: nat) -> Seq<char> {
    padded(time / 3_600_000, 2) + seq![':'] + padded((time / 60_000) % 60, 2) + seq![':'] + padded(
        (time / 1000) % 60,
        2,
    ) + seq!['.'] + padded(time % 1000, 3)
}

/// A local calendar date and wall-clock time, as plain fields.
pub struct LocalDateTime {
    pub year: i32,
    pub month: u32,
    pub day: u32,
    pub hour: u32,
    pub minute: u32,
    pub second: u32,
}

/// `year-MM-DD--hh-mm-ss`, the year in plain decimal with its sign when negative.
pub open spec fn date_string(d: LocalDateTime) -> Seq<char> {
    let year = if d.year < 0 {
        seq!['-'] + decimal((-d.year) as nat)
    } else {
        decimal(d.year as nat)
    };
    year + seq!['-'] + padded(d.month as nat, 2) + seq!['-'] + padded(d.day as nat, 2) + seq!['-', '-']
        + padded(d.hour as nat, 2) + seq!['-'] + padded(d.minute as nat, 2) + seq!['-'] + padded(
        d.second as nat,
        2,
    )
}

fn digit_str(d: u128) -> (r: &'static str)
    requires
        d < 10,
    ensures
        r@ == seq![digit_char(d as int)],
{
    proof {
        reveal_strlit("0");
        reveal_strlit("1");
        reveal_strlit("2");
        reveal_strlit("3");
        reveal_strlit("4");
        reveal_strlit("5");
        reveal_strlit("6");
        reveal_strlit("7");
        reveal_strlit("8");
        reveal_strlit("9");
    }
    if d == 0 {
        "0"
    } else if d == 1 {
        "1"
    } else if d == 2 {
        "2"
    } else if d == 3 {
        "3"
    } else if d == 4 {
        "4"
    } else if d == 5 {
        "5"
    } else if d == 6 {
        "6"
    } else if d == 7 {
        "7"
    } else if d == 8 {
        "8"
    } else {
        "9"
    }
}

/// Appends the decimal notation of `n`, padded with zeros to `width`.
fn push_padded(out: &mut String, n: u128, width: usize)
    ensures
        final(out)@ == old(out)@ + padded(n as nat, width as nat),
{
    // digits of n, least significant first
    let mut rev: Vec<u128> = Vec::new();
    let mut m: u128 = n;
    let ghost mut tail: Seq<char> = Seq::empty();
    loop
        invariant_except_break
            decimal(n as nat) == decimal(m as nat) + tail,
        invariant
            rev@.len() == tail.len(),
            forall|i: int| 0 <= i < rev@.len() ==> #[trigger] rev@[i] < 10,
            forall|i: int|
                0 <= i < rev@.len() ==> tail[tail.len() - 1 - i] == digit_char(#[trigger] rev@[i] as int),
        ensures
            decimal(n as nat) == tail,
        decreases m,
    {
        if m < 10 {
            rev.push(m);
            proof {
                tail = seq![digit_char(m as int)] + tail;
                assert(decimal(m as nat) =~= seq![digit_char(m as int)]);
                assert(decimal(n as nat) =~= tail);
            }
            break;
        }
        let ghost old_tail = tail;
        rev.push(m % 10);
        proof {
            tail = seq![digit_char((m % 10) as int)] + tail;
            assert(decimal(m as nat) == decimal((m / 10) as nat).push(digit_char((m % 10) as int)));
            assert(decimal(m as nat) + old_tail =~= decimal((m / 10) as nat) + tail);
        }
        m = m / 10;
    }
    let ghost digits = decimal(n as nat);
    assert(digits =~= tail);
    let count = rev.len();
    if count < width {
        let mut z: usize = 0;
        let ghost start = out@;
        while z < width - count
            invariant
                count < width,
                z <= width - count,
                out@ == start + Seq::new(z as nat, |i: int| '0'),
            decreases width - count - z,
        {
            proof {
                reveal_strlit("0");
            }
            out.append("0");
            z = z + 1;
            assert(out@ =~= start + Seq::new(z as nat, |i: int| '0'));
        }
    }
    let ghost before = out@;
    let mut k: usize = count;
    while k > 0
        invariant
            k <= count == rev@.len() == digits.len(),
            digits == tail,
            forall|i: int| 0 <= i < rev@.len() ==> #[trigger] rev@[i] < 10,
            forall|i: int|
                0 <= i < rev@.len() ==> tail[tail.len() - 1 - i] == digit_char(#[trigger] rev@[i] as int),
            out@ == before + digits.subrange(0, (count - k) as int),
        decreases k,
    {
        k = k - 1;
        let d = rev[k];
        out.append(digit_str(d));
        assert(digits[(count - 1 - k) as int] == digit_char(rev@[k as int] as int));
        assert(out@ =~= before + digits.subrange(0, (count - k) as int));
    }
    assert(digits.subrange(0, count as int) =~= digits);
    assert(out@ =~= old(out)@ + padded(n as nat, width as nat));
}

/// The decimal notation of `n`.
pub fn decimal_string(n: u128) -> (r: String)
    ensures
        r@ == decimal(n as nat),
{
    let mut out = String::new();
    push_padded(&mut out, n, 0);
    out
}

/// Writes a span of `time` ms as `HH:MM:SS.mmm`, the form in which the
/// transcoder takes seek offsets and durations.
pub fn time_to_string(time: u128) -> (r: String)
    ensures
        r@ == clock_string(time as nat),
{
    let mut out = String::new();
    proof {
        reveal_strlit(":");
        reveal_strlit(".");
    }
    push_padded(&mut out, time / 3_600_000, 2);
    out.append(":");
    push_padded(&mut out, (time / 60_000) % 60, 2);
    out.append(":");
    push_padded(&mut out, (time / 1000) % 60, 2);
    out.append(".");
    push_padded(&mut out, time % 1000, 3);
    assert(out@ =~= clock_string(time as nat));
    out
}

/// Writes a date and time as `year-MM-DD--hh-mm-ss`, a name that sorts by time
/// within a year.
pub fn file_date_string(d: &LocalDateTime) -> (r: String)
    ensures
        r@ == date_string(*d),
{
    let mut out = String::new();
    proof {
        reveal_strlit("-");
        reveal_strlit("--");
    }
    if d.year < 0 {
        out.append("-");
        push_padded(&mut out, (-(d.year as i64)) as u128, 0);
    } else {
        push_padded(&mut out, d.year as u128, 0);
    }
    out.append("-");
    push_padded(&mut out, d.month as u128, 2);
    out.append("-");
    push_padded(&mut out, d.day as u128, 2);
    out.append("--");
    push_padded(&mut out, d.hour as u128, 2);
    out.append("-");
    push_padded(&mut out, d.minute as u128, 2);
    out.append("-");
    push_padded(&mut out, d.second as u128, 2);
    assert(out@ =~= date_string(*d));
    out
}

/// Relies on chrono's `Local::now` and its `Datelike` / `Timelike` getters: the
/// local date and time now, with month 1 to 12, day 1 to 31, hour 0 to 23,
/// minute and second 0 to 59. It panics where the system clock is set before
/// the Unix epoch or past the dates that chrono can represent.
#[verifier::external_body]
fn local_now() -> (r: LocalDateTime)
    ensures
        1 <= r.month <= 12,
        1 <= r.day <= 31,
        r.hour <= 23,
        r.minute <= 59,
        r.second <= 59,
{
    let now = chrono::offset::Local::now();
    LocalDateTime {
        year: now.year(),
        month: now.month(),
        day: now.day(),
        hour: now.hour(),
        minute: now.minute(),
        second: now.second(),
    }
}

/// The local date and time now, written as by `file_date_string`.
pub fn get_file_date_string() -> (r: String)
    ensures
        exists|d: LocalDateTime|
            r@ == date_string(d) && 1 <= d.month <= 12 && 1 <= d.day <= 31 && d.hour <= 23 && d.minute
                <= 59 && d.second <= 59,
{
    let now = local_now();
    file_date_string(&now)
}

#[verifier::external_type_specification]
#[verifier::external_body]
pub struct ExSystemTime(std::time::SystemTime);

#[verifier::external_type_specification]
#[verifier::external_body]
pub struct ExSystemTimeError(std::time::SystemTimeError);

/// Relies on std's `SystemTime::now`: the system clock's current reading,
/// about which nothing can be promised.
pub assume_specification[ std::time::SystemTime::now ]() -> std::time::SystemTime;

/// Relies on std's `SystemTime::duration_since`: the time elapsed since
/// `earlier`, or an error when `earlier` is later.
pub assume_specification[ std::time::SystemTime::duration_since ](
    t: &std::time::SystemTime,
    earlier: std::time::SystemTime,
) -> Result<core::time::Duration, std::time::SystemTimeError>;

/// Relies on std's `UNIX_EPOCH`: the instant that system clock readings are
/// measured from.
#[verifier::external_body]
fn unix_epoch() -> std::time::SystemTime {
    std::time::UNIX_EPOCH
}

/// Relies on std's `Duration::as_millis`: the whole milliseconds of a span.
pub assume_specification[ core::time::Duration::as_millis ](d: &core::time::Duration) -> u128;

/// The current wall-clock instant in ms since the Unix epoch; 0 when the
/// clock is set before the epoch.
pub fn get_current_time() -> (r: u128) {
    match std::time::SystemTime::now().duration_since(unix_epoch()) {
        Ok(elapsed) => elapsed.as_millis(),
        Err(_) => 0,
    }
}

} // verus!
