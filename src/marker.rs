use vstd::prelude::*;
use vstd::string::StrSliceExecFns;

verus! {

pub open spec fn is_digit(c: char) -> bool {
    '0' <= c && c <= '9'
}

pub open spec fn digit_of(c: char) -> int {
    (c as u32) as int - ('0' as u32) as int
}

/// The length of the run of ASCII digits that begins at `i`.
pub open spec fn digit_run(s: Seq<char>, i: int) -> nat
    decreases s.len() - i,
{
    if 0 <= i < s.len() && is_digit(s[i]) {
        1 + digit_run(s, i + 1)
    } else {
        0
    }
}

/// The number that a string of decimal digits denotes.
pub open spec fn digits_value(d: Seq<char>) -> int
    decreases d.len(),
{
    if d.len() == 0 {
        0
    } else {
        digits_value(d.drop_last()) * 10 + digit_of(d.last())
    }
}

/// `start: ` begins at `p`.
pub open spec fn tag_at(s: Seq<char>, p: int) -> bool {
    &&& 0 <= p
    &&& p + 7 <= s.len()
    &&& s[p] == 's'
    &&& s[p + 1] == 't'
    &&& s[p + 2] == 'a'
    &&& s[p + 3] == 'r'
    &&& s[p + 4] == 't'
    &&& s[p + 5] == ':'
    &&& s[p + 6] == ' '
}

/// A marker `start: <digits>.<digits>` begins at `p`.
pub open spec fn marker_at(s: Seq<char>, p: int) -> bool {
    let a = p + 7;
    let n1 = digit_run(s, a);
    &&& tag_at(s, p)
    &&& n1 >= 1
    &&& a + n1 < s.len()
    &&& s[a + n1] == '.'
    &&& digit_run(s, a + n1 + 1) >= 1
}

/// The leftmost position, from `p` on, at which a marker begins.
pub open spec fn first_marker_from(s: Seq<char>, p: int) -> Option<int>
    decreases s.len() - p,
{
    if p < 0 || p >= s.len() {
        None
    } else if marker_at(s, p) {
        Some(p)
    } else {
        first_marker_from(s, p + 1)
    }
}

/// The instant (ms) that the marker at `p` reports: whole seconds times a
/// thousand, plus the fractional digits (microseconds) over a thousand; `None`
/// when a number does not fit in 128 bits.
pub open spec fn marker_ms(s: Seq<char>, p: int) -> Option<u128> {
    let a = p + 7;
    let n1 = digit_run(s, a);
    let b = a + n1 + 1;
    let n2 = digit_run(s, b);
    let seconds = digits_value(s.subrange(a, a + n1));
    let fraction = digits_value(s.subrange(b, b + n2));
    if seconds <= u128::MAX && fraction <= u128::MAX && seconds * 1000 + fraction / 1000 <= u128::MAX {
        Some((seconds * 1000 + fraction / 1000) as u128)
    } else {
        None
    }
}

/// What a diagnostic line reports as its stream's start instant: the value of
/// its leftmost marker.
pub open spec fn start_marker_value(s: Seq<char>) -> Option<u128> {
    match first_marker_from(s, 0) {
        Some(p) => marker_ms(s, p),
        None => None,
    }
}

pub(crate) proof fn lemma_digits_value_nonneg(d: Seq<char>)
    requires
        forall|i: int| 0 <= i < d.len() ==> is_digit(#[trigger] d[i]),
    ensures
        digits_value(d) >= 0,
    decreases d.len(),
{
    if d.len() > 0 {
        lemma_digits_value_nonneg(d.drop_last());
    }
}

pub(crate) proof fn lemma_digits_value_prefix(d: Seq<char>, m: int)
    requires
        0 <= m <= d.len(),
        forall|i: int| 0 <= i < d.len() ==> is_digit(#[trigger] d[i]),
    ensures
        digits_value(d.take(m)) <= digits_value(d),
    decreases d.len(),
{
    if m < d.len() {
        assert(d.drop_last().take(m) =~= d.take(m));
        lemma_digits_value_prefix(d.drop_last(), m);
        lemma_digits_value_nonneg(d.drop_last());
    } else {
        assert(d.take(m) =~= d);
    }
}

pub(crate) fn chars_of(line: &str) -> (r: Vec<char>)
    ensures
        r@ == line@,
{
    let n = line.unicode_len();
    let mut out: Vec<char> = Vec::new();
    let mut i: usize = 0;
    while i < n
        invariant
            n == line@.len(),
            i <= n,
            out@ == line@.subrange(0, i as int),
        decreases n - i,
    {
        out.push(line.get_char(i));
        i = i + 1;
        assert(out@ =~= line@.subrange(0, i as int));
    }
    assert(out@ =~= line@);
    out
}

fn digit_run_end(cs: &Vec<char>, i: usize) -> (r: usize)
    requires
        i <= cs@.len(),
    ensures
        r == i + digit_run(cs@, i as int),
        r <= cs@.len(),
        forall|k: int| i <= k < r ==> is_digit(#[trigger] cs@[k]),
{
    let mut k: usize = i;
    while k < cs.len() && '0' <= cs[k] && cs[k] <= '9'
        invariant
            i <= k <= cs@.len(),
            digit_run(cs@, i as int) == (k - i) + digit_run(cs@, k as int),
            forall|m: int| i <= m < k ==> is_digit(#[trigger] cs@[m]),
        decreases cs@.len() - k,
    {
        k = k + 1;
    }
    k
}

fn digits_number(cs: &Vec<char>, from: usize, to: usize) -> (r: Option<u128>)
    requires
        from <= to <= cs@.len(),
        forall|k: int| from <= k < to ==> is_digit(#[trigger] cs@[k]),
    ensures
        digits_value(cs@.subrange(from as int, to as int)) >= 0,
        r == (if digits_value(cs@.subrange(from as int, to as int)) <= u128::MAX {
            Some(digits_value(cs@.subrange(from as int, to as int)) as u128)
        } else {
            None
        }),
{
    let ghost d = cs@.subrange(from as int, to as int);
    proof {
        lemma_digits_value_nonneg(d);
    }
    let mut v: u128 = 0;
    let mut k: usize = from;
    while k < to
        invariant
            from <= k <= to <= cs@.len(),
            d == cs@.subrange(from as int, to as int),
            forall|m: int| from <= m < to ==> is_digit(#[trigger] cs@[m]),
            v == digits_value(cs@.subrange(from as int, k as int)),
        decreases to - k,
    {
        let ghost pre = cs@.subrange(from as int, k as int);
        let ghost next = cs@.subrange(from as int, k as int + 1);
        assert(next.drop_last() =~= pre);
        assert(next.last() == cs@[k as int]);
        assert(d.take(k - from + 1) =~= next);
        let digit = (cs[k] as u32 - '0' as u32) as u128;
        match v.checked_mul(10) {
            Some(t) => match t.checked_add(digit) {
                Some(w) => {
                    v = w;
                },
                None => {
                    proof {
                        lemma_digits_value_prefix(d, k - from + 1);
                    }
                    return None;
                },
            },
            None => {
                proof {
                    lemma_digits_value_prefix(d, k - from + 1);
                    lemma_digits_value_nonneg(pre);
                }
                return None;
            },
        }
        k = k + 1;
    }
    Some(v)
}

/// Reads the start instant (ms since the Unix epoch) that a capture process
/// reports on a diagnostic line, in the form `start: <seconds>.<microseconds>`;
/// the leftmost such marker counts. `None` when the line holds no marker, or
/// when its numbers do not fit in 128 bits.
pub fn parse_start_marker(line: &str) -> (r: Option<u128>)
    ensures
        r == start_marker_value(line@),
{
    let cs = chars_of(line);
    let ghost s = cs@;
    let n = cs.len();
    let mut p: usize = 0;
    while p < n
        invariant
            s == cs@,
            s == line@,
            n == s.len(),
            p <= n,
            first_marker_from(s, 0) == first_marker_from(s, p as int),
        decreases n - p,
    {
        if n - p >= 7 && cs[p] == 's' && cs[p + 1] == 't' && cs[p + 2] == 'a' && cs[p + 3] == 'r'
            && cs[p + 4] == 't' && cs[p + 5] == ':' && cs[p + 6] == ' ' {
            let a = p + 7;
            let b = digit_run_end(&cs, a);
            if b > a && b < n && cs[b] == '.' {
                let c = digit_run_end(&cs, b + 1);
                if c > b + 1 {
                    assert(marker_at(s, p as int));
                    assert(first_marker_from(s, p as int) == Some(p as int));
                    let seconds = digits_number(&cs, a, b);
                    let fraction = digits_number(&cs, b + 1, c);
                    match (seconds, fraction) {
                        (Some(sec), Some(frac)) => {
                            match sec.checked_mul(1000) {
                                Some(ms) => match ms.checked_add(frac / 1000) {
                                    Some(total) => {
                                        return Some(total);
                                    },
                                    None => {
                                        return None;
                                    },
                                },
                                None => {
                                    return None;
                                },
                            }
                        },
                        _ => {
                            return None;
                        },
                    }
                }
            }
        }
        assert(!marker_at(s, p as int));
        p = p + 1;
    }
    None
}

/// The start instant known after one more diagnostic line: a marker on the
/// line replaces what was known before.
pub fn latest_start_marker(previous: Option<u128>, line: &str) -> (r: Option<u128>)
    ensures
        r == (match start_marker_value(line@) {
            Some(v) => Some(v),
            None => previous,
        }),
{
    match parse_start_marker(line) {
        Some(v) => Some(v),
        None => previous,
    }
}

} // verus!
