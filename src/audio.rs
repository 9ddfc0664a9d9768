use vstd::prelude::*;
use vstd::string::{StrSliceExecFns, StringExecFns};

use crate::marker::{
    chars_of, digits_value, is_digit, lemma_digits_value_nonneg, lemma_digits_value_prefix,
};

verus! {

/// An audio input that capture can record from.
pub struct AudioSource {
    pub description: String,
    pub id: usize,
}

/// A whitespace character, as `char::is_whitespace` defines it (Unicode White_Space).
pub open spec fn is_space(c: char) -> bool {
    ('\u{9}' <= c && c <= '\u{d}') || c == ' ' || c == '\u{85}' || c == '\u{a0}' || c == '\u{1680}'
        || ('\u{2000}' <= c && c <= '\u{200a}') || c == '\u{2028}' || c == '\u{2029}' || c == '\u{202f}'
        || c == '\u{205f}' || c == '\u{3000}'
}

/// The pieces of `s` between line feeds (a trailing line feed leaves an empty last piece).
pub open spec fn split_lines(s: Seq<char>) -> Seq<Seq<char>>
    decreases s.len(),
{
    if s.len() == 0 {
        seq![Seq::empty()]
    } else {
        let p = split_lines(s.drop_last());
        if s.last() == '\n' {
            p.push(Seq::empty())
        } else {
            p.update(p.len() - 1, p.last().push(s.last()))
        }
    }
}

/// `pat` occurs in `t`.
pub open spec fn occurs(t: Seq<char>, pat: Seq<char>) -> bool {
    exists|i: int| 0 <= i && i + pat.len() <= t.len() && #[trigger] t.subrange(i, i + pat.len()) == pat
}

/// `t` without its leading and trailing whitespace.
pub open spec fn trim_spaces(t: Seq<char>) -> Seq<char>
    decreases t.len(),
{
    if t.len() > 0 && is_space(t[0]) {
        trim_spaces(t.drop_first())
    } else if t.len() > 0 && is_space(t.last()) {
        trim_spaces(t.drop_last())
    } else {
        t
    }
}

/// `t` with every occurrence of `pat` taken out, matched from the left without overlap.
pub open spec fn remove_all(t: Seq<char>, pat: Seq<char>) -> Seq<char>
    decreases t.len(),
{
    if pat.len() == 0 || t.len() < pat.len() {
        t
    } else if t.subrange(0, pat.len() as int) == pat {
        remove_all(t.skip(pat.len() as int), pat)
    } else {
        seq![t[0]] + remove_all(t.drop_first(), pat)
    }
}

pub open spec fn description_tag() -> Seq<char> {
    "device.description"@
}

pub open spec fn description_prefix() -> Seq<char> {
    "device.description = "@
}

pub open spec fn id_tag() -> Seq<char> {
    "Source #"@
}

/// The descriptions that lines `ls` give, in order: each line that mentions
/// the description tag, trimmed, without the `device.description = ` prefix
/// and without quotes; empty results are left out.
pub open spec fn source_descriptions(ls: Seq<Seq<char>>) -> Seq<Seq<char>>
    decreases ls.len(),
{
    if ls.len() == 0 {
        Seq::empty()
    } else {
        let prev = source_descriptions(ls.drop_last());
        let d = remove_all(remove_all(trim_spaces(ls.last()), description_prefix()), "\""@);
        if occurs(ls.last(), description_tag()) && d.len() > 0 {
            prev.push(d)
        } else {
            prev
        }
    }
}

/// The source numbers, as text, that lines `ls` give, in order: each line that
/// mentions `Source #`, trimmed and without it; empty results are left out.
pub open spec fn source_id_texts(ls: Seq<Seq<char>>) -> Seq<Seq<char>>
    decreases ls.len(),
{
    if ls.len() == 0 {
        Seq::empty()
    } else {
        let prev = source_id_texts(ls.drop_last());
        let d = remove_all(trim_spaces(ls.last()), id_tag());
        if occurs(ls.last(), id_tag()) && d.len() > 0 {
            prev.push(d)
        } else {
            prev
        }
    }
}

/// `t` without the `+` sign that it may begin with.
pub open spec fn unsigned_part(t: Seq<char>) -> Seq<char> {
    if t.len() > 0 && t[0] == '+' {
        t.drop_first()
    } else {
        t
    }
}

/// `t` reads as an unsigned integer: an optional `+`, then one or more digits.
pub open spec fn is_number_text(t: Seq<char>) -> bool {
    &&& unsigned_part(t).len() > 0
    &&& forall|i: int| 0 <= i < unsigned_part(t).len() ==> is_digit(#[trigger] unsigned_part(t)[i])
}

pub open spec fn number_value(t: Seq<char>) -> int {
    digits_value(unsigned_part(t))
}

/// `t` is the text of a number that fits in `usize`.
pub open spec fn is_usize_text(t: Seq<char>) -> bool {
    is_number_text(t) && number_value(t) <= usize::MAX
}

/// The audio sources that a listing of sources describes: the descriptions
/// paired, in order, with the source numbers. There are none when a number does
/// not read as a `usize`, or when there are fewer numbers than descriptions.
pub open spec fn listing_parses(listing: Seq<char>) -> bool {
    let ds = source_descriptions(split_lines(listing));
    let ids = source_id_texts(split_lines(listing));
    &&& forall|i: int| 0 <= i < ids.len() ==> is_usize_text(#[trigger] ids[i])
    &&& ids.len() >= ds.len()
}

/// The text of each string.
pub open spec fn texts(v: Seq<String>) -> Seq<Seq<char>> {
    v.map_values(|a: String| a@)
}

/// The texts of the pieces of `s` between the bounds in `b`.
pub open spec fn pieces(s: Seq<char>, b: Seq<(usize, usize)>) -> Seq<Seq<char>> {
    Seq::new(b.len(), |k: int| s.subrange(b[k].0 as int, b[k].1 as int))
}

fn line_bounds(cs: &Vec<char>) -> (r: Vec<(usize, usize)>)
    ensures
        pieces(cs@, r@) == split_lines(cs@),
        forall|k: int| 0 <= k < r@.len() ==> (#[trigger] r@[k]).0 <= r@[k].1 <= cs@.len(),
{
    let ghost s = cs@;
    let mut b: Vec<(usize, usize)> = Vec::new();
    let mut start: usize = 0;
    let mut i: usize = 0;
    assert(s.take(0) =~= Seq::<char>::empty());
    assert(pieces(s, b@).push(s.subrange(0, 0)) =~= seq![Seq::<char>::empty()]);
    while i < cs.len()
        invariant
            s == cs@,
            start <= i <= s.len(),
            split_lines(s.take(i as int)) == pieces(s, b@).push(s.subrange(start as int, i as int)),
            forall|k: int| 0 <= k < b@.len() ==> (#[trigger] b@[k]).0 <= b@[k].1 <= i,
        decreases s.len() - i,
    {
        let ghost before = pieces(s, b@);
        assert(s.take(i + 1).drop_last() =~= s.take(i as int));
        assert(s.take(i + 1).last() == s[i as int]);
        if cs[i] == '\n' {
            b.push((start, i));
            start = i + 1;
            assert(pieces(s, b@) =~= before.push(s.subrange(b@.last().0 as int, i as int)));
            assert(s.subrange(start as int, i + 1) =~= Seq::<char>::empty());
        } else {
            assert(s.subrange(start as int, i + 1) =~= s.subrange(start as int, i as int).push(s[i as int]));
        }
        i = i + 1;
        assert(split_lines(s.take(i as int)) =~= pieces(s, b@).push(s.subrange(start as int, i as int)));
    }
    let ghost before = pieces(s, b@);
    b.push((start, i));
    assert(s.take(i as int) =~= s);
    assert(pieces(s, b@) =~= before.push(s.subrange(start as int, i as int)));
    b
}

fn occurs_in(cs: &Vec<char>, lo: usize, hi: usize, pat: &Vec<char>) -> (r: bool)
    requires
        lo <= hi <= cs@.len(),
    ensures
        r == occurs(cs@.subrange(lo as int, hi as int), pat@),
{
    let ghost t = cs@.subrange(lo as int, hi as int);
    let n = pat.len();
    if hi - lo < n {
        assert forall|i: int| 0 <= i && i + n <= t.len() implies #[trigger] t.subrange(i, i + n) != pat@ by {}
        return false;
    }
    let mut i: usize = lo;
    while hi - i >= n
        invariant
            lo <= i,
            i <= hi,
            n == pat@.len(),
            hi <= cs@.len(),
            t == cs@.subrange(lo as int, hi as int),
            forall|k: int| 0 <= k < i - lo && k + n <= t.len() ==> #[trigger] t.subrange(k, k + n) != pat@,
        decreases hi - i,
    {
        let mut m: usize = 0;
        while m < n && cs[i + m] == pat[m]
            invariant
                m <= n,
                i + n <= hi <= cs@.len(),
                n == pat@.len(),
                forall|q: int| 0 <= q < m ==> cs@[i + q] == pat@[q],
            decreases n - m,
        {
            m = m + 1;
        }
        if m == n {
            assert(t.subrange(i - lo, i - lo + n) =~= pat@);
            return true;
        }
        assert(t.subrange(i - lo, i - lo + n)[m as int] != pat@[m as int]);
        i = i + 1;
    }
    assert forall|k: int| 0 <= k && k + n <= t.len() implies #[trigger] t.subrange(k, k + n) != pat@ by {
        assert(k < i - lo);
    }
    false
}

fn is_space_char(c: char) -> (r: bool)
    ensures
        r == is_space(c),
{
    ('\u{9}' <= c && c <= '\u{d}') || c == ' ' || c == '\u{85}' || c == '\u{a0}' || c == '\u{1680}'
        || ('\u{2000}' <= c && c <= '\u{200a}') || c == '\u{2028}' || c == '\u{2029}' || c == '\u{202f}'
        || c == '\u{205f}' || c == '\u{3000}'
}

proof fn lemma_trim_spaces_inner(t: Seq<char>, a: int, b: int)
    requires
        0 <= a <= b <= t.len(),
        forall|k: int| 0 <= k < a ==> is_space(#[trigger] t[k]),
        forall|k: int| b <= k < t.len() ==> is_space(#[trigger] t[k]),
        a < b ==> !is_space(t[a]) && !is_space(t[b - 1]),
    ensures
        trim_spaces(t) == t.subrange(a, b),
    decreases t.len(),
{
    if t.len() > 0 && is_space(t[0]) {
        if a == 0 {
            // then a == b, everything is space
            assert(b == 0);
        }
        if a > 0 {
            lemma_trim_spaces_inner(t.drop_first(), a - 1, b - 1);
            assert(t.drop_first().subrange(a - 1, b - 1) =~= t.subrange(a, b));
        } else {
            lemma_trim_spaces_inner(t.drop_first(), 0, 0);
            assert(t.drop_first().subrange(0, 0) =~= t.subrange(a, b));
        }
    } else if t.len() > 0 && is_space(t.last()) {
        if b < t.len() {
            lemma_trim_spaces_inner(t.drop_last(), a, b);
            assert(t.drop_last().subrange(a, b) =~= t.subrange(a, b));
        } else {
            assert(a == b);
            assert(a == t.len());
            assert(t.len() > 0 ==> a > 0);
            lemma_trim_spaces_inner(t.drop_last(), a - 1, a - 1);
            assert(t.drop_last().subrange(a - 1, a - 1) =~= t.subrange(a, b));
        }
    } else {
        if t.len() > 0 {
            assert(a == 0);
            assert(b == t.len());
        }
        assert(t.subrange(a, b) =~= t);
    }
}

fn trimmed(cs: &Vec<char>, lo: usize, hi: usize) -> (r: (usize, usize))
    requires
        lo <= hi <= cs@.len(),
    ensures
        lo <= r.0 <= r.1 <= hi,
        cs@.subrange(r.0 as int, r.1 as int) == trim_spaces(cs@.subrange(lo as int, hi as int)),
{
    let ghost t = cs@.subrange(lo as int, hi as int);
    let mut a: usize = lo;
    while a < hi && is_space_char(cs[a])
        invariant
            lo <= a <= hi <= cs@.len(),
            forall|k: int| lo <= k < a ==> is_space(#[trigger] cs@[k]),
        decreases hi - a,
    {
        a = a + 1;
    }
    let mut b: usize = hi;
    while b > a && is_space_char(cs[b - 1])
        invariant
            lo <= a <= b <= hi <= cs@.len(),
            forall|k: int| b <= k < hi ==> is_space(#[trigger] cs@[k]),
        decreases b,
    {
        b = b - 1;
    }
    proof {
        if a == b && a < hi {
            // a stopped at a non-space, but then b could not pass it
            assert(!is_space(cs@[a as int]));
        }
        assert forall|k: int| 0 <= k < a - lo implies is_space(#[trigger] t[k]) by {
            assert(t[k] == cs@[lo + k]);
        }
        assert forall|k: int| b - lo <= k < t.len() implies is_space(#[trigger] t[k]) by {
            assert(t[k] == cs@[lo + k]);
        }
        lemma_trim_spaces_inner(t, a - lo, b - lo);
        assert(t.subrange(a - lo, b - lo) =~= cs@.subrange(a as int, b as int));
    }
    (a, b)
}

proof fn lemma_remove_all_step(t: Seq<char>, pat: Seq<char>, i: int)
    requires
        pat.len() > 0,
        0 <= i <= t.len(),
        t.len() - i >= pat.len(),
    ensures
        t.skip(i).subrange(0, pat.len() as int) == t.subrange(i, i + pat.len()),
        t.skip(i).skip(pat.len() as int) == t.skip(i + pat.len()),
        t.skip(i).drop_first() == t.skip(i + 1),
{
    assert(t.skip(i).subrange(0, pat.len() as int) =~= t.subrange(i, i + pat.len()));
    assert(t.skip(i).skip(pat.len() as int) =~= t.skip(i + pat.len()));
    assert(t.skip(i).drop_first() =~= t.skip(i + 1));
}

/// Appends the text of `s` between `lo` and `hi`, with every occurrence of
/// `pat` taken out.
fn push_removed(out: &mut String, s: &str, cs: &Vec<char>, lo: usize, hi: usize, pat: &Vec<char>)
    requires
        cs@ == s@,
        lo <= hi <= cs@.len(),
        pat@.len() > 0,
    ensures
        final(out)@ == old(out)@ + remove_all(cs@.subrange(lo as int, hi as int), pat@),
{
    let ghost t = cs@.subrange(lo as int, hi as int);
    let n = pat.len();
    let mut i: usize = lo;
    let mut kept: usize = lo;
    // out holds what precedes `kept`; cs[kept..i] is kept and not yet appended
    assert(t.skip(0) =~= t);
    assert(cs@.subrange(lo as int, lo as int) =~= Seq::<char>::empty());
    assert(out@ + Seq::<char>::empty() =~= out@);
    while i < hi && hi - i >= n
        invariant
            cs@ == s@,
            lo <= kept <= i <= hi <= cs@.len(),
            n == pat@.len() > 0,
            t == cs@.subrange(lo as int, hi as int),
            old(out)@ + remove_all(t, pat@) == out@ + cs@.subrange(kept as int, i as int) + remove_all(
                t.skip(i - lo),
                pat@,
            ),
        decreases hi - i,
    {
        let ghost rest = t.skip(i - lo);
        proof {
            lemma_remove_all_step(t, pat@, i - lo);
            assert(t.subrange(i - lo, i - lo + n) =~= cs@.subrange(i as int, i + n));
        }
        let mut m: usize = 0;
        while m < n && cs[i + m] == pat[m]
            invariant
                m <= n,
                i + n <= hi <= cs@.len(),
                n == pat@.len(),
                forall|q: int| 0 <= q < m ==> cs@[i + q] == pat@[q],
            decreases n - m,
        {
            m = m + 1;
        }
        if m == n {
            assert(cs@.subrange(i as int, i + n) =~= pat@);
            out.append(s.substring_char(kept, i));
            i = i + n;
            kept = i;
            assert(cs@.subrange(kept as int, i as int) =~= Seq::<char>::empty());
        } else {
            assert(cs@.subrange(i as int, i + n)[m as int] != pat@[m as int]);
            assert(rest[0] == cs@[i as int]);
            assert(cs@.subrange(kept as int, i + 1) =~= cs@.subrange(kept as int, i as int).push(cs@[i as int]));
            i = i + 1;
            assert(out@ + cs@.subrange(kept as int, i as int) + remove_all(t.skip(i - lo), pat@)
                =~= out@ + cs@.subrange(kept as int, i - 1) + (seq![rest[0]] + remove_all(t.skip(i - lo), pat@)));
        }
    }
    assert(remove_all(t.skip(i - lo), pat@) == t.skip(i - lo));
    assert(t.skip(i - lo) =~= cs@.subrange(i as int, hi as int));
    out.append(s.substring_char(kept, hi));
    assert(cs@.subrange(kept as int, i as int) + cs@.subrange(i as int, hi as int) =~= cs@.subrange(kept as int, hi as int));
}

/// Reads an unsigned integer (an optional `+`, then digits) that fits in `usize`.
fn parse_usize(cs: &Vec<char>) -> (r: Option<usize>)
    ensures
        r is Some <==> is_usize_text(cs@),
        r is Some ==> r->Some_0 == number_value(cs@),
{
    let ghost t = cs@;
    let from: usize = if cs.len() > 0 && cs[0] == '+' {
        1
    } else {
        0
    };
    let ghost d = t.subrange(from as int, t.len() as int);
    assert(from == 1 ==> d =~= t.drop_first());
    assert(from == 0 ==> d =~= t);
    if from >= cs.len() {
        assert(d.len() == 0);
        return None;
    }
    let mut v: usize = 0;
    let mut k: usize = from;
    while k < cs.len()
        invariant
            from <= k <= cs@.len(),
            t == cs@,
            from == 1 <==> (t.len() > 0 && t[0] == '+'),
            from == 0 || from == 1,
            d == t.subrange(from as int, t.len() as int),
            forall|m: int| from <= m < k ==> is_digit(#[trigger] t[m]),
            v == digits_value(t.subrange(from as int, k as int)),
        decreases cs@.len() - k,
    {
        let c = cs[k];
        if !('0' <= c && c <= '9') {
            assert(d[k - from] == t[k as int]);
            if from == 1 {
                assert(t.drop_first()[k - 1] == t[k as int]);
            }
            return None;
        }
        let ghost pre = t.subrange(from as int, k as int);
        let ghost next = t.subrange(from as int, k + 1);
        assert(next.drop_last() =~= pre);
        let digit = (c as u32 - '0' as u32) as usize;
        match v.checked_mul(10) {
            Some(w) => match w.checked_add(digit) {
                Some(x) => {
                    v = x;
                },
                None => {
                    proof {
                        lemma_value_prefix_bound(t, from as int, k + 1);
                    }
                    return None;
                },
            },
            None => {
                proof {
                    lemma_value_prefix_bound(t, from as int, k + 1);
                    lemma_digits_value_nonneg(pre);
                }
                return None;
            },
        }
        k = k + 1;
    }
    assert(t.subrange(from as int, k as int) =~= d);
    Some(v)
}

/// When the digits of `t` from `from` to `k` already exceed `usize`, `t` does
/// not read as a `usize`.
proof fn lemma_value_prefix_bound(t: Seq<char>, from: int, k: int)
    requires
        0 <= from <= k <= t.len(),
        forall|m: int| from <= m < k ==> is_digit(#[trigger] t[m]),
        digits_value(t.subrange(from, k)) > usize::MAX,
        from == 1 <==> (t.len() > 0 && t[0] == '+'),
        from == 0 || from == 1,
    ensures
        !is_usize_text(t),
{
    let d = t.subrange(from, t.len() as int);
    assert(from == 1 ==> d =~= t.drop_first());
    assert(from == 0 ==> d =~= t);
    if is_number_text(t) {
        assert(unsigned_part(t) =~= d);
        assert(d.take(k - from) =~= t.subrange(from, k));
        assert forall|i: int| 0 <= i < d.len() implies is_digit(#[trigger] d[i]) by {
            if from == 1 {
                assert(t.drop_first()[i] == d[i]);
            } else {
                assert(t[i] == d[i]);
            }
        }
        lemma_digits_value_prefix(d, k - from);
    }
}

/// Reads a listing of audio sources (as `pactl list sources` prints it) into
/// the sources it describes: the `device.description` lines give the
/// descriptions and the `Source #` lines the numbers, paired in order. `None`
/// when a number does not read as a `usize` or when there are fewer numbers
/// than descriptions.
pub fn parse_audio_sources(listing: &str) -> (r: Option<Vec<AudioSource>>)
    ensures
        r is Some <==> listing_parses(listing@),
        r is Some ==> {
            let ds = source_descriptions(split_lines(listing@));
            let ids = source_id_texts(split_lines(listing@));
            &&& r->Some_0@.len() == ds.len()
            &&& forall|i: int|
                0 <= i < ds.len() ==> (#[trigger] r->Some_0@[i]).description@ == ds[i] && r->Some_0@[i].id
                    == number_value(ids[i])
        },
{
    let cs = chars_of(listing);
    let ghost s = cs@;
    let bounds = line_bounds(&cs);
    let ghost ls = split_lines(s);
    let desc_tag = chars_of("device.description");
    let desc_prefix = chars_of("device.description = ");
    let quote = chars_of("\"");
    let src_tag = chars_of("Source #");
    let mut descriptions: Vec<String> = Vec::new();
    let mut id_texts: Vec<String> = Vec::new();
    let mut k: usize = 0;
    while k < bounds.len()
        invariant
            s == cs@,
            s == listing@,
            ls == split_lines(s),
            pieces(s, bounds@) == ls,
            forall|q: int| 0 <= q < bounds@.len() ==> (#[trigger] bounds@[q]).0 <= bounds@[q].1 <= s.len(),
            desc_tag@ == description_tag(),
            desc_prefix@ == description_prefix(),
            quote@ == "\""@,
            src_tag@ == id_tag(),
            k <= bounds@.len(),
            texts(descriptions@) == source_descriptions(ls.take(k as int)),
            texts(id_texts@) == source_id_texts(ls.take(k as int)),
        decreases bounds@.len() - k,
    {
        proof {
            reveal_strlit("\"");
            reveal_strlit("device.description = ");
            reveal_strlit("Source #");
        }
        let (lo, hi) = bounds[k];
        let ghost line = s.subrange(lo as int, hi as int);
        assert(line == ls[k as int]);
        assert(ls.take(k + 1).drop_last() =~= ls.take(k as int));
        assert(ls.take(k + 1).last() == line);
        let (a, b) = trimmed(&cs, lo, hi);
        let mut first = String::new();
        push_removed(&mut first, listing, &cs, a, b, &desc_prefix);
        let first_chars = chars_of(first.as_str());
        let mut d = String::new();
        push_removed(&mut d, first.as_str(), &first_chars, 0, first_chars.len(), &quote);
        assert(first_chars@.subrange(0, first_chars@.len() as int) =~= first_chars@);
        if occurs_in(&cs, lo, hi, &desc_tag) && d.unicode_len() > 0 {
            let ghost before = descriptions@;
            descriptions.push(d);
            assert(texts(descriptions@) =~= texts(before).push(descriptions@.last()@));
        }
        let mut t = String::new();
        push_removed(&mut t, listing, &cs, a, b, &src_tag);
        if occurs_in(&cs, lo, hi, &src_tag) && t.unicode_len() > 0 {
            let ghost before = id_texts@;
            id_texts.push(t);
            assert(texts(id_texts@) =~= texts(before).push(id_texts@.last()@));
        }
        k = k + 1;
    }
    assert(ls.take(k as int) =~= ls);
    let ghost ds = source_descriptions(ls);
    let ghost its = source_id_texts(ls);
    let mut ids: Vec<usize> = Vec::new();
    let mut q: usize = 0;
    while q < id_texts.len()
        invariant
            texts(id_texts@) == its,
            its == source_id_texts(split_lines(listing@)),
            q <= id_texts@.len(),
            ids@.len() == q,
            forall|i: int| 0 <= i < q ==> is_usize_text(#[trigger] its[i]),
            forall|i: int| 0 <= i < q ==> #[trigger] ids@[i] == number_value(its[i]),
        decreases id_texts@.len() - q,
    {
        let t_chars = chars_of(id_texts[q].as_str());
        assert(t_chars@ == its[q as int]);
        match parse_usize(&t_chars) {
            Some(v) => {
                ids.push(v);
            },
            None => {
                assert(!is_usize_text(its[q as int]));
                return None;
            },
        }
        q = q + 1;
    }
    assert(texts(descriptions@).len() == descriptions@.len());
    assert(texts(id_texts@).len() == id_texts@.len());
    assert(ds == texts(descriptions@));
    if ids.len() < descriptions.len() {
        return None;
    }
    let mut sources: Vec<AudioSource> = Vec::new();
    let mut descs = descriptions;
    let ghost dviews = texts(descs@);
    // take the descriptions from the back, then put the list in order
    let mut left: usize = descs.len();
    while left > 0
        invariant
            left == descs@.len(),
            dviews.len() <= ids@.len(),
            texts(descs@) == dviews.take(left as int),
            sources@.len() == dviews.len() - left,
            forall|i: int|
                0 <= i < sources@.len() ==> (#[trigger] sources@[i]).description@ == dviews[left + i]
                    && sources@[i].id == ids@[left + i],
        decreases left,
    {
        let ghost before = sources@;
        let ghost old_descs = descs@;
        let d = descs.pop().unwrap();
        left = left - 1;
        assert(texts(old_descs)[left as int] == d@);
        sources.insert(0, AudioSource { description: d, id: ids[left] });
        assert(texts(descs@) =~= dviews.take(left as int));
        assert forall|i: int|
            0 <= i < sources@.len() implies (#[trigger] sources@[i]).description@ == dviews[left + i]
                && sources@[i].id == ids@[left + i] by {
            if i > 0 {
                assert(sources@[i] == before[i - 1]);
            }
        }
    }
    Some(sources)
}

} // verus!
