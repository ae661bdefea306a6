//! Tokens of a sentence body: delimiter search, decimal numbers and
//! unsigned integers.
use vstd::prelude::*;

verus! {

pub const ZERO: u8 = 48;
pub const NINE: u8 = 57;
pub const MINUS: u8 = 45;
pub const DOT: u8 = 46;
pub const COMMA: u8 = 44;
pub const STAR: u8 = 42;
pub const DOLLAR: u8 = 36;

pub open spec fn is_digit(c: u8) -> bool {
    ZERO <= c <= NINE
}

pub open spec fn all_digits(s: Seq<u8>) -> bool {
    forall|i: int| 0 <= i < s.len() ==> is_digit(#[trigger] s[i])
}

/// The value of a string of decimal digits.
pub open spec fn digits_value(s: Seq<u8>) -> nat
    decreases s.len(),
{
    if s.len() == 0 {
        0
    } else {
        digits_value(s.drop_last()) * 10 + (s.last() - ZERO) as nat
    }
}

/// The first index at or after `pos` that holds `d`, or the length of `s`.
pub open spec fn delim_from(s: Seq<u8>, pos: int, d: u8) -> int
    decreases s.len() - pos,
{
    if pos < 0 || pos >= s.len() {
        s.len() as int
    } else if s[pos] == d {
        pos
    } else {
        delim_from(s, pos + 1, d)
    }
}

/// A decimal number as the wire writes it: an optional `-`, one or more
/// digits, and optionally a `.` followed by one or more digits.
pub open spec fn is_decimal(t: Seq<u8>) -> bool {
    let body = if t.len() > 0 && t[0] == MINUS { t.drop_first() } else { t };
    let dot = delim_from(body, 0, DOT);
    &&& dot > 0
    &&& all_digits(body.subrange(0, dot))
    &&& (dot < body.len() ==> dot + 1 < body.len() && all_digits(body.subrange(dot + 1, body.len() as int)))
}

/// An unsigned 8-bit integer written in decimal digits.
pub open spec fn u8_token(t: Seq<u8>) -> Option<u8> {
    if t.len() > 0 && all_digits(t) && digits_value(t) <= 255 {
        Some(digits_value(t) as u8)
    } else {
        None
    }
}

pub proof fn lemma_delim_bounds(s: Seq<u8>, pos: int, d: u8)
    requires
        0 <= pos <= s.len(),
    ensures
        pos <= delim_from(s, pos, d) <= s.len(),
        delim_from(s, pos, d) < s.len() ==> s[delim_from(s, pos, d)] == d,
        forall|k: int| pos <= k < delim_from(s, pos, d) ==> s[k] != d,
    decreases s.len() - pos,
{
    if pos < s.len() && s[pos] != d {
        lemma_delim_bounds(s, pos + 1, d);
    }
}

/// Index of the first `d` at or after `pos` in `b`, or `b.len()`.
pub fn find_byte(b: &[u8], pos: usize, d: u8) -> (r: usize)
    requires
        pos <= b@.len(),
    ensures
        r == delim_from(b@, pos as int, d),
        pos <= r <= b@.len(),
{
    let mut i = pos;
    while i < b.len()
        invariant
            pos <= i <= b@.len(),
            delim_from(b@, pos as int, d) == delim_from(b@, i as int, d),
        decreases b@.len() - i,
    {
        if b[i] == d {
            return i;
        }
        i = i + 1;
    }
    i
}

/// Whether `b[start..end]` is all decimal digits.
pub fn digits_between(b: &[u8], start: usize, end: usize) -> (r: bool)
    requires
        start <= end <= b@.len(),
    ensures
        r == all_digits(b@.subrange(start as int, end as int)),
{
    let mut i = start;
    while i < end
        invariant
            start <= i <= end <= b@.len(),
            forall|k: int| start <= k < i ==> is_digit(#[trigger] b@[k]),
        decreases end - i,
    {
        if b[i] < ZERO || b[i] > NINE {
            assert(b@.subrange(start as int, end as int)[i - start] == b@[i as int]);
            return false;
        }
        i = i + 1;
    }
    assert forall|k: int| 0 <= k < end - start implies is_digit(
        #[trigger] b@.subrange(start as int, end as int)[k],
    ) by {
        assert(b@.subrange(start as int, end as int)[k] == b@[start + k]);
    }
    true
}

/// Whether `b[start..end]` is a decimal number.
pub fn check_decimal(b: &[u8], start: usize, end: usize) -> (r: bool)
    requires
        start <= end <= b@.len(),
    ensures
        r == is_decimal(b@.subrange(start as int, end as int)),
{
    let ghost t = b@.subrange(start as int, end as int);
    let s = if start < end && b[start] == MINUS { start + 1 } else { start };
    let ghost body = b@.subrange(s as int, end as int);
    assert(body =~= (if t.len() > 0 && t[0] == MINUS { t.drop_first() } else { t }));
    let dot = find_byte(b, s, DOT);
    let dot = if dot > end { end } else { dot };
    proof {
        lemma_delim_bounds(b@, s as int, DOT);
        lemma_delim_bounds(body, 0, DOT);
        lemma_first_in_window(b@, s as int, end as int, DOT);
    }
    assert(dot - s == delim_from(body, 0, DOT));
    assert(b@.subrange(s as int, dot as int) =~= body.subrange(0, dot - s));
    if dot == s || !digits_between(b, s, dot) {
        return false;
    }
    if dot == end {
        return true;
    }
    assert(b@.subrange(dot + 1, end as int) =~= body.subrange(dot - s + 1, body.len() as int));
    dot + 1 < end && digits_between(b, dot + 1, end)
}

/// The first `d` in a window of `s` is found by searching `s` and capping
/// at the window's end.
proof fn lemma_first_in_window(s: Seq<u8>, start: int, end: int, d: u8)
    requires
        0 <= start <= end <= s.len(),
    ensures
        ({
            let w = s.subrange(start, end);
            let f = delim_from(s, start, d);
            delim_from(w, 0, d) == (if f > end { end } else { f }) - start
        }),
{
    let w = s.subrange(start, end);
    lemma_delim_bounds(s, start, d);
    lemma_delim_bounds(w, 0, d);
    let f = delim_from(s, start, d);
    let g = delim_from(w, 0, d);
    if g < w.len() {
        assert(w[g] == s[start + g]);
        if f < start + g {
            assert(w[f - start] == s[f]);
        }
    } else {
        assert forall|k: int| start <= k < end implies s[k] != d by {
            assert(w[k - start] == s[k]);
        }
    }
}

/// The search stops at the first `d`, however far it is.
pub proof fn lemma_delim_at(s: Seq<u8>, pos: int, d: u8, j: int)
    requires
        0 <= pos <= j <= s.len(),
        j < s.len() ==> s[j] == d,
        forall|k: int| pos <= k < j ==> s[k] != d,
    ensures
        delim_from(s, pos, d) == j,
    decreases j - pos,
{
    if pos < j {
        lemma_delim_at(s, pos + 1, d, j);
    }
}

/// Tokens joined by commas.
pub open spec fn join(ts: Seq<Seq<u8>>) -> Seq<u8>
    decreases ts.len(),
{
    if ts.len() == 0 {
        Seq::empty()
    } else if ts.len() == 1 {
        ts[0]
    } else {
        join(ts.drop_last()) + seq![COMMA] + ts.last()
    }
}

/// Where token `k` starts in `join(ts)`.
pub open spec fn offset(ts: Seq<Seq<u8>>, k: int) -> int
    decreases k,
{
    if k <= 0 {
        0
    } else {
        offset(ts, k - 1) + ts[k - 1].len() + 1
    }
}

proof fn lemma_offset_prefix(ts: Seq<Seq<u8>>, us: Seq<Seq<u8>>, k: int)
    requires
        0 <= k <= us.len() <= ts.len(),
        forall|j: int| 0 <= j < us.len() ==> us[j] == ts[j],
    ensures
        offset(ts, k) == offset(us, k),
    decreases k,
{
    if k > 0 {
        lemma_offset_prefix(ts, us, k - 1);
    }
}

/// Token `k` stands at `offset(ts, k)` in `join(ts)`, followed by a comma
/// unless it is the last one.
pub proof fn lemma_join(ts: Seq<Seq<u8>>, k: int)
    requires
        0 <= k < ts.len(),
    ensures
        offset(ts, k) + ts[k].len() <= join(ts).len(),
        join(ts).subrange(offset(ts, k), offset(ts, k) + ts[k].len()) == ts[k],
        k == ts.len() - 1 ==> offset(ts, k) + ts[k].len() == join(ts).len(),
        k < ts.len() - 1 ==> offset(ts, k) + ts[k].len() < join(ts).len(),
        k < ts.len() - 1 ==> join(ts)[offset(ts, k) + ts[k].len()] == COMMA,
    decreases ts.len(),
{
    lemma_offset_nonneg(ts, k);
    if ts.len() == 1 {
        assert(join(ts).subrange(0, ts[0].len() as int) =~= ts[0]);
    } else {
        let init = ts.drop_last();
        let j = join(ts);
        let ji = join(init);
        assert(j == ji + seq![COMMA] + ts.last());
        if k < ts.len() - 1 {
            assert(init[k] == ts[k]);
            lemma_join(init, k);
            lemma_offset_prefix(ts, init, k);
            let o = offset(ts, k);
            if k < init.len() - 1 {
                assert(ji[o + ts[k].len()] == COMMA);
                assert(j[o + ts[k].len()] == ji[o + ts[k].len()]);
            } else {
                assert(o + ts[k].len() == ji.len());
            }
            assert(j.subrange(o, o + ts[k].len()) =~= ji.subrange(o, o + ts[k].len()));
        } else {
            assert(init[k - 1] == ts[k - 1]);
            lemma_join(init, k - 1);
            lemma_offset_prefix(ts, init, k - 1);
            assert(j.subrange(ji.len() + 1int, j.len() as int) =~= ts.last());
        }
    }
}

/// In `join(ts)` followed by `end`, the comma search from the start of a
/// token without commas stops right after it.
pub proof fn lemma_token(ts: Seq<Seq<u8>>, end: u8, k: int)
    requires
        0 <= k < ts.len(),
        end != COMMA,
        forall|i: int| 0 <= i < ts[k].len() ==> ts[k][i] != COMMA,
    ensures
        ({
            let s = join(ts) + seq![end];
            let o = offset(ts, k);
            let e = o + ts[k].len();
            &&& 0 <= o <= e < s.len()
            &&& s.subrange(o, e) == ts[k]
            &&& s[e] == (if k == ts.len() - 1 { end } else { COMMA })
            &&& (k == ts.len() - 1 ==> e + 1 == s.len())
            &&& (k < ts.len() - 1 ==> delim_from(s, o, COMMA) == e)
        }),
{
    let s = join(ts) + seq![end];
    let o = offset(ts, k);
    let e = o + ts[k].len();
    lemma_join(ts, k);
    assert(0 <= o) by {
        lemma_offset_nonneg(ts, k);
    }
    assert(s.subrange(o, e) =~= join(ts).subrange(o, e));
    assert forall|i: int| o <= i < e implies s[i] != COMMA by {
        assert(s[i] == join(ts).subrange(o, e)[i - o]);
    }
    if k < ts.len() - 1 {
        assert(s[e] == join(ts)[e]);
    } else {
        assert(s[e] == end);
    }
    if k < ts.len() - 1 {
        lemma_delim_at(s, o, COMMA, e);
    }
}

pub proof fn lemma_offset_nonneg(ts: Seq<Seq<u8>>, k: int)
    ensures
        offset(ts, k) >= 0,
    decreases k,
{
    if k > 0 {
        lemma_offset_nonneg(ts, k - 1);
    }
}

/// A decimal holds only digits, `-` and `.`.
pub proof fn lemma_decimal_chars(t: Seq<u8>)
    requires
        is_decimal(t),
    ensures
        forall|i: int| 0 <= i < t.len() ==> #[trigger] t[i] != COMMA && t[i] != STAR,
{
    let body = if t.len() > 0 && t[0] == MINUS { t.drop_first() } else { t };
    let dot = delim_from(body, 0, DOT);
    lemma_delim_bounds(body, 0, DOT);
    let off: int = if t.len() > 0 && t[0] == MINUS { 1 } else { 0 };
    assert forall|i: int| 0 <= i < t.len() implies #[trigger] t[i] != COMMA && t[i] != STAR by {
        if i >= off {
            let j = i - off;
            assert(body[j] == t[i]);
            if j < dot {
                assert(body.subrange(0, dot)[j] == body[j]);
            } else if j > dot {
                assert(body.subrange(dot + 1, body.len() as int)[j - dot - 1] == body[j]);
            }
        }
    }
}

/// No byte of `t` is `c`.
pub open spec fn no_byte(t: Seq<u8>, c: u8) -> bool {
    forall|i: int| 0 <= i < t.len() ==> t[i] != c
}

/// Joining tokens that lack a byte other than the comma keeps it out.
pub proof fn lemma_join_no_byte(ts: Seq<Seq<u8>>, c: u8)
    requires
        c != COMMA,
        forall|k: int| 0 <= k < ts.len() ==> no_byte(#[trigger] ts[k], c),
    ensures
        no_byte(join(ts), c),
    decreases ts.len(),
{
    if ts.len() > 1 {
        let init = ts.drop_last();
        assert forall|k: int| 0 <= k < init.len() implies no_byte(#[trigger] init[k], c) by {
            assert(init[k] == ts[k]);
        }
        lemma_join_no_byte(init, c);
        let j = join(ts);
        let ji = join(init);
        assert(no_byte(ts.last(), c));
        assert forall|i: int| 0 <= i < j.len() implies j[i] != c by {
            if i > ji.len() {
                assert(j[i] == ts.last()[i - ji.len() - 1]);
            }
        }
    }
}

} // verus!
