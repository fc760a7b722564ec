//! Decimal notation for `u64` values: a canonical spec-level form, an
//! executable printer and parser, and the lemmas tying them together.

use vstd::prelude::*;

verus! {

/// Numeric value of a decimal digit character, `-1` for any other character.
pub open spec fn digit_value(c: char) -> int {
    if c == '0' {
        0
    } else if c == '1' {
        1
    } else if c == '2' {
        2
    } else if c == '3' {
        3
    } else if c == '4' {
        4
    } else if c == '5' {
        5
    } else if c == '6' {
        6
    } else if c == '7' {
        7
    } else if c == '8' {
        8
    } else if c == '9' {
        9
    } else {
        -1
    }
}

pub open spec fn is_dec_digit(c: char) -> bool {
    digit_value(c) >= 0
}

/// The digit character for a value in `0 ..= 9`.
pub open spec fn digit_char(d: int) -> char {
    if d == 0 {
        '0'
    } else if d == 1 {
        '1'
    } else if d == 2 {
        '2'
    } else if d == 3 {
        '3'
    } else if d == 4 {
        '4'
    } else if d == 5 {
        '5'
    } else if d == 6 {
        '6'
    } else if d == 7 {
        '7'
    } else if d == 8 {
        '8'
    } else {
        '9'
    }
}

/// Canonical decimal notation of a natural number: no sign, no leading zero
/// (except for the single digit of zero itself).
pub open spec fn spec_dec(n: nat) -> Seq<char>
    decreases n,
{
    if n < 10 {
        seq![digit_char(n as int)]
    } else {
        spec_dec(n / 10).push(digit_char((n % 10) as int))
    }
}

/// Whether every character of `s` is a decimal digit.
pub open spec fn all_digits(s: Seq<char>) -> bool {
    forall|i: int| 0 <= i < s.len() ==> is_dec_digit(#[trigger] s[i])
}

/// Value of a digit string, most significant digit first.
pub open spec fn dec_value(s: Seq<char>) -> int
    decreases s.len(),
{
    if s.len() == 0 {
        0
    } else {
        dec_value(s.drop_last()) * 10 + digit_value(s.last())
    }
}

pub proof fn lemma_spec_dec_digits(n: nat)
    ensures
        spec_dec(n).len() >= 1,
        all_digits(spec_dec(n)),
    decreases n,
{
    if n >= 10 {
        lemma_spec_dec_digits(n / 10);
    }
}

pub proof fn lemma_digit_char_value(d: int)
    requires
        0 <= d < 10,
    ensures
        digit_value(digit_char(d)) == d,
{
}

pub proof fn lemma_spec_dec_value(n: nat)
    ensures
        dec_value(spec_dec(n)) == n,
    decreases n,
{
    if n < 10 {
        lemma_digit_char_value(n as int);
        assert(dec_value(Seq::<char>::empty()) == 0);
        assert(spec_dec(n).drop_last() =~= Seq::<char>::empty());
        assert(spec_dec(n).last() == digit_char(n as int));
    } else {
        lemma_spec_dec_value(n / 10);
        lemma_spec_dec_digits(n / 10);
        lemma_digit_char_value((n % 10) as int);
        assert(spec_dec(n).drop_last() =~= spec_dec(n / 10));
    }
}

pub proof fn lemma_spec_dec_no_leading_zero(n: nat)
    ensures
        spec_dec(n)[0] == '0' ==> n == 0,
    decreases n,
{
    if n >= 10 {
        lemma_spec_dec_no_leading_zero(n / 10);
        lemma_spec_dec_digits(n / 10);
        assert(spec_dec(n)[0] == spec_dec(n / 10)[0]);
    }
}

pub proof fn lemma_dec_value_nonneg(s: Seq<char>)
    requires
        all_digits(s),
    ensures
        dec_value(s) >= 0,
    decreases s.len(),
{
    if s.len() > 0 {
        assert(all_digits(s.drop_last()));
        lemma_dec_value_nonneg(s.drop_last());
    }
}

/// Over a run of digits, the value of a longer prefix is at least the value
/// of a shorter one.
pub proof fn lemma_dec_value_prefix_mono(s: Seq<char>, pos: int, i: int, j: int)
    requires
        0 <= pos <= i <= j <= s.len(),
        forall|k: int| pos <= k < j ==> is_dec_digit(#[trigger] s[k]),
    ensures
        dec_value(s.subrange(pos, i)) <= dec_value(s.subrange(pos, j)),
    decreases j - i,
{
    if i < j {
        lemma_dec_value_prefix_mono(s, pos, i, j - 1);
        let shorter = s.subrange(pos, j - 1);
        let longer = s.subrange(pos, j);
        assert(longer.drop_last() =~= shorter);
        assert(all_digits(shorter));
        lemma_dec_value_nonneg(shorter);
    }
}

/// First position at or after `pos` whose character is not a digit.
pub open spec fn spec_digit_run_end(s: Seq<char>, pos: int) -> int
    decreases s.len() - pos when 0 <= pos <= s.len()
{
    if pos < s.len() && is_dec_digit(s[pos]) {
        spec_digit_run_end(s, pos + 1)
    } else {
        pos
    }
}

pub proof fn lemma_digit_run_end_bounds(s: Seq<char>, pos: int)
    requires
        0 <= pos <= s.len(),
    ensures
        pos <= spec_digit_run_end(s, pos) <= s.len(),
        forall|k: int| pos <= k < spec_digit_run_end(s, pos) ==> is_dec_digit(#[trigger] s[k]),
        spec_digit_run_end(s, pos) < s.len() ==> !is_dec_digit(s[spec_digit_run_end(s, pos)]),
    decreases s.len() - pos,
{
    if pos < s.len() && is_dec_digit(s[pos]) {
        lemma_digit_run_end_bounds(s, pos + 1);
    }
}

/// Parse of an unsigned decimal at `pos`: the digit run starting there must
/// be non-empty, canonical (no leading zero), and fit in a `u64`; the result
/// carries the value and the position just past the run.
pub open spec fn spec_parse_u64(s: Seq<char>, pos: int) -> Option<(u64, int)> {
    let end = spec_digit_run_end(s, pos);
    if end == pos {
        None
    } else if s[pos] == '0' && end > pos + 1 {
        None
    } else if dec_value(s.subrange(pos, end)) > u64::MAX {
        None
    } else {
        Some((dec_value(s.subrange(pos, end)) as u64, end))
    }
}

/// A digit run that is exactly the canonical notation of `n`, followed by a
/// non-digit or the end of the string, parses back to `n`.
pub proof fn lemma_parse_of_spec_dec(s: Seq<char>, pos: int, n: u64)
    requires
        0 <= pos,
        pos + spec_dec(n as nat).len() <= s.len(),
        s.subrange(pos, pos + spec_dec(n as nat).len()) =~= spec_dec(n as nat),
        pos + spec_dec(n as nat).len() < s.len() ==> !is_dec_digit(
            s[pos + spec_dec(n as nat).len()],
        ),
    ensures
        spec_parse_u64(s, pos) == Some((n, pos + spec_dec(n as nat).len())),
{
    let d = spec_dec(n as nat);
    let end = pos + d.len();
    lemma_spec_dec_digits(n as nat);
    assert forall|i: int| pos <= i < end implies is_dec_digit(#[trigger] s[i]) by {
        assert(s[i] == s.subrange(pos, end)[i - pos]);
    }
    lemma_run_end_of_digit_block(s, pos, pos, end);
    assert(spec_digit_run_end(s, pos) == end);
    lemma_spec_dec_value(n as nat);
    lemma_spec_dec_no_leading_zero(n as nat);
    assert(s[pos] == d[0]);
    assert(dec_value(s.subrange(pos, end)) == n);
}

/// Helper: scanning from anywhere inside a digit block `[pos, end)` whose
/// terminator is not a digit stops exactly at `end`.
proof fn lemma_run_end_of_digit_block(s: Seq<char>, k: int, pos: int, end: int)
    requires
        0 <= pos <= k <= end <= s.len(),
        forall|i: int| pos <= i < end ==> is_dec_digit(#[trigger] s[i]),
        end < s.len() ==> !is_dec_digit(s[end]),
    ensures
        spec_digit_run_end(s, k) == end,
    decreases end - k,
{
    if k < end {
        lemma_run_end_of_digit_block(s, k + 1, pos, end);
    }
}

/// Maps a digit character to its value; `None` for any other character.
pub fn char_digit(c: char) -> (r: Option<u64>)
    ensures
        match r {
            Some(d) => is_dec_digit(c) && d == digit_value(c),
            None => !is_dec_digit(c),
        },
{
    match c {
        '0' => Some(0),
        '1' => Some(1),
        '2' => Some(2),
        '3' => Some(3),
        '4' => Some(4),
        '5' => Some(5),
        '6' => Some(6),
        '7' => Some(7),
        '8' => Some(8),
        '9' => Some(9),
        _ => None,
    }
}

/// The one-character string for a digit value.
fn digit_string(d: u64) -> (r: String)
    requires
        d < 10,
    ensures
        r@ =~= seq![digit_char(d as int)],
{
    let r = match d {
        0u64 => String::from_str("0"),
        1u64 => String::from_str("1"),
        2u64 => String::from_str("2"),
        3u64 => String::from_str("3"),
        4u64 => String::from_str("4"),
        5u64 => String::from_str("5"),
        6u64 => String::from_str("6"),
        7u64 => String::from_str("7"),
        8u64 => String::from_str("8"),
        _ => String::from_str("9"),
    };
    proof {
        reveal_strlit("0");
        reveal_strlit("1");
        reveal_strlit("2");
        reveal_strlit("3");
        reveal_strlit("4");
        reveal_strlit("5");
        reveal_strlit("6");
        reveal_strlit("7");
        reveal_strlit("8");
        reveal_strlit("9");
    }
    r
}

/// Renders `n` in canonical decimal notation.
pub fn u64_to_dec_string(n: u64) -> (r: String)
    ensures
        r@ == spec_dec(n as nat),
    decreases n,
{
    if n < 10 {
        digit_string(n)
    } else {
        let mut s = u64_to_dec_string(n / 10);
        let d = digit_string(n % 10);
        s.append(d.as_str());
        proof {
            assert(s@ =~= spec_dec((n / 10) as nat).push(digit_char((n % 10) as int)));
        }
        s
    }
}

/// Parses an unsigned decimal inside `v` starting at `pos`, exactly as
/// `spec_parse_u64` describes.
pub fn parse_u64_at(v: &Vec<char>, pos: usize) -> (r: Option<(u64, usize)>)
    requires
        pos <= v@.len(),
    ensures
        match r {
            Some((n, p2)) => {
                &&& spec_parse_u64(v@, pos as int) == Some((n, p2 as int))
                &&& pos < p2 <= v@.len()
            },
            None => spec_parse_u64(v@, pos as int) is None,
        },
{
    let len = v.len();
    proof {
        lemma_digit_run_end_bounds(v@, pos as int);
    }
    let ghost ghost_end = spec_digit_run_end(v@, pos as int);
    let mut end = pos;
    while end < len && char_digit(v[end]).is_some()
        invariant
            pos <= end <= len,
            len == v@.len(),
            forall|k: int| pos <= k < end ==> is_dec_digit(#[trigger] v@[k]),
            spec_digit_run_end(v@, end as int) == ghost_end,
            ghost_end == spec_digit_run_end(v@, pos as int),
        decreases len - end,
    {
        end = end + 1;
    }
    proof {
        assert(spec_digit_run_end(v@, end as int) == end);
    }
    if end == pos {
        return None;
    }
    if v[pos] == '0' && end > pos + 1 {
        return None;
    }
    let mut acc: u64 = 0;
    let mut i = pos;
    proof {
        assert(v@.subrange(pos as int, pos as int) =~= Seq::<char>::empty());
    }
    while i < end
        invariant
            pos <= i <= end <= v@.len(),
            forall|k: int| pos <= k < end ==> is_dec_digit(#[trigger] v@[k]),
            acc == dec_value(v@.subrange(pos as int, i as int)),
            ghost_end == end,
            ghost_end == spec_digit_run_end(v@, pos as int),
            pos < end,
            !(v@[pos as int] == '0' && end > pos + 1),
        decreases end - i,
    {
        let d = match char_digit(v[i]) {
            Some(d) => d,
            None => {
                proof {
                    assert(false);
                }
                0
            },
        };
        if acc > (u64::MAX - d) / 10 {
            proof {
                let cur = v@.subrange(pos as int, i as int);
                let next = v@.subrange(pos as int, i as int + 1);
                assert(next.drop_last() =~= cur);
                assert(dec_value(next) == acc * 10 + d);
                assert((u64::MAX - d) / 10 * 10 + (u64::MAX - d) % 10 == u64::MAX - d);
                assert(acc * 10 >= ((u64::MAX - d) / 10 + 1) * 10);
                assert(dec_value(next) > u64::MAX);
                lemma_dec_value_prefix_mono(v@, pos as int, i as int + 1, end as int);
                assert(dec_value(v@.subrange(pos as int, end as int)) > u64::MAX);
            }
            return None;
        }
        let d2 = acc * 10 + d;
        proof {
            let cur = v@.subrange(pos as int, i as int);
            let next = v@.subrange(pos as int, i as int + 1);
            assert(next.drop_last() =~= cur);
        }
        acc = d2;
        i = i + 1;
    }
    proof {
        lemma_dec_value_nonneg(v@.subrange(pos as int, end as int));
    }
    Some((acc, end))
}

} // verus!
