//! Seek-offset durations: the `H:M:S` / `M:S` / `S` grammar (the last
//! component may be fractional), parsing into whole milliseconds, and the
//! fractional-seconds rendering used on the transcoder command line.

use vstd::prelude::*;
use crate::text::{
    all_digits, chars_to_string, dec_str, digit_char, digit_of, digits_val,
    lemma_digits_val_nonneg, parse_digits, push_dec_chars, str_to_chars,
};

verus! {

/// A duration measured in whole milliseconds. Fractional seconds beyond
/// the third decimal place are dropped when parsing.
#[derive(Clone, Copy, PartialEq, Eq, Structural, Debug)]
pub struct DurationMs {
    pub millis: u64,
}

/// Why a duration string was rejected.
#[derive(Clone, Copy, PartialEq, Eq, Structural, Debug)]
pub enum DurationError {
    /// The input does not match the `H:M:S` / `M:S` / `S` grammar.
    Malformed,
    /// The input matches the grammar but does not fit in `u64` milliseconds.
    TooLarge,
}

/// The first index at which `c` occurs in `s`, or `s.len()` if it does not.
pub open spec fn first_at(s: Seq<char>, c: char) -> int
    decreases s.len(),
{
    if s.len() == 0 {
        0
    } else if s[0] == c {
        0
    } else {
        1 + first_at(s.drop_first(), c)
    }
}

proof fn lemma_first_at_props(s: Seq<char>, c: char)
    ensures
        0 <= first_at(s, c) <= s.len(),
        forall|j: int| 0 <= j < first_at(s, c) ==> s[j] != c,
        first_at(s, c) < s.len() ==> s[first_at(s, c)] == c,
    decreases s.len(),
{
    if s.len() > 0 && s[0] != c {
        lemma_first_at_props(s.drop_first(), c);
        assert(forall|j: int| 1 <= j < first_at(s, c) ==> s[j] == s.drop_first()[j - 1]);
    }
}

proof fn lemma_first_at_unique(s: Seq<char>, c: char, i: int)
    requires
        0 <= i <= s.len(),
        forall|j: int| 0 <= j < i ==> s[j] != c,
        i < s.len() ==> s[i] == c,
    ensures
        first_at(s, c) == i,
    decreases s.len(),
{
    if s.len() > 0 && s[0] != c {
        assert(s[0] != c);
        assert(i != 0);
        assert(forall|j: int| 0 <= j < i - 1 ==> s.drop_first()[j] == s[j + 1]);
        lemma_first_at_unique(s.drop_first(), c, i - 1);
    }
}

/// Milliseconds denoted by a fractional part: the first three digits,
/// scaled as if padded with zeros to three places.
pub open spec fn frac_millis(f: Seq<char>) -> int {
    if f.len() == 0 {
        0
    } else if f.len() == 1 {
        digits_val(f) * 100
    } else if f.len() == 2 {
        digits_val(f) * 10
    } else {
        digits_val(f.take(3))
    }
}

/// Milliseconds denoted by a seconds component: decimal digits with at
/// most one dot and at least one digit, e.g. `"5"`, `"5.5"`, `".5"`, `"5."`.
/// `None` when the component is not of that shape.
pub open spec fn sec_millis(s: Seq<char>) -> Option<int> {
    let d = first_at(s, '.');
    if d == s.len() {
        if s.len() >= 1 && all_digits(s) {
            Some(digits_val(s) * 1000)
        } else {
            None
        }
    } else {
        let a = s.take(d);
        let f = s.skip(d + 1);
        if first_at(f, '.') == f.len() && all_digits(a) && all_digits(f) && a.len() + f.len()
            >= 1 {
            Some(digits_val(a) * 1000 + frac_millis(f))
        } else {
            None
        }
    }
}

/// A whole (hours or minutes) component: one or more decimal digits.
pub open spec fn whole_ok(s: Seq<char>) -> bool {
    s.len() >= 1 && all_digits(s)
}

/// Milliseconds denoted by a duration string of the shape `H:M:S`, `M:S`
/// or `S`, where the final component may be fractional. `None` when the
/// string has any other shape.
pub open spec fn duration_millis(s: Seq<char>) -> Option<int> {
    let p = first_at(s, ':');
    if p == s.len() {
        sec_millis(s)
    } else {
        let rest = s.skip(p + 1);
        let q = first_at(rest, ':');
        if q == rest.len() {
            if whole_ok(s.take(p)) && sec_millis(rest) is Some {
                Some(digits_val(s.take(p)) * 60000 + sec_millis(rest)->0)
            } else {
                None
            }
        } else {
            let rest2 = rest.skip(q + 1);
            if first_at(rest2, ':') == rest2.len() {
                if whole_ok(s.take(p)) && whole_ok(rest.take(q)) && sec_millis(rest2) is Some {
                    Some(
                        digits_val(s.take(p)) * 3600000 + digits_val(rest.take(q)) * 60000
                            + sec_millis(rest2)->0,
                    )
                } else {
                    None
                }
            } else {
                None
            }
        }
    }
}

/// What `parse_duration` returns for a given input.
pub open spec fn parse_duration_spec(s: Seq<char>) -> Result<DurationMs, DurationError> {
    match duration_millis(s) {
        None => Err(DurationError::Malformed),
        Some(v) => if v > u64::MAX {
            Err(DurationError::TooLarge)
        } else {
            Ok(DurationMs { millis: v as u64 })
        },
    }
}

fn find_from(v: &Vec<char>, from: usize, c: char) -> (i: usize)
    requires
        from <= v@.len(),
    ensures
        from <= i <= v@.len(),
        i - from == first_at(v@.skip(from as int), c),
        forall|j: int| from <= j < i ==> v@[j] != c,
        i < v@.len() ==> v@[i as int] == c,
{
    let n: usize = v.len();
    let mut i: usize = from;
    while i < n
        invariant
            from <= i <= n == v@.len(),
            forall|j: int| from <= j < i ==> v@[j] != c,
        decreases n - i,
    {
        if v[i] == c {
            proof {
                assert(forall|j: int| 0 <= j < i - from ==> v@.skip(from as int)[j] == v@[
                    j + from
                ]);
                lemma_first_at_unique(v@.skip(from as int), c, i - from);
            }
            return i;
        }
        i += 1;
    }
    proof {
        assert(forall|j: int| 0 <= j < i - from ==> v@.skip(from as int)[j] == v@[j + from]);
        lemma_first_at_unique(v@.skip(from as int), c, i - from);
    }
    i
}

fn all_digits_range(v: &Vec<char>, from: usize, to: usize) -> (b: bool)
    requires
        from <= to <= v@.len(),
    ensures
        b == all_digits(v@.subrange(from as int, to as int)),
{
    let ghost sub = v@.subrange(from as int, to as int);
    let mut i: usize = from;
    while i < to
        invariant
            from <= i <= to <= v@.len(),
            sub == v@.subrange(from as int, to as int),
            forall|j: int| 0 <= j < i - from ==> crate::text::is_digit(#[trigger] sub[j]),
        decreases to - i,
    {
        let c = v[i];
        if !('0' <= c && c <= '9') {
            assert(sub[i - from] == c);
            return false;
        }
        assert(sub[i - from] == c);
        i += 1;
    }
    true
}

/// A parsed numeric component: its value, or the way it failed.
enum NumParse {
    Val(u64),
    Bad,
    Big,
}

fn parse_whole(v: &Vec<char>, from: usize, to: usize) -> (r: NumParse)
    requires
        from <= to <= v@.len(),
    ensures
        (r is Bad) <==> !whole_ok(v@.subrange(from as int, to as int)),
        (r is Big) ==> digits_val(v@.subrange(from as int, to as int)) > u64::MAX,
        r matches NumParse::Val(x) ==> x == digits_val(v@.subrange(from as int, to as int)),
{
    if to == from {
        return NumParse::Bad;
    }
    if !all_digits_range(v, from, to) {
        return NumParse::Bad;
    }
    match parse_digits(v, from, to) {
        Some(x) => NumParse::Val(x),
        None => NumParse::Big,
    }
}

fn parse_secs(v: &Vec<char>, from: usize, to: usize) -> (r: NumParse)
    requires
        from <= to <= v@.len(),
    ensures
        (r is Bad) <==> (sec_millis(v@.subrange(from as int, to as int)) is None),
        (r is Big) ==> sec_millis(v@.subrange(from as int, to as int))->0 > u64::MAX,
        r matches NumParse::Val(x) ==> x == sec_millis(v@.subrange(from as int, to as int))->0,
{
    let ghost sub = v@.subrange(from as int, to as int);
    let d0: usize = find_from(v, from, '.');
    let d: usize = if d0 > to {
        to
    } else {
        d0
    };
    proof {
        // the first dot of the component is the first dot of the whole
        // suffix, clipped to the component's end
        assert(forall|j: int| 0 <= j < d - from ==> sub[j] != '.');
        if d < to {
            assert(sub[d - from] == v@[d as int]);
        }
        lemma_first_at_unique(sub, '.', d - from);
    }
    if d == to {
        // no fractional part
        if to == from || !all_digits_range(v, from, to) {
            return NumParse::Bad;
        }
        proof {
            lemma_digits_val_nonneg(sub);
        }
        match parse_digits(v, from, to) {
            Some(x) => {
                match x.checked_mul(1000) {
                    Some(m) => NumParse::Val(m),
                    None => {
                        proof {
                            lemma_mul_grows(digits_val(sub), 1000);
                        }
                        NumParse::Big
                    },
                }
            },
            None => {
                proof {
                    lemma_mul_grows(digits_val(sub), 1000);
                }
                NumParse::Big
            },
        }
    } else {
        let ghost a = sub.take(d - from);
        let ghost f = sub.skip(d - from + 1);
        assert(a =~= v@.subrange(from as int, d as int));
        assert(f =~= v@.subrange(d + 1, to as int));
        // reject a second dot
        let d2: usize = find_from(v, d + 1, '.');
        proof {
            if d2 >= to {
                assert(forall|j: int| 0 <= j < f.len() ==> f[j] == v@[j + d + 1] && f[j] != '.');
                lemma_first_at_unique(f, '.', f.len() as int);
            } else {
                assert(forall|j: int| 0 <= j < d2 - (d + 1) ==> f[j] == v@[j + d + 1] && f[j]
                    != '.');
                assert(f[d2 - (d + 1)] == v@[d2 as int]);
                lemma_first_at_unique(f, '.', d2 - (d + 1));
            }
        }
        if d2 < to {
            return NumParse::Bad;
        }
        if !all_digits_range(v, from, d) || !all_digits_range(v, d + 1, to) {
            return NumParse::Bad;
        }
        if to - from <= 1 {
            // a lone dot carries no digit at all
            assert(a.len() + f.len() == 0);
            return NumParse::Bad;
        }
        assert(a.len() + f.len() >= 1);
        // the fractional value comes from the first three digits
        let flen: usize = to - (d + 1);
        let fval: u64 = if flen == 0 {
            0
        } else if flen == 1 {
            proof {
                lemma_digits_val_bound(f);
                assert(pow_ten(1) == 10 * pow_ten(0));
            }
            let x = match parse_digits(v, d + 1, to) {
                Some(x) => x,
                None => 0,
            };
            x * 100
        } else if flen == 2 {
            proof {
                lemma_digits_val_bound(f);
                assert(pow_ten(2) == 10 * pow_ten(1) && pow_ten(1) == 10 * pow_ten(0));
            }
            let x = match parse_digits(v, d + 1, to) {
                Some(x) => x,
                None => 0,
            };
            x * 10
        } else {
            proof {
                assert(v@.subrange(d + 1, d + 4 as int) =~= f.take(3));
                assert(all_digits(f.take(3))) by {
                    assert(forall|j: int| 0 <= j < 3 ==> f.take(3)[j] == f[j]);
                }
                lemma_digits_val_bound(f.take(3));
                assert(pow_ten(3) == 10 * pow_ten(2) && pow_ten(2) == 10 * pow_ten(1) && pow_ten(1)
                    == 10 * pow_ten(0));
            }
            match parse_digits(v, d + 1, d + 4) {
                Some(x) => x,
                None => 0,
            }
        };
        assert(fval == frac_millis(f) && fval <= 999);
        proof {
            lemma_digits_val_nonneg(a);
        }
        match parse_digits(v, from, d) {
            Some(x) => {
                match x.checked_mul(1000) {
                    Some(m) => match m.checked_add(fval) {
                        Some(t) => NumParse::Val(t),
                        None => {
                            proof {
                                lemma_mul_grows(digits_val(a), 1000);
                            }
                            NumParse::Big
                        },
                    },
                    None => {
                        proof {
                            lemma_mul_grows(digits_val(a), 1000);
                        }
                        NumParse::Big
                    },
                }
            },
            None => {
                proof {
                    lemma_mul_grows(digits_val(a), 1000);
                }
                NumParse::Big
            },
        }
    }
}

/// Multiplying a non-negative value by a positive factor does not shrink it.
proof fn lemma_mul_grows(x: int, k: int)
    requires
        x >= 0,
        k >= 1,
    ensures
        x * k >= x,
        x * k >= 0,
{
    assert(x * k >= x && x * k >= 0) by (nonlinear_arith)
        requires
            x >= 0,
            k >= 1,
    ;
}

/// Ten to the `n`th power.
spec fn pow_ten(n: nat) -> int
    decreases n,
{
    if n == 0 {
        1
    } else {
        10 * pow_ten((n - 1) as nat)
    }
}

/// A run of `n` digits denotes a value below ten to the `n`th power.
proof fn lemma_digits_val_bound(f: Seq<char>)
    requires
        all_digits(f),
    ensures
        0 <= digits_val(f) < pow_ten(f.len()),
    decreases f.len(),
{
    if f.len() > 0 {
        assert(forall|j: int| 0 <= j < f.len() - 1 ==> f.drop_last()[j] == f[j]);
        lemma_digits_val_bound(f.drop_last());
        assert(crate::text::is_digit(f[f.len() - 1]));
        assert(f.last() as int - 48 <= 9);
        assert(digits_val(f.drop_last()) * 10 <= (pow_ten((f.len() - 1) as nat) - 1) * 10);
    }
}

/// Relates a parsed component to the unbounded value it denotes.
spec fn component_val(p: NumParse, v: int) -> bool {
    match p {
        NumParse::Bad => false,
        NumParse::Big => v > u64::MAX,
        NumParse::Val(x) => v == x,
    }
}

/// The overall result for component values `h:m:s` (s in milliseconds).
spec fn combined_spec(hv: int, mv: int, sv: int) -> Result<DurationMs, DurationError> {
    let total = hv * 3600000 + mv * 60000 + sv;
    if total > u64::MAX {
        Err(DurationError::TooLarge)
    } else {
        Ok(DurationMs { millis: total as u64 })
    }
}

/// Combines parsed components as `h * 3600000 + m * 60000 + s`,
/// reporting a malformed component ahead of an oversized one.
fn combine(
    h: NumParse,
    m: NumParse,
    s: NumParse,
    Ghost(hv): Ghost<int>,
    Ghost(mv): Ghost<int>,
    Ghost(sv): Ghost<int>,
) -> (r: Result<DurationMs, DurationError>)
    requires
        hv >= 0 && mv >= 0 && sv >= 0,
        !(h is Bad) ==> component_val(h, hv),
        !(m is Bad) ==> component_val(m, mv),
        !(s is Bad) ==> component_val(s, sv),
    ensures
        (h is Bad || m is Bad || s is Bad) ==> r == Err::<DurationMs, DurationError>(
            DurationError::Malformed,
        ),
        !(h is Bad || m is Bad || s is Bad) ==> r == combined_spec(hv, mv, sv),
{
    match (h, m, s) {
        (NumParse::Bad, _, _) => Err(DurationError::Malformed),
        (_, NumParse::Bad, _) => Err(DurationError::Malformed),
        (_, _, NumParse::Bad) => Err(DurationError::Malformed),
        (NumParse::Big, _, _) => {
            proof {
                lemma_mul_grows(hv, 3600000);
                lemma_mul_grows(mv, 60000);
            }
            Err(DurationError::TooLarge)
        },
        (_, NumParse::Big, _) => {
            proof {
                lemma_mul_grows(hv, 3600000);
                lemma_mul_grows(mv, 60000);
            }
            Err(DurationError::TooLarge)
        },
        (_, _, NumParse::Big) => {
            proof {
                lemma_mul_grows(hv, 3600000);
                lemma_mul_grows(mv, 60000);
            }
            Err(DurationError::TooLarge)
        },
        (NumParse::Val(x), NumParse::Val(y), NumParse::Val(z)) => {
            proof {
                lemma_mul_grows(hv, 3600000);
                lemma_mul_grows(mv, 60000);
            }
            let hm: u64 = match x.checked_mul(3600000) {
                Some(t) => t,
                None => {
                    return Err(DurationError::TooLarge);
                },
            };
            let mm: u64 = match y.checked_mul(60000) {
                Some(t) => t,
                None => {
                    return Err(DurationError::TooLarge);
                },
            };
            let a: u64 = match hm.checked_add(mm) {
                Some(t) => t,
                None => {
                    return Err(DurationError::TooLarge);
                },
            };
            match a.checked_add(z) {
                Some(t) => Ok(DurationMs { millis: t }),
                None => Err(DurationError::TooLarge),
            }
        },
    }
}

/// Parses a seek offset written as `H:M:S`, `M:S` or plain `S`; the final
/// component may carry a fractional part, kept to millisecond precision.
pub fn parse_duration(input: &str) -> (r: Result<DurationMs, DurationError>)
    ensures
        r == parse_duration_spec(input@),
{
    let v = str_to_chars(input);
    let n: usize = v.len();
    let p: usize = find_from(&v, 0, ':');
    proof {
        assert(v@.skip(0) == v@);
    }
    if p == n {
        assert(v@.subrange(0, n as int) == v@);
        match parse_secs(&v, 0, n) {
            NumParse::Bad => Err(DurationError::Malformed),
            NumParse::Big => Err(DurationError::TooLarge),
            NumParse::Val(x) => Ok(DurationMs { millis: x }),
        }
    } else {
        let ghost rest = v@.skip(p + 1);
        let q: usize = find_from(&v, p + 1, ':');
        proof {
            assert(forall|j: int| 0 <= j < rest.len() ==> rest[j] == v@[j + p + 1]);
        }
        if q == n {
            proof {
                lemma_first_at_unique(rest, ':', rest.len() as int);
            }
            parse_min_sec(&v, p)
        } else {
            proof {
                lemma_first_at_unique(rest, ':', q - (p + 1));
            }
            let ghost rest2 = rest.skip(q - p);
            assert(rest2 =~= v@.skip(q + 1));
            let r2: usize = find_from(&v, q + 1, ':');
            proof {
                assert(forall|j: int| 0 <= j < rest2.len() ==> rest2[j] == v@[j + q + 1]);
            }
            if r2 < n {
                proof {
                    assert(rest2[r2 - (q + 1)] == v@[r2 as int]);
                    lemma_first_at_unique(rest2, ':', r2 - (q + 1));
                }
                return Err(DurationError::Malformed);
            }
            proof {
                lemma_first_at_unique(rest2, ':', rest2.len() as int);
            }
            parse_hour_min_sec(&v, p, q)
        }
    }
}

/// The `M:S` shape, with the single colon at `p`.
fn parse_min_sec(v: &Vec<char>, p: usize) -> (r: Result<DurationMs, DurationError>)
    requires
        p == first_at(v@, ':'),
        p < v@.len(),
        first_at(v@.skip(p + 1), ':') == v@.skip(p + 1).len(),
    ensures
        r == parse_duration_spec(v@),
{
    let n: usize = v.len();
    let ghost rest = v@.skip(p + 1);
    let ghost mseq = v@.subrange(0, p as int);
    assert(mseq == v@.take(p as int));
    let m = parse_whole(v, 0, p);
    assert(v@.subrange(p + 1, n as int) == rest);
    let s = parse_secs(v, p + 1, n);
    proof {
        if whole_ok(mseq) {
            lemma_digits_val_nonneg(mseq);
        }
        if sec_millis(rest) is Some {
            lemma_sec_millis_nonneg(rest);
        }
    }
    combine(
        NumParse::Val(0),
        m,
        s,
        Ghost(0),
        Ghost(
            if whole_ok(mseq) {
                digits_val(mseq)
            } else {
                0
            },
        ),
        Ghost(
            if sec_millis(rest) is Some {
                sec_millis(rest)->0
            } else {
                0
            },
        ),
    )
}

/// The `H:M:S` shape, with the two colons at `p` and `q`.
fn parse_hour_min_sec(v: &Vec<char>, p: usize, q: usize) -> (r: Result<DurationMs, DurationError>)
    requires
        p == first_at(v@, ':'),
        p < q < v@.len(),
        q - (p + 1) == first_at(v@.skip(p + 1), ':'),
        first_at(v@.skip(q + 1), ':') == v@.skip(q + 1).len(),
    ensures
        r == parse_duration_spec(v@),
{
    let n: usize = v.len();
    let ghost rest = v@.skip(p + 1);
    let ghost rest2 = v@.skip(q + 1);
    assert(rest2 =~= rest.skip(q - p));
    let ghost hseq = v@.subrange(0, p as int);
    assert(hseq == v@.take(p as int));
    let ghost mseq = v@.subrange(p + 1, q as int);
    assert(mseq =~= rest.take(q - (p + 1)));
    let h = parse_whole(v, 0, p);
    let m = parse_whole(v, p + 1, q);
    assert(v@.subrange(q + 1, n as int) == rest2);
    let s = parse_secs(v, q + 1, n);
    proof {
        if whole_ok(hseq) {
            lemma_digits_val_nonneg(hseq);
        }
        if whole_ok(mseq) {
            lemma_digits_val_nonneg(mseq);
        }
        if sec_millis(rest2) is Some {
            lemma_sec_millis_nonneg(rest2);
        }
    }
    combine(
        h,
        m,
        s,
        Ghost(
            if whole_ok(hseq) {
                digits_val(hseq)
            } else {
                0
            },
        ),
        Ghost(
            if whole_ok(mseq) {
                digits_val(mseq)
            } else {
                0
            },
        ),
        Ghost(
            if sec_millis(rest2) is Some {
                sec_millis(rest2)->0
            } else {
                0
            },
        ),
    )
}

/// A well-shaped seconds component denotes a non-negative duration.
proof fn lemma_sec_millis_nonneg(s: Seq<char>)
    requires
        sec_millis(s) is Some,
    ensures
        sec_millis(s)->0 >= 0,
{
    let d = first_at(s, '.');
    lemma_first_at_props(s, '.');
    if d == s.len() {
        lemma_digits_val_nonneg(s);
        lemma_mul_grows(digits_val(s), 1000);
    } else {
        let a = s.take(d);
        let f = s.skip(d + 1);
        lemma_digits_val_nonneg(a);
        lemma_mul_grows(digits_val(a), 1000);
        if f.len() == 0 {
        } else if f.len() == 1 {
            lemma_digits_val_nonneg(f);
            lemma_mul_grows(digits_val(f), 100);
        } else if f.len() == 2 {
            lemma_digits_val_nonneg(f);
            lemma_mul_grows(digits_val(f), 10);
        } else {
            assert(all_digits(f.take(3))) by {
                assert(forall|j: int| 0 <= j < 3 ==> f.take(3)[j] == f[j]);
            }
            lemma_digits_val_nonneg(f.take(3));
        }
    }
}

/// The decimal rendering of a millisecond count as seconds, with the
/// fractional part trimmed of trailing zeros and omitted when zero:
/// `90000` renders as `90`, `5500` as `5.5`.
pub open spec fn secs_str(millis: u64) -> Seq<char> {
    let whole = (millis / 1000) as nat;
    let f = millis % 1000;
    let d1 = digit_char((f / 100) as int);
    let d2 = digit_char(((f / 10) % 10) as int);
    let d3 = digit_char((f % 10) as int);
    if f == 0 {
        dec_str(whole)
    } else if f % 10 != 0 {
        dec_str(whole) + seq!['.', d1, d2, d3]
    } else if (f / 10) % 10 != 0 {
        dec_str(whole) + seq!['.', d1, d2]
    } else {
        dec_str(whole) + seq!['.', d1]
    }
}

impl DurationMs {
    /// Renders the duration as fractional seconds for a command line.
    pub fn to_secs_string(&self) -> (s: String)
        ensures
            s@ == secs_str(self.millis),
    {
        let whole: u64 = self.millis / 1000;
        let f: u64 = self.millis % 1000;
        let mut v: Vec<char> = Vec::new();
        push_dec_chars(whole, &mut v);
        if f != 0 {
            v.push('.');
            v.push(digit_of(f / 100));
            if f % 10 != 0 {
                v.push(digit_of((f / 10) % 10));
                v.push(digit_of(f % 10));
                assert(v@ =~= secs_str(self.millis));
            } else if (f / 10) % 10 != 0 {
                v.push(digit_of((f / 10) % 10));
                assert(v@ =~= secs_str(self.millis));
            } else {
                assert(v@ =~= secs_str(self.millis));
            }
        } else {
            assert(v@ =~= secs_str(self.millis));
        }
        chars_to_string(&v)
    }
}

} // verus!
