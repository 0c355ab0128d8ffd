use vstd::prelude::*;

verus! {

/// `s` is one or more ASCII digits.
pub open spec fn all_digits(s: Seq<u8>) -> bool {
    s.len() > 0 && forall|i: int| 0 <= i < s.len() ==> 48 <= #[trigger] s[i] <= 57
}

/// The number that the ASCII digits `s` write in decimal.
pub open spec fn digits_value(s: Seq<u8>) -> int
    decreases s.len(),
{
    if s.len() == 0 {
        0
    } else {
        digits_value(s.drop_last()) * 10 + (s.last() - 48)
    }
}

/// The integer that `s` writes: an optional `+` or `-`, then one or more
/// digits.
pub open spec fn int_text(s: Seq<u8>) -> Option<int> {
    if s.len() > 0 && (s[0] == 45 || s[0] == 43) {
        if all_digits(s.skip(1)) {
            Some(
                if s[0] == 45 {
                    -digits_value(s.skip(1))
                } else {
                    digits_value(s.skip(1))
                },
            )
        } else {
            None
        }
    } else if all_digits(s) {
        Some(digits_value(s))
    } else {
        None
    }
}

/// The `i32` that `s` writes, if it writes one that fits.
pub open spec fn i32_text(s: Seq<u8>) -> Option<i32> {
    match int_text(s) {
        Some(v) => if i32::MIN <= v <= i32::MAX {
            Some(v as i32)
        } else {
            None
        },
        None => None,
    }
}

/// The index of the first `:` in `s` at or after `from`, or the length of
/// `s` when there is none.
pub open spec fn first_colon(s: Seq<u8>, from: int) -> int
    decreases s.len() - from,
{
    if from >= s.len() {
        s.len() as int
    } else if s[from] == 58 {
        from
    } else {
        first_colon(s, from + 1)
    }
}

/// The two integers of a ratio written `W:H`: the text before the first
/// `:` and the text after it, up to a second `:` if there is one.
pub open spec fn ratio_text(s: Seq<u8>) -> Option<(i32, i32)> {
    let p = first_colon(s, 0);
    if p >= s.len() {
        None
    } else {
        let q = first_colon(s, p + 1);
        match (i32_text(s.subrange(0, p)), i32_text(s.subrange(p + 1, q))) {
            (Some(a), Some(b)) => Some((a, b)),
            _ => None,
        }
    }
}

proof fn lemma_digits_prefix(s: Seq<u8>, k: int)
    requires
        all_digits(s),
        0 <= k <= s.len(),
    ensures
        digits_value(s.take(k)) <= digits_value(s),
        digits_value(s.take(k)) >= 0,
    decreases s.len(),
{
    if k == s.len() {
        assert(s.take(k) =~= s);
        lemma_digits_nonneg(s);
    } else {
        let t = s.drop_last();
        if t.len() > 0 {
            assert forall|i: int| 0 <= i < t.len() implies 48 <= #[trigger] t[i] <= 57 by {
                assert(t[i] == s[i]);
            }
            lemma_digits_prefix(t, k);
            assert(t.take(k) =~= s.take(k));
            lemma_digits_nonneg(t);
        } else {
            assert(s.take(k) =~= Seq::<u8>::empty());
        }
    }
}

proof fn lemma_digits_nonneg(s: Seq<u8>)
    requires
        forall|i: int| 0 <= i < s.len() ==> 48 <= #[trigger] s[i] <= 57,
    ensures
        digits_value(s) >= 0,
    decreases s.len(),
{
    if s.len() > 0 {
        let t = s.drop_last();
        assert forall|i: int| 0 <= i < t.len() implies 48 <= #[trigger] t[i] <= 57 by {
            assert(t[i] == s[i]);
        }
        lemma_digits_nonneg(t);
    }
}

/// The `i32` written by `s[start..end]`, as `str::parse::<i32>` reads it.
fn parse_i32(s: &[u8], start: usize, end: usize) -> (r: Option<i32>)
    requires
        start <= end <= s@.len(),
    ensures
        r == i32_text(s@.subrange(start as int, end as int)),
{
    let ghost t = s@.subrange(start as int, end as int);
    if start == end {
        return None;
    }
    let negative = s[start] == 45u8;
    let ds: usize = if s[start] == 45u8 || s[start] == 43u8 {
        start + 1
    } else {
        start
    };
    let ghost d = s@.subrange(ds as int, end as int);
    proof {
        if ds == start + 1 {
            assert(t.skip(1) =~= d);
        } else {
            assert(t =~= d);
        }
    }
    if ds == end {
        return None;
    }
    let mut acc: i64 = 0;
    let mut i: usize = ds;
    while i < end
        invariant
            ds < end <= s@.len(),
            ds <= i <= end,
            d == s@.subrange(ds as int, end as int),
            t == s@.subrange(start as int, end as int),
            start < end,
            negative == (t[0] == 45),
            ds == start + 1 ==> (t[0] == 45 || t[0] == 43) && t.skip(1) == d,
            ds == start ==> !(t[0] == 45 || t[0] == 43) && t == d,
            ds == start || ds == start + 1,
            forall|k: int| ds <= k < i ==> 48 <= #[trigger] s@[k] <= 57,
            acc == digits_value(d.take(i - ds)),
            0 <= acc <= 2147483648,
        decreases end - i,
    {
        let c = s[i];
        if c < 48u8 || c > 57u8 {
            proof {
                assert(d[i - ds] == c);
                assert(!all_digits(d));
            }
            return None;
        }
        proof {
            assert(d.take(i - ds + 1).drop_last() =~= d.take(i - ds));
            assert(d.take(i - ds + 1).last() == c);
        }
        acc = acc * 10 + (c - 48u8) as i64;
        assert(acc == digits_value(d.take(i - ds + 1)));
        if acc > 2147483648 {
            proof {
                assert forall|k: int| 0 <= k < d.take(i - ds + 1).len() implies 48 <= #[trigger] d.take(i - ds + 1)[k] <= 57 by {
                    assert(d.take(i - ds + 1)[k] == s@[ds + k]);
                }
                if all_digits(d) {
                    lemma_digits_prefix(d, i - ds + 1);
                    assert(digits_value(d) > 2147483648);
                }
            }
            return None;
        }
        i = i + 1;
    }
    proof {
        assert(d.take(end - ds) =~= d);
        assert forall|k: int| 0 <= k < d.len() implies 48 <= #[trigger] d[k] <= 57 by {
            assert(d[k] == s@[ds + k]);
        }
        assert(all_digits(d));
    }
    if negative {
        Some((-acc) as i32)
    } else if acc > 2147483647 {
        None
    } else {
        Some(acc as i32)
    }
}

proof fn lemma_first_colon_range(s: Seq<u8>, from: int)
    requires
        0 <= from <= s.len(),
    ensures
        from <= first_colon(s, from) <= s.len(),
    decreases s.len() - from,
{
    if from < s.len() && s[from] != 58 {
        lemma_first_colon_range(s, from + 1);
    }
}

/// The index of the first `:` in `s` at or after `from`, or its length.
fn find_colon(s: &[u8], from: usize) -> (r: usize)
    requires
        from <= s@.len(),
    ensures
        r == first_colon(s@, from as int),
{
    let mut i = from;
    while i < s.len()
        invariant
            from <= i <= s@.len(),
            first_colon(s@, from as int) == first_colon(s@, i as int),
        decreases s@.len() - i,
    {
        if s[i] == 58u8 {
            return i;
        }
        i = i + 1;
    }
    i
}

/// The width and height of an aspect ratio written `W:H` (say `16:9`);
/// `None` when `s` does not hold two such integers.
pub fn parse_ratio(s: &[u8]) -> (r: Option<(i32, i32)>)
    ensures
        r == ratio_text(s@),
{
    let p = find_colon(s, 0);
    if p >= s.len() {
        return None;
    }
    let q = find_colon(s, p + 1);
    proof {
        lemma_first_colon_range(s@, p + 1);
    }
    match (parse_i32(s, 0, p), parse_i32(s, p + 1, q)) {
        (Some(a), Some(b)) => Some((a, b)),
        _ => None,
    }
}

} // verus!
