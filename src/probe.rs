use crate::policy::Dimensions;
use vstd::prelude::*;

verus! {

/// Why the output of the dimension query could not be read.
#[derive(Clone, Copy, Debug, PartialEq, Eq, Structural)]
pub enum ProbeError {
    /// The output is too short to hold its two delimiters, or a delimiter is
    /// not an ASCII byte.
    Unframed,
    /// No space separates the width from the height.
    NoSeparator,
    /// The width is not an unsigned 32-bit decimal number.
    BadWidth,
    /// The height is not an unsigned 32-bit decimal number.
    BadHeight,
    /// A side of zero pixels: no image has it.
    ZeroSide,
}

pub open spec fn is_digit(b: u8) -> bool {
    48 <= b <= 57
}

/// The value of a run of decimal digits.
pub open spec fn digits_value(s: Seq<u8>) -> nat
    decreases s.len(),
{
    if s.len() == 0 {
        0
    } else {
        digits_value(s.drop_last()) * 10 + (s.last() - 48) as nat
    }
}

/// The digits of a number's text, after an optional leading `+`.
pub open spec fn unsigned_digits(s: Seq<u8>) -> Seq<u8> {
    if s.len() > 0 && s[0] == 43 {
        s.drop_first()
    } else {
        s
    }
}

/// The number that `s` writes in decimal, if it is one that fits in `u32`:
/// an optional `+`, then one digit or more.
pub open spec fn u32_text_value(s: Seq<u8>) -> Option<u32> {
    let d = unsigned_digits(s);
    if d.len() > 0 && (forall|i: int| 0 <= i < d.len() ==> is_digit(#[trigger] d[i]))
        && digits_value(d) <= u32::MAX {
        Some(digits_value(d) as u32)
    } else {
        None
    }
}

/// The index of the first space in `s`, if any.
pub open spec fn first_space(s: Seq<u8>) -> Option<int> {
    if exists|i: int| 0 <= i < s.len() && s[i] == 32 {
        let i = choose|i: int|
            0 <= i < s.len() && s[i] == 32 && forall|j: int| 0 <= j < i ==> s[j] != 32;
        Some(i)
    } else {
        None
    }
}

/// What the dimension query's output `out` gives: a quoted `W H`, whose two
/// delimiters are dropped unread, then split at the first space.
pub open spec fn identify_result(out: Seq<u8>) -> Result<Dimensions, ProbeError> {
    if out.len() < 2 || out[0] >= 128 || out.last() >= 128 {
        Err(ProbeError::Unframed)
    } else {
        let inner = out.subrange(1, out.len() - 1);
        match first_space(inner) {
            None => Err(ProbeError::NoSeparator),
            Some(i) => {
                let w = u32_text_value(inner.take(i));
                let h = u32_text_value(inner.skip(i + 1));
                if w is None {
                    Err(ProbeError::BadWidth)
                } else if h is None {
                    Err(ProbeError::BadHeight)
                } else if w->0 == 0 || h->0 == 0 {
                    Err(ProbeError::ZeroSide)
                } else {
                    Ok(Dimensions { width: w->0, height: h->0 })
                }
            },
        }
    }
}

proof fn lemma_digits_value_grows(s: Seq<u8>, k: int)
    requires
        0 <= k <= s.len(),
        forall|i: int| 0 <= i < s.len() ==> is_digit(#[trigger] s[i]),
    ensures
        digits_value(s.take(k)) <= digits_value(s),
    decreases s.len() - k,
{
    if k < s.len() {
        lemma_digits_value_grows(s, k + 1);
        assert(s.take(k + 1).drop_last() =~= s.take(k));
    } else {
        assert(s.take(k) =~= s);
    }
}

/// Reads `b[start..end]` as a `u32` in decimal.
fn parse_u32(b: &Vec<u8>, start: usize, end: usize) -> (r: Option<u32>)
    requires
        start <= end <= b@.len(),
    ensures
        r == u32_text_value(b@.subrange(start as int, end as int)),
{
    let ghost s = b@.subrange(start as int, end as int);
    let mut i: usize = start;
    if i < end && b[i] == 43 {
        i = i + 1;
    }
    let ghost d = unsigned_digits(s);
    assert(d =~= b@.subrange(i as int, end as int));
    if i == end {
        return None;
    }
    let first: usize = i;
    let mut value: u64 = 0;
    while i < end
        invariant
            first <= i <= end <= b@.len(),
            start <= first,
            s == b@.subrange(start as int, end as int),
            d == unsigned_digits(s),
            d =~= b@.subrange(first as int, end as int),
            forall|j: int| 0 <= j < i - first ==> is_digit(#[trigger] d[j]),
            value == digits_value(d.take(i - first)),
            value <= u32::MAX,
        decreases end - i,
    {
        let c = b[i];
        if c < 48 || c > 57 {
            assert(!is_digit(d[i - first]));
            return None;
        }
        assert(d.take(i + 1 - first).drop_last() =~= d.take(i - first));
        value = value * 10 + (c - 48) as u64;
        i = i + 1;
        if value > 4294967295 {
            proof {
                if forall|j: int| 0 <= j < d.len() ==> is_digit(#[trigger] d[j]) {
                    lemma_digits_value_grows(d, i - first);
                }
            }
            return None;
        }
    }
    assert(d.take(i - first) =~= d);
    Some(value as u32)
}

impl Dimensions {
    /// Reads the dimension query's output: a quoted `W H`.
    pub fn from_identify_output(out: &Vec<u8>) -> (r: Result<Dimensions, ProbeError>)
        ensures
            r == identify_result(out@),
    {
        let n = out.len();
        if n < 2 || out[0] >= 128 || out[n - 1] >= 128 {
            return Err(ProbeError::Unframed);
        }
        let ghost inner = out@.subrange(1, n - 1);
        let mut i: usize = 1;
        while i < n - 1 && out[i] != 32
            invariant
                1 <= i <= n - 1,
                n == out@.len(),
                inner == out@.subrange(1, n - 1),
                forall|j: int| 0 <= j < i - 1 ==> inner[j] != 32,
            decreases n - 1 - i,
        {
            i = i + 1;
        }
        if i == n - 1 {
            assert(!exists|j: int| 0 <= j < inner.len() && inner[j] == 32);
            return Err(ProbeError::NoSeparator);
        }
        proof {
            let k = (i - 1) as int;
            assert(0 <= k < inner.len() && inner[k] == 32);
            let c = choose|c: int|
                0 <= c < inner.len() && inner[c] == 32 && forall|j: int| 0 <= j < c ==> inner[j] != 32;
            assert(c == k) by {
                if c < k {
                    assert(inner[c] != 32);
                } else if c > k {
                    assert(inner[k] != 32);
                }
            }
            assert(out@.subrange(1, i as int) =~= inner.take(k));
            assert(out@.subrange(i + 1, n - 1) =~= inner.skip(k + 1));
        }
        let w = parse_u32(out, 1, i);
        let h = parse_u32(out, i + 1, n - 1);
        match (w, h) {
            (None, _) => Err(ProbeError::BadWidth),
            (_, None) => Err(ProbeError::BadHeight),
            (Some(width), Some(height)) => {
                if width == 0 || height == 0 {
                    Err(ProbeError::ZeroSide)
                } else {
                    Ok(Dimensions { width, height })
                }
            },
        }
    }
}

} // verus!
