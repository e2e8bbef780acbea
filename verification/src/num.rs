//! Decimal numerals: writing unsigned integers and reading them back, as
//! `Display` and `FromStr` do for Rust's integer types.
use vstd::prelude::*;
use crate::text::push_char;

verus! {

/// The ASCII digit for `d < 10`.
pub open spec fn digit_char(d: nat) -> char {
    (48 + d) as char
}

/// The decimal numeral of `n`, without leading zeros.
pub open spec fn dec(n: nat) -> Seq<char>
    decreases n,
{
    if n < 10 {
        seq![digit_char(n)]
    } else {
        dec(n / 10).push(digit_char(n % 10))
    }
}

/// `c` is an ASCII decimal digit.
pub open spec fn is_digit(c: char) -> bool {
    '0' <= c && c <= '9'
}

/// Every character of `s` is an ASCII decimal digit.
pub open spec fn all_digits(s: Seq<char>) -> bool {
    forall|i: int| 0 <= i < s.len() ==> is_digit(#[trigger] s[i])
}

/// The value of a string of decimal digits.
pub open spec fn digits_value(s: Seq<char>) -> int
    decreases s.len(),
{
    if s.len() == 0 {
        0
    } else {
        digits_value(s.drop_last()) * 10 + (s.last() as int - 48)
    }
}

/// The integer that `s` denotes: an optional sign (`-` only when `signed`)
/// followed by at least one decimal digit.
pub open spec fn int_value(s: Seq<char>, signed: bool) -> Option<int> {
    if s.len() == 0 {
        None
    } else {
        let neg = signed && s[0] == '-';
        let body = if s[0] == '+' || neg {
            s.skip(1)
        } else {
            s
        };
        if body.len() == 0 || !all_digits(body) {
            None
        } else if neg {
            Some(-digits_value(body))
        } else {
            Some(digits_value(body))
        }
    }
}

/// `s.parse::<i32>()`, as an option.
pub open spec fn parse_i32_spec(s: Seq<char>) -> Option<i32> {
    match int_value(s, true) {
        Some(v) => if i32::MIN <= v <= i32::MAX {
            Some(v as i32)
        } else {
            None
        },
        None => None,
    }
}

/// `s.parse::<u32>()`, as an option.
pub open spec fn parse_u32_spec(s: Seq<char>) -> Option<u32> {
    match int_value(s, false) {
        Some(v) => if 0 <= v <= u32::MAX {
            Some(v as u32)
        } else {
            None
        },
        None => None,
    }
}

/// A string of digits has a non-negative value.
pub proof fn lemma_digits_value_nonneg(s: Seq<char>)
    requires
        all_digits(s),
    ensures
        digits_value(s) >= 0,
    decreases s.len(),
{
    if s.len() > 0 {
        lemma_digits_value_nonneg(s.drop_last());
    }
}

/// A numeral is digits, at least one, and reads back as its number.
pub proof fn lemma_dec_value(n: nat)
    ensures
        dec(n).len() >= 1,
        all_digits(dec(n)),
        digits_value(dec(n)) == n,
    decreases n,
{
    if n >= 10 {
        lemma_dec_value(n / 10);
        let d = dec(n);
        assert(d.drop_last() =~= dec(n / 10));
        assert(d.last() as int == 48 + n % 10);
    } else {
        assert(dec(n).drop_last() =~= Seq::<char>::empty());
        assert(dec(n).last() as int == 48 + n);
        assert(digits_value(Seq::<char>::empty()) == 0);
    }
}

/// Reading a written number gives it back: the numeral of `n` parses as `n`
/// for every `n` that fits the type read.
pub proof fn law_numeral_round_trip(n: nat)
    ensures
        n <= u32::MAX ==> parse_u32_spec(dec(n)) == Some(n as u32),
        n <= i32::MAX ==> parse_i32_spec(dec(n)) == Some(n as i32),
{
    lemma_dec_value(n);
    let d = dec(n);
    assert(is_digit(d[0]));
}

/// Appends the decimal numeral of `n` to `s`.
pub fn push_dec(s: &mut String, n: u64)
    ensures
        final(s)@ == old(s)@ + dec(n as nat),
    decreases n,
{
    if n >= 10 {
        push_dec(s, n / 10);
    }
    let d: u8 = (n % 10) as u8;
    let c = (48u8 + d) as char;
    push_char(s, c);
    assert(dec(n as nat) == if n < 10 { seq![digit_char(n as nat)] } else { dec((n / 10) as nat).push(digit_char((n % 10) as nat)) });
}

/// The decimal numeral of `n`.
pub fn u64_to_string(n: u64) -> (r: String)
    ensures
        r@ == dec(n as nat),
{
    let mut s = String::new();
    push_dec(&mut s, n);
    assert(s@ =~= dec(n as nat));
    s
}

/// The numeral of `n` padded on the left with zeros to at least `width`
/// digits, as the format `{:0width$}` writes it.
pub open spec fn dec_padded(n: nat, width: nat) -> Seq<char> {
    let d = dec(n);
    if d.len() >= width {
        d
    } else {
        Seq::new((width - d.len()) as nat, |i: int| '0') + d
    }
}

/// Appends the numeral of `n`, zero-padded to at least `width` digits.
pub fn push_dec_padded(s: &mut String, n: u64, width: usize)
    ensures
        final(s)@ == old(s)@ + dec_padded(n as nat, width as nat),
{
    let digits = u64_to_string(n);
    let len = digits.as_str().unicode_len();
    let ghost start = s@;
    if len < width {
        let mut k: usize = 0;
        while k < width - len
            invariant
                k <= width - len,
                s@ == start + Seq::new(k as nat, |i: int| '0'),
            decreases width - len - k,
        {
            push_char(s, '0');
            k = k + 1;
            assert(s@ =~= start + Seq::new(k as nat, |i: int| '0'));
        }
        s.append(digits.as_str());
        assert(s@ =~= start + dec_padded(n as nat, width as nat));
    } else {
        s.append(digits.as_str());
    }
}

/// The value of the digit string `s[lo..hi]` when it is non-empty, all digits
/// and at most `limit`.
pub fn parse_digits(s: &[char], lo: usize, hi: usize, limit: u64) -> (r: Option<u64>)
    requires
        lo <= hi <= s@.len(),
    ensures
        ({
            let sub = s@.subrange(lo as int, hi as int);
            match r {
                Some(v) => sub.len() > 0 && all_digits(sub) && v == digits_value(sub) && v <= limit,
                None => !(sub.len() > 0 && all_digits(sub) && digits_value(sub) <= limit),
            }
        }),
{
    if lo == hi {
        return None;
    }
    let mut acc: u64 = 0;
    let mut over = false;
    let mut i = lo;
    while i < hi
        invariant
            lo <= i <= hi <= s@.len(),
            all_digits(s@.subrange(lo as int, i as int)),
            !over ==> acc == digits_value(s@.subrange(lo as int, i as int)) && acc <= limit,
            over ==> digits_value(s@.subrange(lo as int, i as int)) > limit,
        decreases hi - i,
    {
        let c = s[i];
        let ghost pre = s@.subrange(lo as int, i as int);
        let ghost next = s@.subrange(lo as int, i + 1);
        assert(next.drop_last() =~= pre);
        assert(next.last() == c);
        if !('0' <= c && c <= '9') {
            assert(!all_digits(s@.subrange(lo as int, hi as int))) by {
                assert(s@.subrange(lo as int, hi as int)[i - lo] == c);
            }
            return None;
        }
        let d = (c as u32 - 48) as u64;
        proof {
            lemma_digits_value_nonneg(pre);
            assert(all_digits(next));
        }
        if !over {
            let v: u128 = acc as u128 * 10 + d as u128;
            if v > limit as u128 {
                over = true;
            } else {
                acc = v as u64;
            }
        }
        i = i + 1;
    }
    if over {
        None
    } else {
        Some(acc)
    }
}

/// `s.parse::<i32>()` on `s[lo..hi]`.
pub fn parse_i32(s: &[char], lo: usize, hi: usize) -> (r: Option<i32>)
    requires
        lo <= hi <= s@.len(),
    ensures
        r == parse_i32_spec(s@.subrange(lo as int, hi as int)),
{
    let ghost sub = s@.subrange(lo as int, hi as int);
    if lo == hi {
        return None;
    }
    let c = s[lo];
    let neg = c == '-';
    let start = if c == '+' || neg {
        lo + 1
    } else {
        lo
    };
    assert(s@.subrange(start as int, hi as int) =~= if c == '+' || neg {
        sub.skip(1)
    } else {
        sub
    });
    let limit: u64 = if neg {
        2147483648
    } else {
        2147483647
    };
    let r = parse_digits(s, start, hi, limit);
    proof {
        let body = s@.subrange(start as int, hi as int);
        if body.len() > 0 && all_digits(body) {
            lemma_digits_value_nonneg(body);
        }
    }
    match r {
        Some(v) => {
            if neg {
                Some((0 - (v as i64)) as i32)
            } else {
                Some(v as i32)
            }
        },
        None => None,
    }
}

/// `s.parse::<u32>()` on `s[lo..hi]`.
pub fn parse_u32(s: &[char], lo: usize, hi: usize) -> (r: Option<u32>)
    requires
        lo <= hi <= s@.len(),
    ensures
        r == parse_u32_spec(s@.subrange(lo as int, hi as int)),
{
    let ghost sub = s@.subrange(lo as int, hi as int);
    if lo == hi {
        return None;
    }
    let c = s[lo];
    let start = if c == '+' {
        lo + 1
    } else {
        lo
    };
    assert(s@.subrange(start as int, hi as int) =~= if c == '+' {
        sub.skip(1)
    } else {
        sub
    });
    let r = parse_digits(s, start, hi, 4294967295);
    proof {
        let body = s@.subrange(start as int, hi as int);
        if body.len() > 0 && all_digits(body) {
            lemma_digits_value_nonneg(body);
        }
    }
    match r {
        Some(v) => Some(v as u32),
        None => None,
    }
}

} // verus!
