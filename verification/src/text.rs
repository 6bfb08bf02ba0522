use vstd::prelude::*;

verus! {

/// Relies on String::push from std: appends one character to the string.
pub assume_specification[ String::push ](s: &mut String, c: char)
    ensures
        final(s)@ == old(s)@.push(c),
;

pub open spec fn is_digit(c: char) -> bool {
    '0' <= c && c <= '9'
}

pub open spec fn digit_char(d: int) -> char {
    ((d + 48) as u8) as char
}

pub open spec fn digit_val(c: char) -> int {
    (c as int) - 48
}

/// The decimal digit string of `n`, most significant digit first.
pub open spec fn dec_digits(n: int) -> Seq<char>
    decreases n,
{
    if n < 10 {
        seq![digit_char(n)]
    } else {
        dec_digits(n / 10) + seq![digit_char(n % 10)]
    }
}

pub open spec fn all_digits(s: Seq<char>) -> bool {
    forall|i: int| 0 <= i < s.len() ==> is_digit(s[i])
}

/// The number a digit string denotes, most significant digit first.
pub open spec fn dec_val(s: Seq<char>) -> int
    decreases s.len(),
{
    if s.len() == 0 {
        0
    } else {
        dec_val(s.drop_last()) * 10 + digit_val(s.last())
    }
}

/// The digit part of a decimal string: everything after an optional
/// leading '+'.
pub open spec fn dec_body(s: Seq<char>) -> Seq<char> {
    if s.len() > 0 && s[0] == '+' {
        s.drop_first()
    } else {
        s
    }
}

/// What an unsigned decimal parse accepts: an optional leading '+', then at
/// least one digit, denoting a value no greater than `max`.
pub open spec fn parsed_dec(s: Seq<char>, max: int) -> Option<int> {
    if dec_body(s).len() > 0 && all_digits(dec_body(s)) && dec_val(dec_body(s)) <= max {
        Some(dec_val(dec_body(s)))
    } else {
        None
    }
}

pub proof fn lemma_dec_val_nonneg(s: Seq<char>)
    requires
        all_digits(s),
    ensures
        dec_val(s) >= 0,
    decreases s.len(),
{
    if s.len() > 0 {
        assert(all_digits(s.drop_last())) by {
            assert(forall|i: int|
                0 <= i < s.drop_last().len() ==> s.drop_last()[i] == s[i] && is_digit(s[i]));
        }
        lemma_dec_val_nonneg(s.drop_last());
    }
}

/// Appending digits never shrinks the denoted value.
pub proof fn lemma_dec_val_prefix_le(s: Seq<char>, j: int)
    requires
        all_digits(s),
        0 <= j <= s.len(),
    ensures
        dec_val(s.take(j)) <= dec_val(s),
    decreases s.len() - j,
{
    if j < s.len() {
        lemma_dec_val_prefix_le(s, j + 1);
        let t = s.take(j + 1);
        assert(t.drop_last() =~= s.take(j));
        assert(all_digits(s.take(j))) by {
            assert(forall|i: int| 0 <= i < j ==> s.take(j)[i] == s[i] && is_digit(s[i]));
        }
        lemma_dec_val_nonneg(s.take(j));
        assert(dec_val(t) == dec_val(s.take(j)) * 10 + digit_val(s[j]));
        assert(dec_val(s.take(j)) <= dec_val(s.take(j)) * 10) by (nonlinear_arith)
            requires
                dec_val(s.take(j)) >= 0,
        ;
        assert(digit_val(s[j]) >= 0);
    } else {
        assert(s.take(j) =~= s);
    }
}

/// Decimal rendering of a number as a `String`, digits only, no sign.
pub fn u64_to_string(n: u64) -> (r: String)
    ensures
        r@ == dec_digits(n as int),
        r@.len() > 0,
{
    let mut digits: Vec<char> = Vec::new();
    let mut m: u64 = n;
    loop
        invariant_except_break
            dec_digits(n as int) =~= dec_digits(m as int) + digits@.reverse(),
        ensures
            dec_digits(n as int) =~= digits@.reverse(),
            digits@.len() > 0,
        decreases m,
    {
        let ghost prev = digits@;
        let d: u64 = m % 10;
        let c: char = ((d + 48) as u8) as char;
        assert(c == digit_char(d as int));
        digits.push(c);
        assert(digits@.reverse() =~= seq![c] + prev.reverse());
        if m < 10 {
            assert(dec_digits(m as int) == seq![c]);
            assert(dec_digits(n as int) =~= digits@.reverse());
            break ;
        }
        m = m / 10;
        assert(dec_digits(n as int) =~= dec_digits(m as int) + digits@.reverse());
    }
    let ghost full = digits@.reverse();
    let mut r = String::new();
    let mut i: usize = digits.len();
    while i > 0
        invariant
            i <= digits@.len(),
            full == digits@.reverse(),
            r@ =~= full.take(digits@.len() - i),
        decreases i,
    {
        i = i - 1;
        let c = digits[i];
        assert(c == full[digits@.len() - 1 - i]);
        r.push(c);
        assert(r@ =~= full.take(digits@.len() - i));
    }
    assert(r@ =~= full);
    r
}

pub fn u32_to_string(n: u32) -> (r: String)
    ensures
        r@ == dec_digits(n as int),
        r@.len() > 0,
{
    u64_to_string(n as u64)
}

/// Parse an unsigned decimal number, accepting what `parsed_dec` accepts.
pub fn parse_u64(s: &str) -> (r: Option<u64>)
    ensures
        r is Some ==> parsed_dec(s@, u64::MAX as int) == Some(r->0 as int),
        r is None ==> parsed_dec(s@, u64::MAX as int) is None,
{
    let n = s.unicode_len();
    let mut start: usize = 0;
    if n > 0 && s.get_char(0) == '+' {
        start = 1;
    }
    let ghost body = dec_body(s@);
    assert(body =~= s@.subrange(start as int, n as int));
    if start == n {
        return None;
    }
    let mut acc: u64 = 0;
    let mut i: usize = start;
    while i < n
        invariant
            start <= i <= n,
            n == s@.len(),
            start == 0 || start == 1,
            body == dec_body(s@),
            body =~= s@.subrange(start as int, n as int),
            all_digits(body.take(i - start)),
            acc as int == dec_val(body.take(i - start)),
        decreases n - i,
    {
        let c = s.get_char(i);
        proof {
            assert(body[i - start] == c);
        }
        if !(c >= '0' && c <= '9') {
            proof {
                assert(!is_digit(body[i - start]));
                assert(!all_digits(body));
                assert(parsed_dec(s@, u64::MAX as int) is None);
            }
            return None;
        }
        let d: u64 = (c as u32 - 48) as u64;
        assert(d as int == digit_val(c) && d <= 9);
        if acc > (u64::MAX - d) / 10 {
            proof {
                let t = body.take(i - start + 1);
                assert(t.drop_last() =~= body.take(i - start));
                assert(t.last() == c);
                assert(dec_val(t) == acc as int * 10 + digit_val(c));
                assert(acc as int * 10 + d as int > u64::MAX as int) by (nonlinear_arith)
                    requires
                        acc as int > ((u64::MAX as int - d) / 10 as int),
                        0 <= d <= 9,
                        acc <= u64::MAX,
                ;
                if all_digits(body) {
                    lemma_dec_val_prefix_le(body, i - start + 1);
                    assert(dec_val(body) > u64::MAX as int);
                }
                assert(parsed_dec(s@, u64::MAX as int) is None);
            }
            return None;
        }
        proof {
            assert(acc as int * 10 + d <= u64::MAX as int) by (nonlinear_arith)
                requires
                    acc as int <= ((u64::MAX as int - d) / 10 as int),
                    0 <= d <= 9,
            ;
        }
        let next = acc * 10 + d;
        proof {
            let t = body.take(i - start + 1);
            assert(t.drop_last() =~= body.take(i - start));
            assert(t.last() == c);
            assert(next as int == dec_val(t));
            assert(all_digits(t)) by {
                assert(forall|k: int|
                    0 <= k < t.len() ==> t[k] == body.take(i - start + 1)[k]);
            }
        }
        acc = next;
        i += 1;
    }
    proof {
        assert(body.take(n - start) =~= body);
    }
    Some(acc)
}

pub fn parse_u32(s: &str) -> (r: Option<u32>)
    ensures
        match r {
            Some(v) => parsed_dec(s@, u32::MAX as int) == Some(v as int),
            None => parsed_dec(s@, u32::MAX as int) is None,
        },
{
    match parse_u64(s) {
        Some(v) => {
            if v <= u32::MAX as u64 {
                Some(v as u32)
            } else {
                None
            }
        },
        None => None,
    }
}

pub open spec fn hex_digit(d: int) -> char {
    if d < 10 {
        digit_char(d)
    } else {
        ((d + 87) as u8) as char
    }
}

/// Lower-case hexadecimal rendering of a byte sequence, two digits per byte.
pub open spec fn hex_of(bytes: Seq<u8>) -> Seq<char>
    decreases bytes.len(),
{
    if bytes.len() == 0 {
        Seq::empty()
    } else {
        hex_of(bytes.drop_last()) + seq![
            hex_digit(bytes.last() as int / 16),
            hex_digit(bytes.last() as int % 16),
        ]
    }
}

pub fn to_hex(bytes: &Vec<u8>) -> (r: String)
    ensures
        r@ == hex_of(bytes@),
{
    let mut r = String::new();
    let mut i: usize = 0;
    while i < bytes.len()
        invariant
            i <= bytes@.len(),
            r@ =~= hex_of(bytes@.take(i as int)),
        decreases bytes@.len() - i,
    {
        let b = bytes[i];
        let hi: u8 = b / 16;
        let lo: u8 = b % 16;
        let c1: char = if hi < 10 {
            (hi + 48) as char
        } else {
            (hi + 87) as char
        };
        let c2: char = if lo < 10 {
            (lo + 48) as char
        } else {
            (lo + 87) as char
        };
        assert(c1 == hex_digit(b as int / 16));
        assert(c2 == hex_digit(b as int % 16));
        r.push(c1);
        r.push(c2);
        proof {
            let t = bytes@.take(i + 1);
            assert(t.drop_last() =~= bytes@.take(i as int));
            assert(t.last() == b);
        }
        i += 1;
        assert(r@ =~= hex_of(bytes@.take(i as int)));
    }
    proof {
        assert(bytes@.take(bytes@.len() as int) =~= bytes@);
    }
    r
}

/// What follows the last occurrence of `sep`, or the whole string when `sep`
/// does not occur.
pub open spec fn last_segment(s: Seq<char>, sep: char) -> Seq<char>
    decreases s.len(),
{
    if s.len() == 0 {
        s
    } else if s.last() == sep {
        Seq::empty()
    } else {
        last_segment(s.drop_last(), sep).push(s.last())
    }
}

pub proof fn lemma_last_segment_no_sep(s: Seq<char>, sep: char)
    requires
        forall|j: int| 0 <= j < s.len() ==> s[j] != sep,
    ensures
        last_segment(s, sep) =~= s,
    decreases s.len(),
{
    if s.len() > 0 {
        lemma_last_segment_no_sep(s.drop_last(), sep);
    }
}

pub proof fn lemma_last_segment_after_sep(s: Seq<char>, sep: char, k: int)
    requires
        0 <= k < s.len(),
        s[k] == sep,
        forall|j: int| k < j < s.len() ==> s[j] != sep,
    ensures
        last_segment(s, sep) =~= s.skip(k + 1),
    decreases s.len(),
{
    if k == s.len() - 1 {
        assert(s.last() == sep);
    } else {
        lemma_last_segment_after_sep(s.drop_last(), sep, k);
        assert(s.drop_last().skip(k + 1) =~= s.skip(k + 1).drop_last());
    }
}

/// The substring after the last occurrence of `sep`, or a copy of the whole
/// string when `sep` does not occur.
pub fn last_segment_of(s: &str, sep: char) -> (r: String)
    ensures
        r@ == last_segment(s@, sep),
{
    let n = s.unicode_len();
    let mut i: usize = n;
    while i > 0
        invariant
            i <= n,
            n == s@.len(),
            forall|j: int| i <= j < n ==> s@[j] != sep,
        decreases i,
    {
        if s.get_char(i - 1) == sep {
            proof {
                lemma_last_segment_after_sep(s@, sep, i - 1);
            }
            let seg = s.substring_char(i, n);
            return seg.to_owned();
        }
        i = i - 1;
    }
    proof {
        lemma_last_segment_no_sep(s@, sep);
    }
    s.to_owned()
}

pub fn parse_u8(s: &str) -> (r: Option<u8>)
    ensures
        match r {
            Some(v) => parsed_dec(s@, u8::MAX as int) == Some(v as int),
            None => parsed_dec(s@, u8::MAX as int) is None,
        },
{
    match parse_u64(s) {
        Some(v) => {
            if v <= u8::MAX as u64 {
                Some(v as u8)
            } else {
                None
            }
        },
        None => None,
    }
}


/// Character-for-character string equality.
pub fn str_eq(a: &str, b: &str) -> (r: bool)
    ensures
        r == (a@ == b@),
{
    let n = a.unicode_len();
    if n != b.unicode_len() {
        assert(a@.len() != b@.len());
        return false;
    }
    let mut i: usize = 0;
    while i < n
        invariant
            i <= n,
            n == a@.len(),
            n == b@.len(),
            forall|j: int| 0 <= j < i ==> a@[j] == b@[j],
        decreases n - i,
    {
        if a.get_char(i) != b.get_char(i) {
            assert(a@[i as int] != b@[i as int]);
            return false;
        }
        i += 1;
    }
    proof {
        assert(a@ =~= b@);
    }
    true
}

} // verus!
