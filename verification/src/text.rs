use vstd::prelude::*;
use vstd::arithmetic::div_mod::lemma_fundamental_div_mod;

verus! {

/// Character-for-character equality of two string slices.
pub fn str_eq(a: &str, b: &str) -> (r: bool)
    ensures
        r == (a@ == b@),
{
    let na = a.unicode_len();
    let nb = b.unicode_len();
    if na != nb {
        proof {
            if a@ == b@ {
                assert(a@.len() == b@.len());
            }
        }
        return false;
    }
    let mut i: usize = 0;
    while i < na
        invariant
            na == a@.len(),
            na == b@.len(),
            i <= na,
            forall|j: int| 0 <= j < i ==> a@[j] == b@[j],
        decreases na - i,
    {
        if a.get_char(i) != b.get_char(i) {
            proof {
                if a@ == b@ {
                    assert(a@[i as int] == b@[i as int]);
                }
            }
            return false;
        }
        i = i + 1;
    }
    proof {
        assert(a@ =~= b@);
    }
    true
}

/// `needle` occurs contiguously somewhere inside `hay`. The empty needle
/// occurs in every string.
pub open spec fn has_substr(hay: Seq<char>, needle: Seq<char>) -> bool {
    exists|i: int|
        0 <= i && i + needle.len() <= hay.len() && #[trigger] hay.subrange(i, i + needle.len())
            == needle
}

/// `needle` occurs in `hay` starting at character position `i`.
fn match_at(hay: &str, needle: &str, i: usize, m: usize) -> (r: bool)
    requires
        m == needle@.len(),
        i + m <= hay@.len(),
        hay@.len() <= usize::MAX,
    ensures
        r == (hay@.subrange(i as int, i as int + needle@.len() as int) == needle@),
{
    let mut k: usize = 0;
    while k < m
        invariant
            m == needle@.len(),
            i + m <= hay@.len(),
            hay@.len() <= usize::MAX,
            k <= m,
            forall|q: int| 0 <= q < k ==> hay@[i + q] == needle@[q],
        decreases m - k,
    {
        if hay.get_char(i + k) != needle.get_char(k) {
            proof {
                let sub = hay@.subrange(i as int, i as int + m as int);
                assert(sub[k as int] == hay@[i as int + k as int]);
            }
            return false;
        }
        k = k + 1;
    }
    proof {
        assert(hay@.subrange(i as int, i as int + m as int) =~= needle@);
    }
    true
}

/// Substring search: true exactly when `needle` occurs inside `hay`.
/// Used for the free-text tag filter, where an empty filter matches all.
pub fn contains_substr(hay: &str, needle: &str) -> (r: bool)
    ensures
        r == has_substr(hay@, needle@),
{
    let n = hay.unicode_len();
    let m = needle.unicode_len();
    if m > n {
        proof {
            assert(!has_substr(hay@, needle@));
        }
        return false;
    }
    if m == 0 {
        proof {
            assert(hay@.subrange(0, 0) =~= needle@);
            assert(hay@.subrange(0, 0 + needle@.len() as int) == needle@);
        }
        return true;
    }
    let mut i: usize = 0;
    while i <= n - m
        invariant
            n == hay@.len(),
            m == needle@.len(),
            0 < m <= n,
            i <= n - m + 1,
            forall|p: int| 0 <= p < i ==> #[trigger] hay@.subrange(p, p + m as int) != needle@,
        decreases n - i,
    {
        if match_at(hay, needle, i, m) {
            proof {
                assert(has_substr(hay@, needle@)) by {
                    assert(hay@.subrange(i as int, i as int + m as int) == needle@);
                }
            }
            return true;
        }
        i = i + 1;
    }
    proof {
        assert forall|p: int| 0 <= p && p + needle@.len() <= hay@.len() implies #[trigger] hay@
            .subrange(p, p + needle@.len()) != needle@ by {
            assert(p < i);
        }
    }
    false
}

/// A decimal digit.
pub open spec fn is_digit(c: char) -> bool {
    48 <= c as int && c as int <= 57
}

/// The numeric value of a decimal digit character.
pub open spec fn digit_val(c: char) -> nat {
    (c as int - 48) as nat
}

/// Every character of `s` is a decimal digit.
pub open spec fn all_digits(s: Seq<char>) -> bool {
    forall|i: int| 0 <= i < s.len() ==> is_digit(#[trigger] s[i])
}

/// The value of a digit string read in base ten.
pub open spec fn dec_val(s: Seq<char>) -> nat
    decreases s.len(),
{
    if s.len() == 0 {
        0
    } else {
        dec_val(s.drop_last()) * 10 + digit_val(s.last())
    }
}

/// A longer digit string is worth at least as much as any of its prefixes.
proof fn lemma_dec_val_prefix(s: Seq<char>, i: int)
    requires
        0 <= i <= s.len(),
    ensures
        dec_val(s) >= dec_val(s.subrange(0, i)),
    decreases s.len(),
{
    if i == s.len() {
        assert(s.subrange(0, i) =~= s);
    } else {
        assert(s.drop_last().subrange(0, i) =~= s.subrange(0, i));
        lemma_dec_val_prefix(s.drop_last(), i);
    }
}

/// Reads the digit run of `s` that starts at position `start`, in base ten.
/// Succeeds exactly when the run is non-empty, all digits, and its value
/// fits in a `u128`.
fn parse_digits(s: &str, start: usize) -> (r: Option<u128>)
    requires
        start <= s@.len(),
        s@.len() <= usize::MAX,
    ensures
        match r {
            Some(v) => {
                let digits = s@.skip(start as int);
                &&& digits.len() > 0
                &&& all_digits(digits)
                &&& dec_val(digits) <= u128::MAX
                &&& v == dec_val(digits)
            },
            None => {
                let digits = s@.skip(start as int);
                digits.len() == 0 || !all_digits(digits) || dec_val(digits) > u128::MAX
            },
        },
{
    let n = s.unicode_len();
    if start == n {
        return None;
    }
    let ghost digits = s@.skip(start as int);
    let mut acc: u128 = 0;
    let mut i: usize = start;
    while i < n
        invariant
            n == s@.len(),
            start <= i <= n,
            digits == s@.skip(start as int),
            forall|j: int| start <= j < i ==> is_digit(#[trigger] s@[j]),
            acc == dec_val(s@.subrange(start as int, i as int)),
        decreases n - i,
    {
        let c = s.get_char(i);
        let u = c as u32;
        if u < 48 || u > 57 {
            proof {
                assert(digits[i - start] == s@[i as int]);
                assert(!is_digit(s@[i as int]));
            }
            return None;
        }
        let d: u128 = (u - 48) as u128;
        proof {
            let pre = s@.subrange(start as int, i as int);
            let ext = s@.subrange(start as int, i as int + 1);
            assert(ext.drop_last() =~= pre);
            assert(ext.last() == s@[i as int]);
            lemma_fundamental_div_mod(u128::MAX as int - d as int, 10);
        }
        if acc > (u128::MAX - d) / 10 {
            proof {
                let ext = s@.subrange(start as int, i as int + 1);
                assert(dec_val(ext) > u128::MAX);
                assert(digits.subrange(0, i + 1 - start as int) =~= ext);
                lemma_dec_val_prefix(digits, i + 1 - start as int);
            }
            return None;
        }
        acc = acc * 10 + d;
        i = i + 1;
    }
    proof {
        assert(s@.subrange(start as int, n as int) =~= digits);
    }
    Some(acc)
}

/// The value `str::parse::<u128>` would read from `s`: an optional leading
/// plus sign, then one or more decimal digits, in range for the type.
pub open spec fn parse_u128_spec(s: Seq<char>) -> Option<u128> {
    let digits = if s.len() > 0 && s[0] == '+' {
        s.drop_first()
    } else {
        s
    };
    if digits.len() > 0 && all_digits(digits) && dec_val(digits) <= u128::MAX {
        Some(dec_val(digits) as u128)
    } else {
        None
    }
}

/// Reads an unsigned 128-bit integer from its decimal string form, as the
/// session cookie carries it. Any malformed or out-of-range input is
/// rejected.
pub fn parse_u128(s: &str) -> (r: Option<u128>)
    ensures
        r == parse_u128_spec(s@),
{
    let n = s.unicode_len();
    let start: usize = if n > 0 && s.get_char(0) == '+' {
        1
    } else {
        0
    };
    proof {
        if start == 1 {
            assert(s@.skip(1) =~= s@.drop_first());
        } else {
            assert(s@.skip(0) =~= s@);
        }
    }
    parse_digits(s, start)
}

/// The value `str::parse::<i64>` would read from `s`: an optional sign,
/// then one or more decimal digits, in range for the type.
pub open spec fn parse_i64_spec(s: Seq<char>) -> Option<i64> {
    let neg = s.len() > 0 && s[0] == '-';
    let digits = if s.len() > 0 && (s[0] == '-' || s[0] == '+') {
        s.drop_first()
    } else {
        s
    };
    if digits.len() > 0 && all_digits(digits) {
        if neg {
            if dec_val(digits) <= i64::MAX as nat + 1 {
                Some((0 - dec_val(digits) as int) as i64)
            } else {
                None
            }
        } else {
            if dec_val(digits) <= i64::MAX as nat {
                Some(dec_val(digits) as i64)
            } else {
                None
            }
        }
    } else {
        None
    }
}

/// Reads a signed 64-bit integer from its decimal string form, as numeric
/// article ids appear in request paths.
pub fn parse_i64(s: &str) -> (r: Option<i64>)
    ensures
        r == parse_i64_spec(s@),
{
    let n = s.unicode_len();
    let mut neg = false;
    let mut start: usize = 0;
    if n > 0 {
        let c = s.get_char(0);
        if c == '-' {
            neg = true;
            start = 1;
        } else if c == '+' {
            start = 1;
        }
    }
    proof {
        if start == 1 {
            assert(s@.skip(1) =~= s@.drop_first());
        } else {
            assert(s@.skip(0) =~= s@);
        }
    }
    match parse_digits(s, start) {
        None => None,
        Some(v) => {
            if neg {
                if v <= i64::MAX as u128 {
                    Some(0i64 - (v as i64))
                } else if v == i64::MAX as u128 + 1 {
                    Some(i64::MIN)
                } else {
                    None
                }
            } else {
                if v <= i64::MAX as u128 {
                    Some(v as i64)
                } else {
                    None
                }
            }
        },
    }
}

/// The one-character string of a decimal digit.
fn digit_str(d: u128) -> (r: &'static str)
    requires
        d < 10,
    ensures
        r@.len() == 1,
        is_digit(r@[0]),
        digit_val(r@[0]) == d,
{
    proof {
        reveal_strlit("0");
        reveal_strlit("1");
        reveal_strlit("2");
        reveal_strlit("3");
        reveal_strlit("4");
        reveal_strlit("5");
        reveal_strlit("6");
        reveal_strlit("7");
        reveal_strlit("8");
        reveal_strlit("9");
    }
    if d == 0 {
        "0"
    } else if d == 1 {
        "1"
    } else if d == 2 {
        "2"
    } else if d == 3 {
        "3"
    } else if d == 4 {
        "4"
    } else if d == 5 {
        "5"
    } else if d == 6 {
        "6"
    } else if d == 7 {
        "7"
    } else if d == 8 {
        "8"
    } else {
        "9"
    }
}

/// Renders an unsigned 128-bit integer in its canonical decimal form —
/// the string a session cookie carries. The result has no leading zero
/// and parses back to exactly the rendered value.
pub fn u128_to_dec(n: u128) -> (r: String)
    ensures
        r@.len() >= 1,
        all_digits(r@),
        dec_val(r@) == n,
        r@[0] == '0' ==> r@.len() == 1,
        parse_u128_spec(r@) == Some(n),
    decreases n,
{
    if n < 10 {
        let s = digit_str(n).to_owned();
        proof {
            assert(s@.drop_last() =~= Seq::<char>::empty());
            assert(dec_val(Seq::<char>::empty()) == 0);
            assert(dec_val(s@) == digit_val(s@[0]));
        }
        s
    } else {
        let head = u128_to_dec(n / 10);
        let tail = digit_str(n % 10);
        let r = head.concat(tail);
        proof {
            lemma_fundamental_div_mod(n as int, 10);
            assert(r@.drop_last() =~= head@);
            assert(r@.last() == tail@[0]);
            assert(dec_val(r@) == dec_val(head@) * 10 + digit_val(tail@[0]));
            assert(r@[0] == head@[0]);
            if r@[0] == '0' {
                assert(head@.len() == 1);
                assert(head@.drop_last() =~= Seq::<char>::empty());
                assert(dec_val(Seq::<char>::empty()) == 0);
                assert(dec_val(head@) == digit_val(head@[0]));
                assert(false);
            }
        }
        r
    }
}

} // verus!
