//! Character and decimal-digit helpers shared by the codec, the SQL
//! statement builders and the schema JSON form.
use vstd::prelude::*;

verus! {

/// Relies on std's `String::push`: appends one character at the end.
pub assume_specification[ String::push ](s: &mut String, ch: char)
    ensures
        final(s)@ == old(s)@.push(ch),
;

pub open spec fn is_digit_char(c: char) -> bool {
    '0' <= c && c <= '9'
}

pub open spec fn digit_val(c: char) -> nat {
    (c as int - '0' as int) as nat
}

pub open spec fn digit_char(d: nat) -> char {
    (d + '0' as int) as char
}

pub open spec fn all_digits(s: Seq<char>) -> bool {
    forall|i: int| 0 <= i < s.len() ==> is_digit_char(#[trigger] s[i])
}

/// Numeric value of a run of decimal digits, most significant first.
pub open spec fn digits_value(s: Seq<char>) -> nat
    decreases s.len(),
{
    if s.len() == 0 {
        0
    } else {
        digits_value(s.drop_last()) * 10 + digit_val(s.last())
    }
}

/// Canonical decimal notation of `n`: no sign, no leading zero except for 0.
pub open spec fn dec_digits(n: nat) -> Seq<char>
    decreases n,
{
    if n < 10 {
        seq![digit_char(n)]
    } else {
        dec_digits(n / 10).push(digit_char(n % 10))
    }
}

pub open spec fn min_cap(v: nat, cap: nat) -> nat {
    if v < cap {
        v
    } else {
        cap
    }
}

pub proof fn lemma_dec_digits_wf(n: nat)
    ensures
        dec_digits(n).len() >= 1,
        all_digits(dec_digits(n)),
        n >= 1 ==> dec_digits(n)[0] != '0',
        n < 10 ==> dec_digits(n).len() == 1,
    decreases n,
{
    if n >= 10 {
        lemma_dec_digits_wf(n / 10);
    }
}

pub proof fn lemma_dec_digits_value(n: nat)
    ensures
        digits_value(dec_digits(n)) == n,
    decreases n,
{
    if n < 10 {
        assert(dec_digits(n).drop_last() =~= Seq::<char>::empty());
        assert(digits_value(dec_digits(n)) == digits_value(Seq::<char>::empty()) * 10 + digit_val(
            digit_char(n),
        ));
    } else {
        lemma_dec_digits_value(n / 10);
        assert(dec_digits(n).drop_last() == dec_digits(n / 10));
        assert(digits_value(dec_digits(n)) == (n / 10) * 10 + digit_val(digit_char(n % 10)));
    }
}

/// Extending a digit run on the right never lowers its value.
pub proof fn lemma_digits_value_prefix(s: Seq<char>, k: int)
    requires
        0 <= k <= s.len(),
    ensures
        digits_value(s.subrange(0, k)) <= digits_value(s),
    decreases s.len() - k,
{
    if k < s.len() {
        let t = s.subrange(0, k + 1);
        assert(t.drop_last() == s.subrange(0, k));
        assert(digits_value(t) == digits_value(s.subrange(0, k)) * 10 + digit_val(t.last()));
        lemma_digits_value_prefix(s, k + 1);
        assert(s.subrange(0, s.len() as int) == s);
    } else {
        assert(s.subrange(0, s.len() as int) == s);
    }
}

/// Appends the canonical decimal notation of `n` to `out`.
pub fn push_u64_digits(n: u64, out: &mut String)
    ensures
        final(out)@ == old(out)@ + dec_digits(n as nat),
    decreases n,
{
    if n >= 10 {
        push_u64_digits(n / 10, out);
    }
    let d: u8 = (n % 10) as u8;
    let zero: u8 = '0' as u8;
    let c: char = (zero + d) as char;
    out.push(c);
    proof {
        assert(c == digit_char((n % 10) as nat));
        if n < 10 {
            assert(dec_digits(n as nat) == seq![digit_char(n as nat)]);
            assert(old(out)@ + dec_digits(n as nat) == old(out)@.push(digit_char(n as nat)));
        } else {
            assert((old(out)@ + dec_digits((n / 10) as nat)).push(c) == old(out)@ + dec_digits(
                (n / 10) as nat,
            ).push(c));
        }
    }
}

/// Canonical decimal `String` of `n`.
pub fn u64_to_string(n: u64) -> (r: String)
    ensures
        r@ == dec_digits(n as nat),
{
    let mut s = String::new();
    push_u64_digits(n, &mut s);
    proof {
        assert(Seq::<char>::empty() + dec_digits(n as nat) == dec_digits(n as nat));
    }
    s
}

/// Canonical decimal `String` of `n`.
pub fn u32_to_string(n: u32) -> (r: String)
    ensures
        r@ == dec_digits(n as nat),
{
    u64_to_string(n as u64)
}

/// Scans the run of decimal digits in `s` that starts at `from`; returns the
/// index just past the run together with the run's value capped at `cap`.
pub fn scan_digits_capped(s: &str, from: usize, cap: u64) -> (r: (usize, u64))
    requires
        from <= s@.len(),
        s@.len() <= usize::MAX,
        10 <= cap,
    ensures
        from <= r.0 <= s@.len(),
        all_digits(s@.subrange(from as int, r.0 as int)),
        r.0 < s@.len() ==> !is_digit_char(s@[r.0 as int]),
        r.1 == min_cap(digits_value(s@.subrange(from as int, r.0 as int)), cap as nat),
{
    let n = s.unicode_len();
    let mut i = from;
    let mut acc: u64 = 0;
    while i < n
        invariant
            from <= i <= n == s@.len() <= usize::MAX,
            10 <= cap,
            all_digits(s@.subrange(from as int, i as int)),
            acc == min_cap(digits_value(s@.subrange(from as int, i as int)), cap as nat),
            acc <= cap,
        decreases n - i,
    {
        let c = s.get_char(i);
        if !(c >= '0' && c <= '9') {
            return (i, acc);
        }
        let d: u64 = (c as u32 - '0' as u32) as u64;
        proof {
            let pre = s@.subrange(from as int, i as int);
            let cur = s@.subrange(from as int, i + 1 as int);
            assert(cur.drop_last() == pre);
            assert(cur.last() == s@[i as int]);
            assert(digits_value(cur) == digits_value(pre) * 10 + d);
        }
        let ghost v_pre = digits_value(s@.subrange(from as int, i as int));
        let ghost v_cur = digits_value(s@.subrange(from as int, i + 1 as int));
        if acc > (cap - d) / 10 {
            // The run's value already exceeds the cap and can only grow.
            proof {
                if v_pre < cap as nat {
                    assert(acc == v_pre);
                    assert(v_pre * 10 + d > cap) by (nonlinear_arith)
                        requires
                            v_pre > (cap - d) / 10,
                            d <= 9,
                            cap >= 10,
                    ;
                } else {
                    assert(acc == cap);
                    assert(v_pre * 10 + d > cap) by (nonlinear_arith)
                        requires
                            v_pre >= cap,
                            cap >= 10,
                    ;
                }
            }
            acc = cap;
        } else {
            proof {
                assert(acc * 10 + d <= cap) by (nonlinear_arith)
                    requires
                        acc <= (cap - d) / 10,
                        d <= cap,
                ;
                if v_pre >= cap as nat {
                    assert(v_pre * 10 + d >= cap) by (nonlinear_arith)
                        requires
                            v_pre >= cap,
                    ;
                }
            }
            acc = acc * 10 + d;
        }
        i = i + 1;
    }
    (i, acc)
}

/// A dash or underscore turned into a space; other characters unchanged.
pub open spec fn space_subst(c: char) -> char {
    if c == '-' || c == '_' {
        ' '
    } else {
        c
    }
}

pub open spec fn ascii_upper(c: char) -> char {
    if 'a' <= c && c <= 'z' {
        (c as int - 32) as char
    } else {
        c
    }
}

pub open spec fn ascii_lower(c: char) -> char {
    if 'A' <= c && c <= 'Z' {
        (c as int + 32) as char
    } else {
        c
    }
}

pub open spec fn ascii_lower_seq(s: Seq<char>) -> Seq<char> {
    s.map(|_i: int, c: char| ascii_lower(c))
}

/// Lower-cases the ASCII letters of `s`, leaving every other character as
/// it stands.
pub fn to_ascii_lower(s: &str) -> (r: String)
    ensures
        r@ == ascii_lower_seq(s@),
{
    let n = s.unicode_len();
    let mut out = String::new();
    let mut i: usize = 0;
    while i < n
        invariant
            0 <= i <= n == s@.len(),
            out@ == ascii_lower_seq(s@.subrange(0, i as int)),
        decreases n - i,
    {
        let c0 = s.get_char(i);
        let c1 = if c0 >= 'A' && c0 <= 'Z' {
            (c0 as u8 + 32) as char
        } else {
            c0
        };
        out.push(c1);
        proof {
            assert(c1 == ascii_lower(s@[i as int]));
            let pre = s@.subrange(0, i as int);
            let cur = s@.subrange(0, i + 1 as int);
            assert(ascii_lower_seq(cur) =~= ascii_lower_seq(pre).push(ascii_lower(s@[i as int])));
        }
        i = i + 1;
    }
    proof {
        assert(s@.subrange(0, s@.len() as int) == s@);
    }
    out
}

/// Index of the first occurrence of `c` in `s`, or -1.
pub open spec fn find_char(s: Seq<char>, c: char) -> int
    decreases s.len(),
{
    if s.len() == 0 {
        -1
    } else if s[0] == c {
        0
    } else {
        let r = find_char(s.subrange(1, s.len() as int), c);
        if r == -1 {
            -1
        } else {
            r + 1
        }
    }
}

/// `find_char` returns the position of the first occurrence.
pub proof fn lemma_find_char_at(s: Seq<char>, c: char, k: int)
    requires
        0 <= k < s.len(),
        s[k] == c,
        forall|j: int| 0 <= j < k ==> s[j] != c,
    ensures
        find_char(s, c) == k,
    decreases s.len(),
{
    if k > 0 {
        let t = s.subrange(1, s.len() as int);
        lemma_find_char_at(t, c, k - 1);
    }
}

/// `find_char` returns -1 exactly when the character does not occur.
pub proof fn lemma_find_char_none(s: Seq<char>, c: char)
    requires
        forall|j: int| 0 <= j < s.len() ==> s[j] != c,
    ensures
        find_char(s, c) == -1,
    decreases s.len(),
{
    if s.len() > 0 {
        let t = s.subrange(1, s.len() as int);
        lemma_find_char_none(t, c);
    }
}

/// Splits `s` at the first occurrence of `sep`, which is dropped; the
/// notation helpers use it for `name=value` pairs.
pub fn split_at_char(s: &str, sep: char) -> (r: Option<(String, String)>)
    ensures
        match r {
            Some(p) => {
                let k = find_char(s@, sep);
                &&& k >= 0
                &&& p.0@ == s@.subrange(0, k)
                &&& p.1@ == s@.subrange(k + 1, s@.len() as int)
            },
            None => find_char(s@, sep) == -1,
        },
{
    let n = s.unicode_len();
    let mut i: usize = 0;
    while i < n
        invariant
            0 <= i <= n == s@.len(),
            forall|j: int| 0 <= j < i ==> s@[j] != sep,
        decreases n - i,
    {
        if s.get_char(i) == sep {
            proof {
                lemma_find_char_at(s@, sep, i as int);
            }
            let head = s.substring_char(0, i).to_owned();
            let tail = s.substring_char(i + 1, n).to_owned();
            return Some((head, tail));
        }
        i = i + 1;
    }
    proof {
        lemma_find_char_none(s@, sep);
    }
    None
}

/// The digit run of a signed integer literal, the optional sign stripped.
pub open spec fn int_literal_digits(s: Seq<char>) -> Seq<char> {
    if s.len() > 0 && (s[0] == '+' || s[0] == '-') {
        s.subrange(1, s.len() as int)
    } else {
        s
    }
}

/// An optional sign followed by one or more decimal digits.
pub open spec fn is_int_literal(s: Seq<char>) -> bool {
    s.len() > 0 && int_literal_digits(s).len() > 0 && all_digits(int_literal_digits(s))
}

pub open spec fn int_literal_value(s: Seq<char>) -> int
    recommends
        is_int_literal(s),
{
    if s.len() > 0 && s[0] == '-' {
        -(digits_value(int_literal_digits(s)) as int)
    } else {
        digits_value(int_literal_digits(s)) as int
    }
}

/// Parses a signed decimal integer, accepting exactly the literals whose
/// value fits in an `i64`.
pub fn parse_i64(s: &str) -> (r: Option<i64>)
    ensures
        match r {
            Some(v) => is_int_literal(s@) && v == int_literal_value(s@),
            None => !(is_int_literal(s@) && i64::MIN <= int_literal_value(s@) <= i64::MAX),
        },
{
    let n = s.unicode_len();
    if n == 0 {
        return None;
    }
    let c0 = s.get_char(0);
    let neg = c0 == '-';
    let start: usize = if c0 == '-' || c0 == '+' {
        1
    } else {
        0
    };
    if start == n {
        // A bare sign has no digits.
        return None;
    }
    let cap: u64 = 9223372036854775809u64;
    let (end, mag) = scan_digits_capped(s, start, cap);
    let ghost digits = int_literal_digits(s@);
    proof {
        assert(digits == s@.subrange(start as int, n as int));
    }
    if end < n {
        // Stopped on a character that is not a digit.
        proof {
            assert(!is_digit_char(digits[end - start]));
        }
        return None;
    }
    proof {
        assert(s@.subrange(start as int, end as int) == digits);
        lemma_dec_digits_value(0);
    }
    if mag == cap {
        // The magnitude exceeds 2^63, out of range for either sign.
        proof {
            assert(digits_value(digits) >= cap);
        }
        return None;
    }
    proof {
        assert(mag == digits_value(digits));
    }
    if neg {
        if mag == 9223372036854775808u64 {
            Some(i64::MIN)
        } else {
            Some(-(mag as i64))
        }
    } else {
        if mag >= 9223372036854775808u64 {
            None
        } else {
            Some(mag as i64)
        }
    }
}

/// The body of a decimal literal, the optional sign stripped.
pub open spec fn decimal_body(s: Seq<char>) -> Seq<char> {
    if s.len() > 0 && (s[0] == '+' || s[0] == '-') {
        s.subrange(1, s.len() as int)
    } else {
        s
    }
}

/// `k` splits `b` into a non-empty digit run and, unless `k` is the end, a
/// dot followed by a non-empty digit run.
pub open spec fn decimal_parts_ok(b: Seq<char>, k: int) -> bool {
    &&& 0 < k <= b.len()
    &&& all_digits(b.subrange(0, k))
    &&& (k == b.len() || (b[k] == '.' && k + 1 < b.len() && all_digits(
        b.subrange(k + 1, b.len() as int),
    )))
}

/// An optional sign, digits, and an optional dot with further digits.
pub open spec fn is_decimal_literal(s: Seq<char>) -> bool {
    exists|k: int| decimal_parts_ok(decimal_body(s), k)
}

/// The split point of a decimal literal body is unique: it is the first dot,
/// or the end when there is none.
pub proof fn lemma_decimal_split_unique(b: Seq<char>, k1: int, k2: int)
    requires
        decimal_parts_ok(b, k1),
        decimal_parts_ok(b, k2),
    ensures
        k1 == k2,
{
    if k1 < k2 {
        assert(is_digit_char(b.subrange(0, k2)[k1]));
    }
    if k2 < k1 {
        assert(is_digit_char(b.subrange(0, k1)[k2]));
    }
}

/// Value of the digits before the dot.
pub open spec fn decimal_int_part(s: Seq<char>) -> nat {
    let b = decimal_body(s);
    let k = choose|k: int| decimal_parts_ok(b, k);
    digits_value(b.subrange(0, k))
}

/// Whether any digit after the dot is non-zero.
pub open spec fn decimal_frac_nonzero(s: Seq<char>) -> bool {
    let b = decimal_body(s);
    let k = choose|k: int| decimal_parts_ok(b, k);
    k < b.len() && digits_value(b.subrange(k + 1, b.len() as int)) != 0
}

/// Whether the literal denotes a value strictly below zero.
pub open spec fn decimal_is_negative(s: Seq<char>) -> bool {
    s.len() > 0 && s[0] == '-' && (decimal_int_part(s) != 0 || decimal_frac_nonzero(s))
}

/// What `parse_decimal` reports of a decimal literal: its sign, its integer
/// part capped at 2^32, and whether its fraction is all zeros.
pub struct DecimalParts {
    pub sign_negative: bool,
    pub int_capped: u64,
    pub frac_zero: bool,
}

/// Recognizes a decimal literal and reports the pieces that bound checks
/// against `u32` limits need.
pub fn parse_decimal(s: &str) -> (r: Option<DecimalParts>)
    ensures
        r.is_some() <==> is_decimal_literal(s@),
        match r {
            Some(p) => {
                &&& p.sign_negative == (s@[0] == '-')
                &&& p.int_capped == min_cap(decimal_int_part(s@), 0x1_0000_0000)
                &&& p.frac_zero == !decimal_frac_nonzero(s@)
            },
            None => true,
        },
{
    let n = s.unicode_len();
    if n == 0 {
        return None;
    }
    let c0 = s.get_char(0);
    let start: usize = if c0 == '-' || c0 == '+' {
        1
    } else {
        0
    };
    let ghost b = decimal_body(s@);
    proof {
        assert(b == s@.subrange(start as int, n as int));
    }
    if start == n {
        // A bare sign has no digits.
        proof {
            assert(forall|k: int| !decimal_parts_ok(b, k));
        }
        return None;
    }
    let cap: u64 = 0x1_0000_0000u64;
    let (e1, v1) = scan_digits_capped(s, start, cap);
    if e1 == start {
        // The body must open with a digit.
        proof {
            assert forall|k: int| !decimal_parts_ok(b, k) by {
                if decimal_parts_ok(b, k) {
                    assert(is_digit_char(b.subrange(0, k)[0]));
                }
            }
        }
        return None;
    }
    proof {
        assert(b.subrange(0, e1 - start) == s@.subrange(start as int, e1 as int));
    }
    if e1 == n {
        // Digits only: the split point is the end of the body.
        proof {
            assert(decimal_parts_ok(b, e1 - start));
            lemma_decimal_split_unique(b, e1 - start, choose|k: int| decimal_parts_ok(b, k));
        }
        return Some(
            DecimalParts { sign_negative: c0 == '-', int_capped: v1, frac_zero: true },
        );
    }
    let cdot = s.get_char(e1);
    if cdot != '.' {
        // Stopped on a character that is neither a digit nor a dot.
        proof {
            assert forall|k: int| !decimal_parts_ok(b, k) by {
                if decimal_parts_ok(b, k) {
                    if k + start < e1 {
                        assert(is_digit_char(b[k]));
                        assert(b[k] == '.' || k == b.len());
                    } else if k + start == e1 {
                        assert(b[k] == s@[e1 as int]);
                    } else {
                        assert(is_digit_char(b.subrange(0, k)[e1 - start]));
                    }
                }
            }
        }
        return None;
    }
    if e1 + 1 == n {
        // A trailing dot with no fraction digits.
        proof {
            assert forall|k: int| !decimal_parts_ok(b, k) by {
                if decimal_parts_ok(b, k) {
                    if k + start < e1 {
                        assert(is_digit_char(b[k]));
                        assert(b[k] == '.' || k == b.len());
                    } else if k + start == e1 {
                        assert(k + 1 < b.len());
                    } else {
                        assert(is_digit_char(b.subrange(0, k)[e1 - start]));
                    }
                }
            }
        }
        return None;
    }
    let (e2, v2) = scan_digits_capped(s, e1 + 1, cap);
    if e2 < n {
        // The fraction stopped before the end of the literal.
        proof {
            assert forall|k: int| !decimal_parts_ok(b, k) by {
                if decimal_parts_ok(b, k) {
                    if k + start < e1 {
                        assert(is_digit_char(b[k]));
                        assert(b[k] == '.' || k == b.len());
                    } else if k + start == e1 {
                        let frac = b.subrange(k + 1, b.len() as int);
                        if e2 == e1 + 1 {
                            assert(is_digit_char(frac[0]));
                            assert(frac[0] == s@[e2 as int]);
                        } else {
                            assert(is_digit_char(frac[e2 - e1 - 1]));
                            assert(frac[e2 - e1 - 1] == s@[e2 as int]);
                        }
                    } else {
                        assert(is_digit_char(b.subrange(0, k)[e1 - start]));
                    }
                }
            }
        }
        return None;
    }
    proof {
        assert(b.subrange(e1 - start + 1, b.len() as int) == s@.subrange(e1 + 1 as int, n as int));
        assert(decimal_parts_ok(b, e1 - start));
        lemma_decimal_split_unique(b, e1 - start, choose|k: int| decimal_parts_ok(b, k));
    }
    Some(DecimalParts { sign_negative: c0 == '-', int_capped: v1, frac_zero: v2 == 0 })
}

/// Character-wise string equality usable in contracts over views.
pub fn str_eq(a: &str, b: &str) -> (r: bool)
    ensures
        r == (a@ == b@),
{
    let na = a.unicode_len();
    let nb = b.unicode_len();
    if na != nb {
        return false;
    }
    let mut i: usize = 0;
    while i < na
        invariant
            0 <= i <= na,
            na == a@.len(),
            na == b@.len(),
            forall|j: int| 0 <= j < i ==> a@[j] == b@[j],
        decreases na - i,
    {
        if a.get_char(i) != b.get_char(i) {
            return false;
        }
        i = i + 1;
    }
    proof {
        assert(a@ =~= b@);
    }
    true
}

} // verus!
