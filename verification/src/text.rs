//! The character-level grammar shared by the field codecs: decimal and hex
//! digits, signed integer text, float text, and comma-separated lists.

use vstd::prelude::*;

use crate::error::GfaError;

verus! {

// ---------------------------------------------------------------------------
// Characters
// ---------------------------------------------------------------------------

/// A decimal digit character.
pub open spec fn is_dec_digit(c: char) -> bool {
    '0' <= c && c <= '9'
}

/// A lowercase hexadecimal digit character, the only form this crate's hex
/// codec emits and accepts.
pub open spec fn is_hex_digit(c: char) -> bool {
    is_dec_digit(c) || ('a' <= c && c <= 'f')
}

/// The numeric value of a lowercase hex digit character.
pub open spec fn hex_val(c: char) -> u32 {
    if is_dec_digit(c) {
        (c as u32 - '0' as u32) as u32
    } else {
        (c as u32 - 'a' as u32 + 10) as u32
    }
}

/// The lowercase hex digit character of a nibble value below 16.
pub open spec fn hex_char(d: u32) -> char {
    if d == 0 { '0' }
    else if d == 1 { '1' }
    else if d == 2 { '2' }
    else if d == 3 { '3' }
    else if d == 4 { '4' }
    else if d == 5 { '5' }
    else if d == 6 { '6' }
    else if d == 7 { '7' }
    else if d == 8 { '8' }
    else if d == 9 { '9' }
    else if d == 10 { 'a' }
    else if d == 11 { 'b' }
    else if d == 12 { 'c' }
    else if d == 13 { 'd' }
    else if d == 14 { 'e' }
    else { 'f' }
}

/// A hex digit character denotes a nibble value, and the two maps are
/// mutually inverse.
pub proof fn lemma_hex_char_val(c: char)
    requires
        is_hex_digit(c),
    ensures
        hex_val(c) < 16,
        hex_char(hex_val(c)) == c,
{
}

pub proof fn lemma_hex_val_char(d: u32)
    requires
        d < 16,
    ensures
        is_hex_digit(hex_char(d)),
        hex_val(hex_char(d)) == d,
        d < 10 <==> is_dec_digit(hex_char(d)),
{
}

pub fn hex_char_exec(d: u32) -> (c: char)
    requires
        d < 16,
    ensures
        c == hex_char(d),
{
    match d {
        0 => '0',
        1 => '1',
        2 => '2',
        3 => '3',
        4 => '4',
        5 => '5',
        6 => '6',
        7 => '7',
        8 => '8',
        9 => '9',
        10 => 'a',
        11 => 'b',
        12 => 'c',
        13 => 'd',
        14 => 'e',
        _ => 'f',
    }
}

pub fn hex_val_exec(c: char) -> (d: u32)
    requires
        is_hex_digit(c),
    ensures
        d == hex_val(c),
        d < 16,
{
    let u = c as u32;
    if u >= 97 {
        u - 97 + 10
    } else {
        u - 48
    }
}

pub fn is_dec_digit_exec(c: char) -> (b: bool)
    ensures
        b == is_dec_digit(c),
{
    let u = c as u32;
    48 <= u && u <= 57
}

pub fn is_hex_digit_exec(c: char) -> (b: bool)
    ensures
        b == is_hex_digit(c),
{
    let u = c as u32;
    (48 <= u && u <= 57) || (97 <= u && u <= 102)
}

// ---------------------------------------------------------------------------
// Decimal rendering
// ---------------------------------------------------------------------------

/// The decimal text of a natural number, most significant digit first, with
/// no leading zeros (and `"0"` for zero).
pub open spec fn dec_text(n: nat) -> Seq<char>
    decreases n,
{
    if n < 10 {
        seq![hex_char(n as u32)]
    } else {
        dec_text(n / 10) + seq![hex_char((n % 10) as u32)]
    }
}

/// The decimal text of an integer: a `-` before the magnitude when negative.
pub open spec fn int_text(i: int) -> Seq<char> {
    if i < 0 {
        seq!['-'] + dec_text((-i) as nat)
    } else {
        dec_text(i as nat)
    }
}

/// The value of a string of decimal digit characters.
pub open spec fn dec_val(s: Seq<char>) -> int
    decreases s.len(),
{
    if s.len() == 0 {
        0
    } else {
        dec_val(s.drop_last()) * 10 + hex_val(s.last())
    }
}

pub open spec fn all_dec_digits(s: Seq<char>) -> bool {
    forall|i: int| 0 <= i < s.len() ==> is_dec_digit(#[trigger] s[i])
}

/// Text that denotes a signed integer: an optional `-`, then one or more
/// decimal digits.
pub open spec fn valid_int_text(s: Seq<char>) -> bool {
    if s.len() > 0 && s[0] == '-' {
        s.len() > 1 && all_dec_digits(s.skip(1))
    } else {
        s.len() > 0 && all_dec_digits(s)
    }
}

/// The integer denoted by text satisfying `valid_int_text`.
pub open spec fn int_val(s: Seq<char>) -> int {
    if s.len() > 0 && s[0] == '-' {
        -dec_val(s.skip(1))
    } else {
        dec_val(s)
    }
}

pub open spec fn in_i64(v: int) -> bool {
    i64::MIN <= v <= i64::MAX
}

/// Int text this crate itself emits: no leading zeros and no `-0`.
pub open spec fn canonical_int_text(s: Seq<char>) -> bool {
    let mag = if s.len() > 0 && s[0] == '-' { s.skip(1) } else { s };
    &&& valid_int_text(s)
    &&& (mag.len() > 1 ==> mag[0] != '0')
    &&& (s.len() > 0 && s[0] == '-' ==> mag != seq!['0'])
}

/// Rendering a natural number gives nonempty digit text whose value is the
/// number again, with no leading zero unless the number is zero.
pub proof fn lemma_dec_text_val(n: nat)
    ensures
        dec_text(n).len() >= 1,
        all_dec_digits(dec_text(n)),
        dec_val(dec_text(n)) == n,
        n >= 10 ==> dec_text(n).len() >= 2,
        dec_text(n)[0] != '0' || n == 0,
    decreases n,
{
    if n < 10 {
        lemma_hex_val_char(n as u32);
        let t = dec_text(n);
        assert(t =~= seq![hex_char(n as u32)]);
        assert(t.drop_last() =~= Seq::<char>::empty());
        assert(t.last() == hex_char(n as u32));
        assert(dec_val(t) == dec_val(Seq::<char>::empty()) * 10 + hex_val(hex_char(n as u32)));
    } else {
        lemma_dec_text_val(n / 10);
        lemma_hex_val_char((n % 10) as u32);
        let p = dec_text(n / 10);
        let t = dec_text(n);
        assert(t == p + seq![hex_char((n % 10) as u32)]);
        assert(t.drop_last() =~= p);
        assert(t.last() == hex_char((n % 10) as u32));
        assert(dec_val(t) == dec_val(p) * 10 + (n % 10));
        vstd::arithmetic::div_mod::lemma_fundamental_div_mod(n as int, 10);
        assert(forall|i: int| 0 <= i < t.len() ==> is_dec_digit(#[trigger] t[i])) by {
            assert(forall|i: int| 0 <= i < p.len() ==> t[i] == #[trigger] p[i]);
        }
        assert(t[0] == p[0]);
    }
}

/// Rendering an `i64` gives valid, canonical int text whose value is the
/// integer again.
pub proof fn lemma_int_text_val(i: int)
    ensures
        valid_int_text(int_text(i)),
        canonical_int_text(int_text(i)),
        int_val(int_text(i)) == i,
{
    if i < 0 {
        lemma_dec_text_val((-i) as nat);
        let t = int_text(i);
        assert(t[0] == '-');
        assert(t.skip(1) =~= dec_text((-i) as nat));
        assert(dec_text((-i) as nat)[0] != '0');
        assert(t.skip(1) != seq!['0']) by {
            assert(seq!['0'][0] == '0');
        }
    } else {
        lemma_dec_text_val(i as nat);
        let t = int_text(i);
        assert(is_dec_digit(t[0]));
        assert(t[0] != '-');
    }
}

/// A nonempty digit string without a leading zero has a positive value.
pub proof fn lemma_dec_val_pos(s: Seq<char>)
    requires
        s.len() >= 1,
        all_dec_digits(s),
        s[0] != '0',
    ensures
        dec_val(s) >= 1,
    decreases s.len(),
{
    if s.len() == 1 {
        assert(s.drop_last() =~= Seq::<char>::empty());
        assert(s.last() == s[0]);
        assert(hex_val(s[0]) >= 1);
        assert(dec_val(s) == dec_val(Seq::<char>::empty()) * 10 + hex_val(s[0]));
    } else {
        let p = s.drop_last();
        assert(p[0] == s[0]);
        assert(forall|i: int| 0 <= i < p.len() ==> is_dec_digit(#[trigger] p[i])) by {
            assert(forall|i: int| 0 <= i < p.len() ==> p[i] == #[trigger] s[i]);
        }
        lemma_dec_val_pos(p);
        assert(hex_val(s.last()) >= 0);
    }
}

/// A digit string's value is nonnegative.
pub proof fn lemma_dec_val_nonneg(s: Seq<char>)
    requires
        all_dec_digits(s),
    ensures
        dec_val(s) >= 0,
    decreases s.len(),
{
    if s.len() > 0 {
        let p = s.drop_last();
        assert(forall|i: int| 0 <= i < p.len() ==> is_dec_digit(#[trigger] p[i])) by {
            assert(forall|i: int| 0 <= i < p.len() ==> p[i] == #[trigger] s[i]);
        }
        lemma_dec_val_nonneg(p);
        assert(hex_val(s.last()) >= 0);
    }
}

/// Decimal digit text without leading zeros is the unique rendering of its
/// value.
pub proof fn lemma_dec_text_unique(s: Seq<char>)
    requires
        s.len() >= 1,
        all_dec_digits(s),
        s.len() > 1 ==> s[0] != '0',
    ensures
        dec_text(dec_val(s) as nat) == s,
    decreases s.len(),
{
    lemma_dec_val_nonneg(s);
    let c = s.last();
    let d = hex_val(c);
    lemma_hex_char_val(c);
    if s.len() == 1 {
        assert(s.drop_last() =~= Seq::<char>::empty());
        assert(s.last() == s[0]);
        assert(dec_val(s) == dec_val(Seq::<char>::empty()) * 10 + d);
        assert(dec_val(s) == d);
        assert(dec_text(d as nat) =~= s);
    } else {
        let p = s.drop_last();
        assert(p[0] == s[0]);
        assert(forall|i: int| 0 <= i < p.len() ==> is_dec_digit(#[trigger] p[i])) by {
            assert(forall|i: int| 0 <= i < p.len() ==> p[i] == #[trigger] s[i]);
        }
        lemma_dec_val_pos(p);
        lemma_dec_text_unique(p);
        let v = dec_val(s);
        assert(v == dec_val(p) * 10 + d);
        vstd::arithmetic::div_mod::lemma_fundamental_div_mod_converse(
            v, 10, dec_val(p), d as int);
        assert(v / 10 == dec_val(p));
        assert(v % 10 == d);
        assert(v >= 10) by {
            assert(dec_val(p) * 10 >= 10) by (nonlinear_arith)
                requires dec_val(p) >= 1;
        }
        assert(dec_text(v as nat) == dec_text((v / 10) as nat) + seq![hex_char((v % 10) as u32)]);
        assert(dec_text(v as nat) =~= s);
    }
}

/// Canonical int text is the unique rendering of its value.
pub proof fn lemma_int_text_unique(s: Seq<char>)
    requires
        canonical_int_text(s),
    ensures
        int_text(int_val(s)) == s,
{
    if s.len() > 0 && s[0] == '-' {
        let mag = s.skip(1);
        lemma_dec_text_unique(mag);
        lemma_dec_val_nonneg(mag);
        if dec_val(mag) == 0 {
            assert(dec_text(0) =~= seq!['0']);
            assert(mag == seq!['0']);
            assert(false);
        }
        assert(int_val(s) == -dec_val(mag));
        assert(int_text(int_val(s)) == seq!['-'] + dec_text(dec_val(mag) as nat));
        assert(seq!['-'] + mag =~= s);
    } else {
        lemma_dec_text_unique(s);
        lemma_dec_val_nonneg(s);
    }
}

// ---------------------------------------------------------------------------
// Character pushing (the one outside call of this crate)
// ---------------------------------------------------------------------------

/// Relies on `String::push`: appends the given character to the end of the
/// string.
#[verifier::external_body]
pub(crate) fn push_char(s: &mut String, c: char)
    ensures
        final(s)@ == old(s)@.push(c),
{
    s.push(c);
}

// ---------------------------------------------------------------------------
// Decimal rendering, executable
// ---------------------------------------------------------------------------

/// Renders a `u64` as decimal text.
pub fn render_u64(n: u64) -> (s: String)
    ensures
        s@ == dec_text(n as nat),
    decreases n,
{
    let d = hex_char_exec((n % 10) as u32);
    if n < 10 {
        let mut s = String::new();
        push_char(&mut s, d);
        proof {
            assert(s@ =~= dec_text(n as nat));
        }
        s
    } else {
        let mut s = render_u64(n / 10);
        push_char(&mut s, d);
        proof {
            assert(s@ =~= dec_text(n as nat));
        }
        s
    }
}

/// Renders an `i64` as decimal text with an optional leading `-`.
pub fn render_i64(i: i64) -> (s: String)
    ensures
        s@ == int_text(i as int),
{
    if i >= 0 {
        render_u64(i as u64)
    } else {
        let mag: u64 = if i == i64::MIN {
            9223372036854775808u64
        } else {
            (-i) as u64
        };
        let mut s = String::new();
        push_char(&mut s, '-');
        let t = render_u64(mag);
        s.append(t.as_str());
        proof {
            assert(s@ =~= int_text(i as int));
        }
        s
    }
}

// ---------------------------------------------------------------------------
// Decimal parsing, executable
// ---------------------------------------------------------------------------

/// Reads the decimal digits of `s` at positions `[from, to)` as a number;
/// `None` reports a value past `u64::MAX`.
fn parse_dec_range(s: &str, from: usize, to: usize) -> (r: Option<u64>)
    requires
        from <= to <= s@.len(),
        forall|j: int| from <= j < to ==> is_dec_digit(#[trigger] s@[j]),
    ensures
        match r {
            Some(v) => v == dec_val(s@.subrange(from as int, to as int)),
            None => dec_val(s@.subrange(from as int, to as int)) > u64::MAX,
        },
{
    let mut acc: u64 = 0;
    let mut over = false;
    let mut i = from;
    proof {
        assert(s@.subrange(from as int, from as int) =~= Seq::<char>::empty());
    }
    while i < to
        invariant
            from <= i <= to <= s@.len(),
            forall|j: int| from <= j < to ==> is_dec_digit(#[trigger] s@[j]),
            over ==> dec_val(s@.subrange(from as int, i as int)) > u64::MAX,
            !over ==> acc == dec_val(s@.subrange(from as int, i as int)),
        decreases to - i,
    {
        let c = s.get_char(i);
        let d = hex_val_exec(c) as u64;
        proof {
            let p = s@.subrange(from as int, i as int);
            let q = s@.subrange(from as int, i as int + 1);
            assert(q.drop_last() =~= p);
            assert(q.last() == s@[i as int]);
            assert(dec_val(q) == dec_val(p) * 10 + d);
        }
        if over {
        } else if acc > 1844674407370955161u64 || (acc == 1844674407370955161u64 && d > 5) {
            over = true;
            proof {
                let p = s@.subrange(from as int, i as int);
                assert(dec_val(p) * 10 + d > u64::MAX) by (nonlinear_arith)
                    requires
                        dec_val(p) == acc,
                        acc > 1844674407370955161u64 || (acc == 1844674407370955161u64 && d > 5),
                        d >= 0;
            }
        } else {
            proof {
                let p = s@.subrange(from as int, i as int);
                assert(dec_val(p) * 10 + d <= u64::MAX) by (nonlinear_arith)
                    requires
                        dec_val(p) == acc,
                        0 <= acc <= 1844674407370955161u64,
                        0 <= d,
                        acc == 1844674407370955161u64 ==> d <= 5,
                        d < 16;
            }
            acc = acc * 10 + d;
        }
        i = i + 1;
    }
    if over {
        None
    } else {
        Some(acc)
    }
}

/// Parses signed decimal text as an `i64`; rejected are texts that do not
/// match the grammar and values outside the `i64` range.
pub fn parse_i64(s: &str) -> (r: Result<i64, GfaError>)
    ensures
        r == (if valid_int_text(s@) && in_i64(int_val(s@)) {
            Ok::<i64, GfaError>(int_val(s@) as i64)
        } else {
            Err::<i64, GfaError>(GfaError::MalformedValue)
        }),
{
    let n = s.unicode_len();
    let neg = n > 0 && s.get_char(0) == '-';
    let start: usize = if neg { 1 } else { 0 };
    if n == start {
        return Err(GfaError::MalformedValue);
    }
    let mut i = start;
    while i < n
        invariant
            start <= i <= n,
            0 < n == s@.len(),
            neg == (s@[0] == '-'),
            start == (if neg { 1usize } else { 0usize }),
            forall|j: int| start <= j < i ==> is_dec_digit(#[trigger] s@[j]),
        decreases n - i,
    {
        let c = s.get_char(i);
        if !is_dec_digit_exec(c) {
            proof {
                if neg {
                    assert(s@.skip(1)[i - 1] == s@[i as int]);
                } else {
                    assert(!all_dec_digits(s@));
                }
            }
            return Err(GfaError::MalformedValue);
        }
        i = i + 1;
    }
    proof {
        if neg {
            assert(all_dec_digits(s@.skip(1))) by {
                assert(forall|j: int| 0 <= j < s@.skip(1).len() ==> s@.skip(1)[j] == #[trigger] s@[j + 1]);
            }
            assert(s@.skip(1) =~= s@.subrange(start as int, n as int));
        } else {
            assert(s@ =~= s@.subrange(start as int, n as int));
        }
        assert(valid_int_text(s@));
    }
    match parse_dec_range(s, start, n) {
        None => {
            proof {
                assert(!in_i64(int_val(s@)));
            }
            Err(GfaError::MalformedValue)
        },
        Some(v) => {
            if neg {
                if v > 9223372036854775808u64 {
                    Err(GfaError::MalformedValue)
                } else if v == 9223372036854775808u64 {
                    Ok(i64::MIN)
                } else {
                    Ok(-(v as i64))
                }
            } else {
                if v > 9223372036854775807u64 {
                    Err(GfaError::MalformedValue)
                } else {
                    Ok(v as i64)
                }
            }
        },
    }
}

// ---------------------------------------------------------------------------
// Scanning and the float grammar
// ---------------------------------------------------------------------------

/// The first position at or after `from` that does not hold a decimal digit.
pub open spec fn digits_end(s: Seq<char>, from: int) -> int
    recommends
        0 <= from <= s.len(),
    decreases s.len() - from,
{
    if from < s.len() && is_dec_digit(s[from]) {
        digits_end(s, from + 1)
    } else {
        from
    }
}

pub proof fn lemma_digits_end(s: Seq<char>, from: int)
    requires
        0 <= from <= s.len(),
    ensures
        from <= digits_end(s, from) <= s.len(),
        forall|j: int| from <= j < digits_end(s, from) ==> is_dec_digit(#[trigger] s[j]),
        digits_end(s, from) < s.len() ==> !is_dec_digit(s[digits_end(s, from)]),
    decreases s.len() - from,
{
    if from < s.len() && is_dec_digit(s[from]) {
        lemma_digits_end(s, from + 1);
    }
}

/// The first position at or after `from` that holds a `:`, or the length
/// when there is none.
pub open spec fn colon_end(s: Seq<char>, from: int) -> int
    recommends
        0 <= from <= s.len(),
    decreases s.len() - from,
{
    if from < s.len() && s[from] != ':' {
        colon_end(s, from + 1)
    } else {
        from
    }
}

pub proof fn lemma_colon_end(s: Seq<char>, from: int)
    requires
        0 <= from <= s.len(),
    ensures
        from <= colon_end(s, from) <= s.len(),
        forall|j: int| from <= j < colon_end(s, from) ==> #[trigger] s[j] != ':',
        colon_end(s, from) < s.len() ==> s[colon_end(s, from)] == ':',
    decreases s.len() - from,
{
    if from < s.len() && s[from] != ':' {
        lemma_colon_end(s, from + 1);
    }
}

/// Where the text before `k` is colon-free and `k` holds a colon (or is the
/// end), the scan stops exactly at `k`.
pub proof fn lemma_colon_end_is(s: Seq<char>, from: int, k: int)
    requires
        0 <= from <= k <= s.len(),
        forall|j: int| from <= j < k ==> #[trigger] s[j] != ':',
        k < s.len() ==> s[k] == ':',
    ensures
        colon_end(s, from) == k,
    decreases k - from,
{
    if from < k {
        lemma_colon_end_is(s, from + 1, k);
    }
}

/// Finds the first `:` of `s`, or its length when there is none.
pub fn scan_colon(s: &str) -> (k: usize)
    ensures
        k <= s@.len(),
        k == colon_end(s@, 0),
{
    let n = s.unicode_len();
    let mut i: usize = 0;
    while i < n
        invariant
            i <= n == s@.len(),
            colon_end(s@, 0) == colon_end(s@, i as int),
        decreases n - i,
    {
        let c = s.get_char(i);
        if c == ':' {
            return i;
        }
        i = i + 1;
    }
    i
}

/// Text that denotes a float: an optional `-`, one or more digits, then
/// optionally a `.` followed by one or more digits. This pins the decode
/// grammar down exactly; scientific notation and non-finite spellings are
/// outside it.
pub open spec fn valid_float_text(s: Seq<char>) -> bool {
    let a: int = if s.len() > 0 && s[0] == '-' { 1 } else { 0 };
    let k = digits_end(s, a);
    &&& k > a
    &&& (k == s.len() || (s[k] == '.' && k + 1 < s.len() && digits_end(s, k + 1) == s.len()))
}

/// Every character of valid float text is a digit, `-` or `.`.
pub proof fn lemma_float_text_chars(s: Seq<char>)
    requires
        valid_float_text(s),
    ensures
        forall|j: int| 0 <= j < s.len() ==> (is_dec_digit(#[trigger] s[j]) || s[j] == '-' || s[j] == '.'),
{
    let a: int = if s.len() > 0 && s[0] == '-' { 1 } else { 0 };
    let k = digits_end(s, a);
    lemma_digits_end(s, a);
    if k < s.len() {
        lemma_digits_end(s, k + 1);
    }
}

/// Every character of valid int text is a digit or `-`.
pub proof fn lemma_int_text_chars(s: Seq<char>)
    requires
        valid_int_text(s),
    ensures
        forall|j: int| 0 <= j < s.len() ==> (is_dec_digit(#[trigger] s[j]) || s[j] == '-'),
{
    if s.len() > 0 && s[0] == '-' {
        assert(forall|j: int| 1 <= j < s.len() ==> s.skip(1)[j - 1] == #[trigger] s[j]);
    }
}

/// Field text may not contain a tab or newline: those delimit fields and
/// lines in the wire format.
pub open spec fn text_ok(s: Seq<char>) -> bool {
    forall|j: int| 0 <= j < s.len() ==> #[trigger] s[j] != '\t' && s[j] != '\n'
}

pub fn check_text_ok(s: &str, from: usize) -> (b: bool)
    requires
        from <= s@.len(),
    ensures
        b == text_ok(s@.skip(from as int)),
{
    let n = s.unicode_len();
    let mut i = from;
    while i < n
        invariant
            from <= i <= n == s@.len(),
            forall|j: int| from <= j < i ==> #[trigger] s@[j] != '\t' && s@[j] != '\n',
        decreases n - i,
    {
        let c = s.get_char(i);
        if c == '\t' || c == '\n' {
            proof {
                assert(s@.skip(from as int)[i - from] == s@[i as int]);
            }
            return false;
        }
        i = i + 1;
    }
    proof {
        assert(forall|j: int| 0 <= j < s@.skip(from as int).len()
            ==> #[trigger] s@.skip(from as int)[j] == s@[j + from]);
    }
    true
}

fn scan_digits(s: &str, from: usize) -> (k: usize)
    requires
        from <= s@.len(),
    ensures
        from <= k <= s@.len(),
        k == digits_end(s@, from as int),
{
    let n = s.unicode_len();
    let mut i = from;
    while i < n
        invariant
            from <= i <= n == s@.len(),
            digits_end(s@, from as int) == digits_end(s@, i as int),
        decreases n - i,
    {
        let c = s.get_char(i);
        if !is_dec_digit_exec(c) {
            return i;
        }
        i = i + 1;
    }
    i
}

/// Checks the characters of `s` from position `from` on against the float
/// grammar.
pub fn check_float(s: &str) -> (b: bool)
    ensures
        b == valid_float_text(s@),
{
    let n = s.unicode_len();
    let start: usize = if n > 0 && s.get_char(0) == '-' { 1 } else { 0 };
    let k = scan_digits(s, start);
    if k == start {
        return false;
    }
    if k == n {
        return true;
    }
    if s.get_char(k) != '.' {
        return false;
    }
    if k + 1 >= n {
        return false;
    }
    let m = scan_digits(s, k + 1);
    m == n
}

// ---------------------------------------------------------------------------
// Hexadecimal digit strings
// ---------------------------------------------------------------------------

/// Every element is a nibble value below 16.
pub open spec fn all_nibbles(b: Seq<u32>) -> bool {
    forall|i: int| 0 <= i < b.len() ==> #[trigger] b[i] < 16
}

pub open spec fn all_hex_digits(s: Seq<char>) -> bool {
    forall|j: int| 0 <= j < s.len() ==> is_hex_digit(#[trigger] s[j])
}

/// The hex text of a nibble sequence, one lowercase digit per nibble.
pub open spec fn hex_text(b: Seq<u32>) -> Seq<char>
    decreases b.len(),
{
    if b.len() == 0 {
        Seq::empty()
    } else {
        hex_text(b.drop_last()).push(hex_char(b.last()))
    }
}

/// The nibble values of a hex digit string.
pub open spec fn hex_vals(s: Seq<char>) -> Seq<u32> {
    s.map_values(|c: char| hex_val(c))
}

/// Rendering nibbles as hex text and reading the digits back restores the
/// nibbles.
pub proof fn lemma_hex_round_trip(b: Seq<u32>)
    requires
        all_nibbles(b),
    ensures
        hex_text(b).len() == b.len(),
        all_hex_digits(hex_text(b)),
        hex_vals(hex_text(b)) == b,
    decreases b.len(),
{
    if b.len() > 0 {
        let p = b.drop_last();
        assert(forall|i: int| 0 <= i < p.len() ==> #[trigger] p[i] == b[i]);
        assert(all_nibbles(p));
        lemma_hex_round_trip(p);
        lemma_hex_val_char(b.last());
        let t = hex_text(b);
        let tp = hex_text(p);
        assert(t == tp.push(hex_char(b.last())));
        assert forall|j: int| 0 <= j < b.len() implies #[trigger] hex_vals(t)[j] == b[j] by {
            assert(hex_vals(t)[j] == hex_val(t[j]));
            if j < p.len() {
                assert(t[j] == tp[j]);
                assert(hex_vals(tp)[j] == hex_val(tp[j]));
                assert(hex_vals(tp)[j] == p[j]);
            } else {
                assert(t[j] == hex_char(b.last()));
            }
        }
        assert(hex_vals(hex_text(b)) =~= b);
    } else {
        assert(hex_vals(hex_text(b)) =~= b);
    }
}

/// Hex text is the unique rendering of its nibble values.
pub proof fn lemma_hex_unique(s: Seq<char>)
    requires
        all_hex_digits(s),
    ensures
        hex_text(hex_vals(s)) == s,
    decreases s.len(),
{
    if s.len() > 0 {
        let p = s.drop_last();
        assert(forall|i: int| 0 <= i < p.len() ==> #[trigger] p[i] == s[i]);
        lemma_hex_unique(p);
        lemma_hex_char_val(s.last());
        assert(hex_vals(s).drop_last() =~= hex_vals(p));
        assert(hex_vals(s).last() == hex_val(s.last()));
        assert(hex_text(hex_vals(s)) =~= s);
    } else {
        assert(hex_text(hex_vals(s)) =~= s);
    }
}

/// Renders nibbles as hex text.
pub fn render_hex(b: &Vec<u32>) -> (s: String)
    requires
        all_nibbles(b@),
    ensures
        s@ == hex_text(b@),
{
    let mut s = String::new();
    let mut i: usize = 0;
    proof {
        assert(b@.take(0) =~= Seq::<u32>::empty());
    }
    while i < b.len()
        invariant
            i <= b@.len(),
            all_nibbles(b@),
            s@ == hex_text(b@.take(i as int)),
        decreases b@.len() - i,
    {
        let c = hex_char_exec(b[i]);
        push_char(&mut s, c);
        proof {
            let q = b@.take(i as int + 1);
            assert(q.drop_last() =~= b@.take(i as int));
            assert(q.last() == b@[i as int]);
        }
        i = i + 1;
    }
    proof {
        assert(b@.take(b@.len() as int) =~= b@);
    }
    s
}

/// Reads hex text as its nibble values; any character that is not a
/// lowercase hex digit is rejected.
pub fn parse_hex(s: &str) -> (r: Result<Vec<u32>, GfaError>)
    ensures
        match r {
            Ok(v) => all_hex_digits(s@) && v@ == hex_vals(s@) && all_nibbles(v@),
            Err(e) => !all_hex_digits(s@) && e == GfaError::MalformedValue,
        },
{
    let n = s.unicode_len();
    let mut v: Vec<u32> = Vec::new();
    let mut i: usize = 0;
    proof {
        assert(v@ =~= hex_vals(s@.take(0)));
    }
    while i < n
        invariant
            i <= n == s@.len(),
            forall|j: int| 0 <= j < i ==> is_hex_digit(#[trigger] s@[j]),
            v@ == hex_vals(s@.take(i as int)),
            all_nibbles(v@),
        decreases n - i,
    {
        let c = s.get_char(i);
        if !is_hex_digit_exec(c) {
            return Err(GfaError::MalformedValue);
        }
        let d = hex_val_exec(c);
        v.push(d);
        proof {
            assert(v@ =~= hex_vals(s@.take(i as int + 1)));
        }
        i = i + 1;
    }
    proof {
        assert(s@.take(n as int) =~= s@);
    }
    Ok(v)
}

// ---------------------------------------------------------------------------
// Comma-separated lists
// ---------------------------------------------------------------------------

/// The comma-separated tokens of `s`, splitting on every `,`. Empty text is
/// one empty token; there is always at least one token.
pub open spec fn split_commas(s: Seq<char>) -> Seq<Seq<char>>
    decreases s.len(),
{
    if s.len() == 0 {
        seq![Seq::<char>::empty()]
    } else if s.last() == ',' {
        split_commas(s.drop_last()).push(Seq::<char>::empty())
    } else {
        let r = split_commas(s.drop_last());
        r.update(r.len() - 1, r.last().push(s.last()))
    }
}

pub proof fn lemma_split_commas_len(s: Seq<char>)
    ensures
        split_commas(s).len() >= 1,
    decreases s.len(),
{
    if s.len() > 0 {
        lemma_split_commas_len(s.drop_last());
    }
}

/// Joins tokens with a `,` between each neighbouring pair.
pub open spec fn join_commas(a: Seq<Seq<char>>) -> Seq<char>
    decreases a.len(),
{
    if a.len() == 0 {
        Seq::empty()
    } else if a.len() == 1 {
        a[0]
    } else {
        join_commas(a.drop_last()) + seq![','] + a.last()
    }
}

/// Joining the tokens of a split restores the text.
pub proof fn lemma_join_split(s: Seq<char>)
    ensures
        join_commas(split_commas(s)) == s,
    decreases s.len(),
{
    if s.len() == 0 {
        assert(join_commas(split_commas(s)) =~= s);
    } else {
        let p = s.drop_last();
        lemma_join_split(p);
        lemma_split_commas_len(p);
        let r = split_commas(p);
        if s.last() == ',' {
            let rp = r.push(Seq::<char>::empty());
            assert(split_commas(s) == rp);
            assert(rp.len() >= 2);
            assert(rp.drop_last() =~= r);
            assert(rp.last() =~= Seq::<char>::empty());
            assert(join_commas(rp) == join_commas(rp.drop_last()) + seq![','] + rp.last());
            assert(join_commas(rp) == join_commas(r) + seq![','] + Seq::<char>::empty());
            assert(join_commas(rp) =~= p + seq![',']);
            assert(join_commas(split_commas(s)) =~= s);
        } else {
            let u = r.update(r.len() - 1, r.last().push(s.last()));
            if r.len() == 1 {
                assert(split_commas(s) == u);
                assert(r.last() == r[0]);
                assert(u[0] == r[0].push(s.last()));
                assert(join_commas(u) == u[0]);
                assert(join_commas(r) == r[0]);
                assert(r[0] == p);
                assert(u[0] =~= s);
                assert(join_commas(split_commas(s)) =~= s);
            } else {
                assert(u.drop_last() =~= r.drop_last());
                assert(u.last() == r.last().push(s.last()));
                assert(join_commas(u) == join_commas(r.drop_last()) + seq![','] + r.last().push(s.last()));
                assert(join_commas(r) == join_commas(r.drop_last()) + seq![','] + r.last());
                assert(join_commas(u) =~= join_commas(r).push(s.last()));
                assert(s =~= p.push(s.last()));
                assert(join_commas(split_commas(s)) =~= s);
            }
        }
    }
}

/// Appending comma-free text to `s` extends the last token of the split.
proof fn lemma_split_append_token(x: Seq<char>, y: Seq<char>)
    requires
        forall|i: int| 0 <= i < y.len() ==> #[trigger] y[i] != ',',
    ensures
        ({
            let r = split_commas(x);
            split_commas(x + y) == r.update(r.len() - 1, r.last() + y)
        }),
    decreases y.len(),
{
    let r = split_commas(x);
    lemma_split_commas_len(x);
    if y.len() == 0 {
        assert(x + y =~= x);
        assert(r.last() + y =~= r.last());
        assert(r.update(r.len() - 1, r.last() + y) =~= r);
    } else {
        let y0 = y.drop_last();
        assert(forall|i: int| 0 <= i < y0.len() ==> #[trigger] y0[i] == y[i]);
        lemma_split_append_token(x, y0);
        let m = x + y0;
        let rm = split_commas(m);
        assert(rm == r.update(r.len() - 1, r.last() + y0));
        assert(rm.len() == r.len());
        assert(x + y =~= m.push(y.last()));
        assert((x + y).last() == y.last());
        assert((x + y).drop_last() =~= m);
        assert(y.last() != ',');
        assert(split_commas(x + y) == rm.update(rm.len() - 1, rm.last().push(y.last())));
        assert(rm.last() == r.last() + y0);
        assert((r.last() + y0).push(y.last()) =~= r.last() + y);
        assert(rm.update(rm.len() - 1, r.last() + y) =~= r.update(r.len() - 1, r.last() + y));
    }
}

/// Splitting a join restores the tokens, provided each token is comma-free.
pub proof fn lemma_split_join(a: Seq<Seq<char>>)
    requires
        a.len() >= 1,
        forall|i: int, j: int| 0 <= i < a.len() && 0 <= j < a[i].len() ==> #[trigger] a[i][j] != ',',
    ensures
        split_commas(join_commas(a)) == a,
    decreases a.len(),
{
    if a.len() == 1 {
        let y = a[0];
        assert(forall|j: int| 0 <= j < y.len() ==> #[trigger] y[j] != ',');
        lemma_split_append_token(Seq::<char>::empty(), y);
        assert(Seq::<char>::empty() + y =~= y);
        assert(split_commas(Seq::<char>::empty()) == seq![Seq::<char>::empty()]);
        assert(Seq::<char>::empty() + y == y);
        assert(split_commas(y) == seq![Seq::<char>::empty()].update(0, Seq::<char>::empty() + y));
        assert(split_commas(y) =~= a);
        assert(join_commas(a) == y);
    } else {
        let p = a.drop_last();
        assert(forall|i: int, j: int|
            0 <= i < p.len() && 0 <= j < p[i].len() ==> #[trigger] p[i][j] != ',') by {
            assert(forall|i: int| 0 <= i < p.len() ==> #[trigger] p[i] == a[i]);
        }
        lemma_split_join(p);
        let jp = join_commas(p);
        assert(join_commas(a) == jp + seq![','] + a.last());
        let jc = jp + seq![','];
        assert(jc.last() == ',');
        assert(jc.drop_last() =~= jp);
        assert(split_commas(jc) == split_commas(jp).push(Seq::<char>::empty()));
        let y = a.last();
        assert(forall|j: int| 0 <= j < y.len() ==> #[trigger] y[j] != ',');
        lemma_split_append_token(jc, y);
        assert(jc + y =~= join_commas(a));
        let rc = split_commas(jc);
        assert(rc == p.push(Seq::<char>::empty()));
        assert(rc.len() == p.len() + 1);
        assert(split_commas(join_commas(a)) == rc.update(rc.len() - 1, rc.last() + y));
        assert(rc.last() + y =~= y);
        assert(rc.update(rc.len() - 1, rc.last() + y) =~= a);
    }
}

/// Splits text into its comma-separated tokens.
pub fn split_commas_exec(s: &str) -> (r: Vec<String>)
    ensures
        r.deep_view() == split_commas(s@),
{
    let n = s.unicode_len();
    let mut toks: Vec<String> = Vec::new();
    let mut cur = String::new();
    let mut i: usize = 0;
    proof {
        assert(s@.take(0) =~= Seq::<char>::empty());
        assert(toks.deep_view().push(cur@) =~= split_commas(s@.take(0)));
    }
    while i < n
        invariant
            i <= n == s@.len(),
            toks.deep_view().push(cur@) == split_commas(s@.take(i as int)),
        decreases n - i,
    {
        let c = s.get_char(i);
        proof {
            let q = s@.take(i as int + 1);
            assert(q.drop_last() =~= s@.take(i as int));
            assert(q.last() == s@[i as int]);
            lemma_split_commas_len(s@.take(i as int));
        }
        if c == ',' {
            toks.push(cur);
            cur = String::new();
            proof {
                assert(toks.deep_view().push(cur@) =~= split_commas(s@.take(i as int + 1)));
            }
        } else {
            push_char(&mut cur, c);
            proof {
                let r = split_commas(s@.take(i as int));
                assert(toks.deep_view().push(cur@) =~= r.update(r.len() - 1, r.last().push(s@[i as int])));
            }
        }
        i = i + 1;
    }
    toks.push(cur);
    proof {
        assert(s@.take(n as int) =~= s@);
    }
    toks
}

// ---------------------------------------------------------------------------
// Numeric lists
// ---------------------------------------------------------------------------

/// A token that denotes an `i64`: valid int text whose value fits.
pub open spec fn valid_i64_token(t: Seq<char>) -> bool {
    valid_int_text(t) && in_i64(int_val(t))
}

/// Comma-separated `i64` list text; empty text denotes the empty list.
pub open spec fn valid_int_list_text(s: Seq<char>) -> bool {
    s.len() == 0 || forall|i: int| 0 <= i < split_commas(s).len()
        ==> valid_i64_token(#[trigger] split_commas(s)[i])
}

/// The values of valid `i64` list text, in order.
pub open spec fn int_list_val(s: Seq<char>) -> Seq<i64> {
    if s.len() == 0 {
        Seq::empty()
    } else {
        split_commas(s).map_values(|t: Seq<char>| int_val(t) as i64)
    }
}

/// The text of an `i64` list: decimal renderings joined by commas.
pub open spec fn int_list_text(a: Seq<i64>) -> Seq<char> {
    join_commas(a.map_values(|x: i64| int_text(x as int)))
}

/// Comma-separated float list text; empty text denotes the empty list.
pub open spec fn valid_float_list_text(s: Seq<char>) -> bool {
    s.len() == 0 || forall|i: int| 0 <= i < split_commas(s).len()
        ==> valid_float_text(#[trigger] split_commas(s)[i])
}

/// The float tokens of valid float list text, in order.
pub open spec fn float_list_val(s: Seq<char>) -> Seq<Seq<char>> {
    if s.len() == 0 {
        Seq::empty()
    } else {
        split_commas(s)
    }
}

/// Rendered `i64` lists decode to the same list: the text is valid and its
/// values are the originals, in order.
pub proof fn lemma_int_list_round_trip(a: Seq<i64>)
    ensures
        valid_int_list_text(int_list_text(a)),
        int_list_val(int_list_text(a)) == a,
{
    let m = a.map_values(|x: i64| int_text(x as int));
    let s = int_list_text(a);
    if a.len() == 0 {
        assert(m.len() == 0);
        assert(s.len() == 0);
        assert(int_list_val(s) =~= a);
    } else {
        assert(m.len() == a.len());
        assert forall|i: int, j: int| 0 <= i < m.len() && 0 <= j < m[i].len()
            implies #[trigger] m[i][j] != ',' by {
            assert(m[i] == int_text(a[i] as int));
            lemma_int_text_val(a[i] as int);
            lemma_int_text_chars(m[i]);
            assert(is_dec_digit(m[i][j]) || m[i][j] == '-');
        }
        lemma_split_join(m);
        assert(m[0] == int_text(a[0] as int));
        lemma_int_text_val(a[0] as int);
        if s.len() == 0 {
            assert(split_commas(s) == seq![Seq::<char>::empty()]);
            assert(m[0].len() > 0);
            assert(false);
        }
        assert forall|i: int| 0 <= i < split_commas(s).len()
            implies valid_i64_token(#[trigger] split_commas(s)[i]) by {
            assert(split_commas(s)[i] == m[i]);
            assert(m[i] == int_text(a[i] as int));
            lemma_int_text_val(a[i] as int);
        }
        assert forall|i: int| 0 <= i < a.len()
            implies #[trigger] int_list_val(s)[i] == a[i] by {
            assert(split_commas(s)[i] == m[i]);
            assert(m[i] == int_text(a[i] as int));
            lemma_int_text_val(a[i] as int);
        }
        assert(int_list_val(s) =~= a);
    }
}

/// Joined float tokens decode to the same tokens: the text is valid and
/// splits back into the originals, in order.
pub proof fn lemma_float_list_round_trip(a: Seq<Seq<char>>)
    requires
        forall|i: int| 0 <= i < a.len() ==> valid_float_text(#[trigger] a[i]),
    ensures
        valid_float_list_text(join_commas(a)),
        float_list_val(join_commas(a)) == a,
{
    let s = join_commas(a);
    if a.len() == 0 {
        assert(s.len() == 0);
        assert(float_list_val(s) =~= a);
    } else {
        assert forall|i: int, j: int| 0 <= i < a.len() && 0 <= j < a[i].len()
            implies #[trigger] a[i][j] != ',' by {
            lemma_float_text_chars(a[i]);
            assert(is_dec_digit(a[i][j]) || a[i][j] == '-' || a[i][j] == '.');
        }
        lemma_split_join(a);
        if s.len() == 0 {
            assert(split_commas(s) == seq![Seq::<char>::empty()]);
            assert(a[0].len() == 0);
            let k = digits_end(a[0], 0);
            lemma_digits_end(a[0], 0);
            assert(false);
        }
    }
}

/// Renders an `i64` list as comma-separated decimal text.
pub fn render_i64_list(a: &Vec<i64>) -> (s: String)
    ensures
        s@ == int_list_text(a@),
{
    let mut s = String::new();
    let mut i: usize = 0;
    proof {
        assert(a@.take(0) =~= Seq::<i64>::empty());
        assert(a@.take(0).map_values(|x: i64| int_text(x as int)) =~= Seq::<Seq<char>>::empty());
    }
    while i < a.len()
        invariant
            i <= a@.len(),
            s@ == int_list_text(a@.take(i as int)),
        decreases a@.len() - i,
    {
        if i > 0 {
            push_char(&mut s, ',');
        }
        let t = render_i64(a[i]);
        s.append(t.as_str());
        proof {
            let m = a@.take(i as int + 1).map_values(|x: i64| int_text(x as int));
            let m0 = a@.take(i as int).map_values(|x: i64| int_text(x as int));
            assert(m.drop_last() =~= m0);
            assert(m.last() == int_text(a@[i as int] as int));
            if i == 0 {
                assert(m.len() == 1);
                assert(s@ =~= m[0]);
            } else {
                assert(m.len() >= 2);
                assert(s@ =~= join_commas(m0) + seq![','] + m.last());
            }
        }
        i = i + 1;
    }
    proof {
        assert(a@.take(a@.len() as int) =~= a@);
    }
    s
}

/// Joins already-rendered tokens with commas.
pub fn join_commas_exec(a: &Vec<String>) -> (s: String)
    ensures
        s@ == join_commas(a.deep_view()),
{
    let mut s = String::new();
    let mut i: usize = 0;
    proof {
        assert(a.deep_view().take(0) =~= Seq::<Seq<char>>::empty());
    }
    while i < a.len()
        invariant
            i <= a@.len(),
            a.deep_view().len() == a@.len(),
            s@ == join_commas(a.deep_view().take(i as int)),
        decreases a@.len() - i,
    {
        if i > 0 {
            push_char(&mut s, ',');
        }
        s.append(a[i].as_str());
        proof {
            let m = a.deep_view().take(i as int + 1);
            let m0 = a.deep_view().take(i as int);
            assert(m.drop_last() =~= m0);
            assert(m.last() == a.deep_view()[i as int]);
            assert(a.deep_view()[i as int] == a@[i as int]@);
            if i == 0 {
                assert(m.len() == 1);
                assert(s@ =~= m[0]);
            } else {
                assert(m.len() >= 2);
                assert(s@ =~= join_commas(m0) + seq![','] + m.last());
            }
        }
        i = i + 1;
    }
    proof {
        assert(a.deep_view().take(a@.len() as int) =~= a.deep_view());
    }
    s
}

/// Reads comma-separated `i64` list text; any token that is not in-range
/// int text is rejected.
pub fn parse_i64_list(s: &str) -> (r: Result<Vec<i64>, GfaError>)
    ensures
        match r {
            Ok(v) => valid_int_list_text(s@) && v@ == int_list_val(s@),
            Err(e) => !valid_int_list_text(s@) && e == GfaError::MalformedValue,
        },
{
    let n = s.unicode_len();
    if n == 0 {
        let v: Vec<i64> = Vec::new();
        proof {
            assert(v@ =~= int_list_val(s@));
        }
        return Ok(v);
    }
    let toks = split_commas_exec(s);
    let ghost sp = split_commas(s@);
    let mut out: Vec<i64> = Vec::new();
    let mut i: usize = 0;
    while i < toks.len()
        invariant
            i <= toks@.len(),
            toks.deep_view() == sp,
            sp == split_commas(s@),
            sp.len() == toks@.len(),
            s@.len() > 0,
            forall|j: int| 0 <= j < i ==> valid_i64_token(#[trigger] sp[j]),
            out@.len() == i,
            forall|j: int| 0 <= j < i ==> #[trigger] out@[j] == int_val(sp[j]) as i64,
        decreases toks@.len() - i,
    {
        proof {
            assert(toks.deep_view()[i as int] == toks@[i as int]@);
        }
        match parse_i64(toks[i].as_str()) {
            Ok(x) => {
                out.push(x);
            },
            Err(_) => {
                proof {
                    assert(!valid_i64_token(sp[i as int]));
                }
                return Err(GfaError::MalformedValue);
            },
        }
        i = i + 1;
    }
    proof {
        assert(out@ =~= int_list_val(s@));
    }
    Ok(out)
}

/// Reads comma-separated float list text, keeping each token verbatim; any
/// token that does not match the float grammar is rejected.
pub fn parse_float_list(s: &str) -> (r: Result<Vec<String>, GfaError>)
    ensures
        match r {
            Ok(v) => valid_float_list_text(s@) && v.deep_view() == float_list_val(s@),
            Err(e) => !valid_float_list_text(s@) && e == GfaError::MalformedValue,
        },
{
    let n = s.unicode_len();
    if n == 0 {
        let v: Vec<String> = Vec::new();
        proof {
            assert(v.deep_view() =~= float_list_val(s@));
        }
        return Ok(v);
    }
    let toks = split_commas_exec(s);
    let ghost sp = split_commas(s@);
    let mut i: usize = 0;
    while i < toks.len()
        invariant
            i <= toks@.len(),
            toks.deep_view() == sp,
            sp == split_commas(s@),
            sp.len() == toks@.len(),
            s@.len() > 0,
            forall|j: int| 0 <= j < i ==> valid_float_text(#[trigger] sp[j]),
        decreases toks@.len() - i,
    {
        proof {
            assert(toks.deep_view()[i as int] == toks@[i as int]@);
        }
        if !check_float(toks[i].as_str()) {
            return Err(GfaError::MalformedValue);
        }
        i = i + 1;
    }
    Ok(toks)
}

} // verus!
