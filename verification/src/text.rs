//! Character-level helpers shared by the script reader and writer: whitespace,
//! trimming, decimal and hexadecimal numbers, and conversions between `str`,
//! `String` and character vectors.
use vstd::prelude::*;

verus! {

// ---------------------------------------------------------------------------
// whitespace
// ---------------------------------------------------------------------------
/// The Unicode `White_Space` property, which is what `char::is_whitespace` tests.
pub open spec fn is_ws(c: char) -> bool {
    ||| c == '\t'
    ||| c == '\n'
    ||| c == '\x0B'
    ||| c == '\x0C'
    ||| c == '\r'
    ||| c == ' '
    ||| c == '\u{85}'
    ||| c == '\u{A0}'
    ||| c == '\u{1680}'
    ||| ('\u{2000}' <= c && c <= '\u{200A}')
    ||| c == '\u{2028}'
    ||| c == '\u{2029}'
    ||| c == '\u{202F}'
    ||| c == '\u{205F}'
    ||| c == '\u{3000}'
}

/// Whether `c` is white space in the Unicode sense.
pub fn is_whitespace(c: char) -> (b: bool)
    ensures
        b == is_ws(c),
{
    c == '\t' || c == '\n' || c == '\x0B' || c == '\x0C' || c == '\r' || c == ' ' || c
        == '\u{85}' || c == '\u{A0}' || c == '\u{1680}' || ('\u{2000}' <= c && c <= '\u{200A}')
        || c == '\u{2028}' || c == '\u{2029}' || c == '\u{202F}' || c == '\u{205F}' || c
        == '\u{3000}'
}

/// First position at or after `i` that does not hold white space.
pub open spec fn skip_ws(s: Seq<char>, i: int) -> int
    decreases s.len() - i,
{
    if i < 0 || i >= s.len() {
        if i < 0 { 0 } else { i }
    } else if is_ws(s[i]) {
        skip_ws(s, i + 1)
    } else {
        i
    }
}

/// Largest position `j'` with `lo <= j' <= j` such that `[j', j)` is all white space.
pub open spec fn skip_ws_back(s: Seq<char>, lo: int, j: int) -> int
    decreases j - lo,
{
    if j <= lo {
        lo
    } else if is_ws(s[j - 1]) {
        skip_ws_back(s, lo, j - 1)
    } else {
        j
    }
}

pub proof fn lemma_skip_ws_bounds(s: Seq<char>, i: int)
    requires
        0 <= i <= s.len(),
    ensures
        i <= skip_ws(s, i) <= s.len(),
        forall|k: int| i <= k < skip_ws(s, i) ==> is_ws(#[trigger] s[k]),
        skip_ws(s, i) < s.len() ==> !is_ws(s[skip_ws(s, i)]),
    decreases s.len() - i,
{
    if i < s.len() && is_ws(s[i]) {
        lemma_skip_ws_bounds(s, i + 1);
    }
}

pub proof fn lemma_skip_ws_back_bounds(s: Seq<char>, lo: int, j: int)
    requires
        0 <= lo <= j <= s.len(),
    ensures
        lo <= skip_ws_back(s, lo, j) <= j,
        forall|k: int| skip_ws_back(s, lo, j) <= k < j ==> is_ws(#[trigger] s[k]),
        skip_ws_back(s, lo, j) > lo ==> !is_ws(s[skip_ws_back(s, lo, j) - 1]),
    decreases j - lo,
{
    if j > lo && is_ws(s[j - 1]) {
        lemma_skip_ws_back_bounds(s, lo, j - 1);
    }
}

/// `s` with leading and trailing white space removed, as `str::trim` does.
pub open spec fn trim(s: Seq<char>) -> Seq<char> {
    let a = skip_ws(s, 0);
    s.subrange(a, skip_ws_back(s, a, s.len() as int))
}

pub proof fn lemma_trim_wf(s: Seq<char>)
    ensures
        0 <= skip_ws(s, 0) <= skip_ws_back(s, skip_ws(s, 0), s.len() as int) <= s.len(),
{
    lemma_skip_ws_bounds(s, 0);
    lemma_skip_ws_back_bounds(s, skip_ws(s, 0), s.len() as int);
}

/// A trimmed text starts and ends with a character that is not white space
/// (or is empty), trimming it again changes nothing, and what trimming drops
/// from either end is white space only.
pub proof fn lemma_trim_laws(s: Seq<char>)
    ensures
        trim(s).len() > 0 ==> !is_ws(trim(s)[0]) && !is_ws(trim(s).last()),
        trim(trim(s)) == trim(s),
        forall|k: int| 0 <= k < skip_ws(s, 0) ==> is_ws(#[trigger] s[k]),
        forall|k: int| skip_ws_back(s, skip_ws(s, 0), s.len() as int) <= k < s.len() ==> is_ws(#[trigger] s[k]),
        s.len() > 0 && !is_ws(s[0]) && !is_ws(s.last()) ==> trim(s) == s,
{
    lemma_trim_wf(s);
    lemma_skip_ws_bounds(s, 0);
    let a = skip_ws(s, 0);
    let b = skip_ws_back(s, a, s.len() as int);
    lemma_skip_ws_back_bounds(s, a, s.len() as int);
    let t = trim(s);
    assert(t.len() == b - a);
    if t.len() > 0 {
        assert(t[0] == s[a]);
        assert(t.last() == s[b - 1]);
        assert(skip_ws(t, 0) == 0);
        assert(skip_ws_back(t, 0, t.len() as int) == t.len());
        assert(trim(t) =~= t);
    } else {
        assert(trim(t) =~= t);
    }
    if s.len() > 0 && !is_ws(s[0]) && !is_ws(s.last()) {
        assert(a == 0);
        assert(b == s.len());
        assert(trim(s) =~= s);
    }
}

/// Trims leading and trailing white space.
pub fn trim_chars(s: &Vec<char>) -> (r: Vec<char>)
    ensures
        r@ == trim(s@),
{
    proof {
        lemma_trim_wf(s@);
    }
    let mut a: usize = 0;
    while a < s.len() && is_whitespace(s[a])
        invariant
            a <= s.len(),
            skip_ws(s@, 0) == skip_ws(s@, a as int),
        decreases s.len() - a,
    {
        a = a + 1;
    }
    let mut b: usize = s.len();
    while b > a && is_whitespace(s[b - 1])
        invariant
            a <= b <= s.len(),
            skip_ws(s@, 0) == a,
            skip_ws_back(s@, a as int, s@.len() as int) == skip_ws_back(s@, a as int, b as int),
        decreases b,
    {
        b = b - 1;
    }
    slice_chars(s, a, b)
}

// ---------------------------------------------------------------------------
// conversions
// ---------------------------------------------------------------------------
/// The characters of `s`.
pub fn chars_of(s: &str) -> (v: Vec<char>)
    ensures
        v@ == s@,
{
    let mut v: Vec<char> = Vec::new();
    for c in it: s.chars()
        invariant
            v@ == it.seq().take(it.index() as int),
            it.seq() == s@,
            it.index() <= s@.len(),
        ensures
            v@ == s@,
    {
        v.push(c);
    }
    v
}

/// Appends one character to a `String` (`String::push`).
#[verifier::external_body]
fn push_char(s: &mut String, c: char)
    ensures
        final(s)@ == old(s)@.push(c),
{
    s.push(c);
}

/// A `String` holding the characters of `v`.
pub fn string_of(v: &Vec<char>) -> (s: String)
    ensures
        s@ == v@,
{
    let mut s = String::new();
    let mut i: usize = 0;
    while i < v.len()
        invariant
            i <= v.len(),
            s@ == v@.take(i as int),
        decreases v.len() - i,
    {
        push_char(&mut s, v[i]);
        i = i + 1;
        assert(s@ == v@.take(i as int));
    }
    assert(v@.take(v.len() as int) == v@);
    s
}

/// Characters `[a, b)` of `s`.
pub fn slice_chars(s: &Vec<char>, a: usize, b: usize) -> (r: Vec<char>)
    requires
        a <= b <= s.len(),
    ensures
        r@ == s@.subrange(a as int, b as int),
{
    let mut r: Vec<char> = Vec::new();
    let mut i = a;
    while i < b
        invariant
            a <= i <= b <= s.len(),
            r@ == s@.subrange(a as int, i as int),
        decreases b - i,
    {
        r.push(s[i]);
        i = i + 1;
        assert(r@ == s@.subrange(a as int, i as int));
    }
    r
}

/// Appends all characters of `b` to `a`.
pub fn push_all(a: &mut Vec<char>, b: &Vec<char>)
    ensures
        final(a)@ == old(a)@ + b@,
{
    let mut i: usize = 0;
    while i < b.len()
        invariant
            i <= b.len(),
            a@ == old(a)@ + b@.take(i as int),
        decreases b.len() - i,
    {
        a.push(b[i]);
        i = i + 1;
        assert(a@ == old(a)@ + b@.take(i as int));
    }
    assert(b@.take(b.len() as int) == b@);
}

/// Appends all characters of the string `b` to `a`.
pub fn push_str(a: &mut Vec<char>, b: &str)
    ensures
        final(a)@ == old(a)@ + b@,
{
    let v = chars_of(b);
    push_all(a, &v);
}

/// Whether two character sequences are equal.
pub fn chars_eq(a: &Vec<char>, b: &Vec<char>) -> (r: bool)
    ensures
        r == (a@ == b@),
{
    if a.len() != b.len() {
        return false;
    }
    let mut i: usize = 0;
    while i < a.len()
        invariant
            i <= a.len() == b.len(),
            forall|k: int| 0 <= k < i ==> a@[k] == b@[k],
        decreases a.len() - i,
    {
        if a[i] != b[i] {
            return false;
        }
        i = i + 1;
    }
    assert(a@ =~= b@);
    true
}

/// Whether the characters in `a` spell `b`.
pub fn chars_eq_str(a: &Vec<char>, b: &str) -> (r: bool)
    ensures
        r == (a@ == b@),
{
    let v = chars_of(b);
    chars_eq(a, &v)
}

// ---------------------------------------------------------------------------
// decimal numbers
// ---------------------------------------------------------------------------
pub open spec fn is_digit(c: char) -> bool {
    '0' <= c && c <= '9'
}

pub open spec fn digit_val(c: char) -> int {
    c as int - '0' as int
}

pub open spec fn all_digits(s: Seq<char>) -> bool {
    forall|i: int| 0 <= i < s.len() ==> is_digit(#[trigger] s[i])
}

/// The value of a string of decimal digits.
pub open spec fn digits_val(s: Seq<char>) -> int
    decreases s.len(),
{
    if s.len() == 0 {
        0
    } else {
        digits_val(s.drop_last()) * 10 + digit_val(s.last())
    }
}

/// Reading a whole number the way `FromStr` does for Rust's integer types: an
/// optional `+` (or `-` where negatives are allowed) followed by one or more
/// decimal digits whose value lies in `[lo, hi]`.
pub open spec fn parse_int(s: Seq<char>, signed: bool, lo: int, hi: int) -> Option<int> {
    let neg = s.len() > 0 && s[0] == '-' && signed;
    let start: int = if s.len() > 0 && (s[0] == '+' || neg) { 1 } else { 0 };
    let ds = s.skip(start);
    let v = if neg { -digits_val(ds) } else { digits_val(ds) };
    if ds.len() > 0 && all_digits(ds) && lo <= v <= hi {
        Some(v)
    } else {
        None
    }
}

pub proof fn lemma_digits_val_nonneg(s: Seq<char>)
    requires
        all_digits(s),
    ensures
        digits_val(s) >= 0,
    decreases s.len(),
{
    if s.len() > 0 {
        assert(all_digits(s.drop_last()));
        lemma_digits_val_nonneg(s.drop_last());
        assert(is_digit(s[s.len() - 1]));
    }
}

pub proof fn lemma_digits_val_prefix(s: Seq<char>, i: int)
    requires
        all_digits(s),
        0 <= i <= s.len(),
    ensures
        digits_val(s.take(i)) <= digits_val(s),
    decreases s.len(),
{
    if i < s.len() {
        assert(all_digits(s.drop_last()));
        lemma_digits_val_prefix(s.drop_last(), i);
        assert(s.drop_last().take(i) == s.take(i));
        lemma_digits_val_nonneg(s.drop_last());
        assert(is_digit(s[s.len() - 1]));
    } else {
        assert(s.take(i) == s);
    }
}

/// Reads a decimal whole number within `[lo, hi]`; `signed` allows a leading `-`.
pub fn parse_int_chars(s: &Vec<char>, signed: bool, lo: i128, hi: i128) -> (r: Option<i128>)
    requires
        -0x1_0000_0000_0000_0000 <= lo <= 0 <= hi <= 0x1_0000_0000_0000_0000,
    ensures
        r matches Some(v) ==> parse_int(s@, signed, lo as int, hi as int) == Some(v as int),
        r is None ==> parse_int(s@, signed, lo as int, hi as int) is None,
{
    if s.len() == 0 {
        return None;
    }
    let mut start: usize = 0;
    let mut neg = false;
    if s[0] == '+' {
        start = 1;
    } else if s[0] == '-' && signed {
        start = 1;
        neg = true;
    }
    let ghost ds = s@.skip(start as int);
    if start >= s.len() {
        assert(ds.len() == 0);
        return None;
    }
    let bound: i128 = if neg { -lo } else { hi };
    let mut acc: i128 = 0;
    let mut i = start;
    while i < s.len()
        invariant
            start <= i <= s.len(),
            s@.len() > 0,
            neg == (s@[0] == '-' && signed),
            start == (if s@[0] == '+' || neg { 1int } else { 0int }),
            bound == (if neg { -lo } else { hi as int }),
            -0x1_0000_0000_0000_0000 <= lo <= 0 <= hi <= 0x1_0000_0000_0000_0000,
            ds == s@.skip(start as int),
            0 <= bound <= 0x1_0000_0000_0000_0000,
            all_digits(ds.take(i - start)),
            acc == digits_val(ds.take(i - start)),
            0 <= acc <= bound,
        decreases s.len() - i,
    {
        let c = s[i];
        if !('0' <= c && c <= '9') {
            proof {
                assert(ds[i - start] == c);
                assert(!all_digits(ds));
            }
            return None;
        }
        let d = (c as u32 - '0' as u32) as i128;
        proof {
            let t = ds.take(i - start + 1);
            assert(t.drop_last() == ds.take(i - start));
            assert(t.last() == c);
        }
        acc = acc * 10 + d;
        i = i + 1;
        assert(all_digits(ds.take(i - start)));
        if acc > bound {
            proof {
                lemma_digits_val_prefix_all(ds, i - start);
            }
            return None;
        }
    }
    assert(ds.take(i - start) == ds);
    if neg {
        Some(-acc)
    } else {
        Some(acc)
    }
}

/// A prefix of a digit string that holds a non-digit has a value no larger
/// than the full string, whenever the full string is all digits.
proof fn lemma_digits_val_prefix_all(ds: Seq<char>, k: int)
    requires
        0 <= k <= ds.len(),
        all_digits(ds.take(k)),
    ensures
        all_digits(ds) ==> digits_val(ds.take(k)) <= digits_val(ds),
{
    if all_digits(ds) {
        lemma_digits_val_prefix(ds, k);
    }
}

pub open spec fn parse_bool(s: Seq<char>) -> Option<bool> {
    if s == "true"@ {
        Some(true)
    } else if s == "false"@ {
        Some(false)
    } else {
        None
    }
}

/// Reads `true` or `false`, as `bool::from_str` does.
pub fn parse_bool_chars(s: &Vec<char>) -> (r: Option<bool>)
    ensures
        r == parse_bool(s@),
{
    if chars_eq_str(s, "true") {
        Some(true)
    } else if chars_eq_str(s, "false") {
        Some(false)
    } else {
        None
    }
}

/// Decimal digits of a natural number, without leading zeros (`0` for zero).
pub open spec fn dec_digits(n: nat) -> Seq<char>
    decreases n,
{
    if n < 10 {
        seq![(('0' as int) + n) as char]
    } else {
        dec_digits(n / 10).push(((('0' as int) + (n % 10)) as char))
    }
}

/// Decimal rendering of a whole number, as `Display` prints Rust integers.
pub open spec fn dec_int(n: int) -> Seq<char> {
    if n < 0 {
        seq!['-'] + dec_digits((-n) as nat)
    } else {
        dec_digits(n as nat)
    }
}

pub proof fn lemma_dec_digits(n: nat)
    ensures
        all_digits(dec_digits(n)),
        dec_digits(n).len() > 0,
        digits_val(dec_digits(n)) == n,
        dec_digits(n)[0] != '-' && dec_digits(n)[0] != '+',
    decreases n,
{
    if n >= 10 {
        lemma_dec_digits(n / 10);
        let d = dec_digits(n);
        assert(d.drop_last() == dec_digits(n / 10));
        assert(n == (n / 10) * 10 + n % 10);
        assert(digit_val(d.last()) == n % 10);
        assert(digits_val(d) == digits_val(d.drop_last()) * 10 + digit_val(d.last()));
        assert(digits_val(d.drop_last()) == n / 10);
        assert forall|i: int| 0 <= i < d.len() implies is_digit(#[trigger] d[i]) by {
            if i < d.len() - 1 {
                assert(d[i] == dec_digits(n / 10)[i]);
            }
        }
    } else {
        let d = dec_digits(n);
        assert(d.drop_last() =~= Seq::<char>::empty());
        assert(digits_val(d.drop_last()) == 0);
        assert(digit_val(d.last()) == n);
    }
}

/// Reading back a rendered number gives the number.
pub proof fn lemma_parse_dec_int(n: int, signed: bool, lo: int, hi: int)
    requires
        lo <= n <= hi,
        n < 0 ==> signed,
    ensures
        parse_int(dec_int(n), signed, lo, hi) == Some(n),
{
    if n < 0 {
        lemma_dec_digits((-n) as nat);
        let s = dec_int(n);
        assert(s.skip(1) == dec_digits((-n) as nat));
        assert(s[0] == '-');
    } else {
        lemma_dec_digits(n as nat);
        let s = dec_int(n);
        assert(s.skip(0) =~= s);
    }
}

fn digit_char(d: u64) -> (c: char)
    requires
        d < 10,
    ensures
        c == (('0' as int) + d) as char,
{
    if d == 0 { '0' }
    else if d == 1 { '1' }
    else if d == 2 { '2' }
    else if d == 3 { '3' }
    else if d == 4 { '4' }
    else if d == 5 { '5' }
    else if d == 6 { '6' }
    else if d == 7 { '7' }
    else if d == 8 { '8' }
    else { '9' }
}

/// Decimal digits of `n`.
pub fn fmt_u64(n: u64) -> (r: Vec<char>)
    ensures
        r@ == dec_digits(n as nat),
    decreases n,
{
    if n < 10 {
        let mut r: Vec<char> = Vec::new();
        r.push(digit_char(n));
        assert(r@ == dec_digits(n as nat));
        r
    } else {
        let mut r = fmt_u64(n / 10);
        r.push(digit_char(n % 10));
        r
    }
}

/// Decimal rendering of `n`, with a leading `-` when negative.
pub fn fmt_i64(n: i64) -> (r: Vec<char>)
    ensures
        r@ == dec_int(n as int),
{
    if n < 0 {
        let m: u64 = if n == i64::MIN {
            0x8000_0000_0000_0000u64
        } else {
            (-n) as u64
        };
        let mut r: Vec<char> = Vec::new();
        r.push('-');
        let d = fmt_u64(m);
        push_all(&mut r, &d);
        r
    } else {
        fmt_u64(n as u64)
    }
}

// ---------------------------------------------------------------------------
// hexadecimal bytes
// ---------------------------------------------------------------------------
pub open spec fn hex_val(c: char) -> Option<int> {
    if '0' <= c && c <= '9' {
        Some(c as int - '0' as int)
    } else if 'a' <= c && c <= 'f' {
        Some(c as int - 'a' as int + 10)
    } else if 'A' <= c && c <= 'F' {
        Some(c as int - 'A' as int + 10)
    } else {
        None
    }
}

/// `u8::from_str_radix(s, 16)` on a two-character string: two hex digits, or
/// `+` and one hex digit.
pub open spec fn parse_hex_pair(a: char, b: char) -> Option<u8> {
    if a == '+' {
        match hex_val(b) {
            Some(v) => Some(v as u8),
            None => None,
        }
    } else {
        match (hex_val(a), hex_val(b)) {
            (Some(x), Some(y)) => Some((x * 16 + y) as u8),
            _ => None,
        }
    }
}

fn hex_val_exec(c: char) -> (r: Option<u8>)
    ensures
        r matches Some(v) ==> hex_val(c) == Some(v as int),
        r is None ==> hex_val(c) is None,
{
    if '0' <= c && c <= '9' {
        Some((c as u32 - '0' as u32) as u8)
    } else if 'a' <= c && c <= 'f' {
        Some((c as u32 - 'a' as u32 + 10) as u8)
    } else if 'A' <= c && c <= 'F' {
        Some((c as u32 - 'A' as u32 + 10) as u8)
    } else {
        None
    }
}

/// Reads a two-character hexadecimal byte.
pub fn parse_hex_pair_exec(a: char, b: char) -> (r: Option<u8>)
    ensures
        r == parse_hex_pair(a, b),
{
    if a == '+' {
        match hex_val_exec(b) {
            Some(v) => Some(v),
            None => None,
        }
    } else {
        match (hex_val_exec(a), hex_val_exec(b)) {
            (Some(x), Some(y)) => Some(x * 16 + y),
            _ => None,
        }
    }
}

/// The uppercase hexadecimal digit for `d < 16`.
pub open spec fn hex_digit(d: int) -> char {
    if d < 10 {
        (('0' as int) + d) as char
    } else {
        (('A' as int) + d - 10) as char
    }
}

/// Two uppercase hex digits, as `{:02X}` prints a byte.
pub open spec fn hex_byte(b: u8) -> Seq<char> {
    seq![hex_digit(b as int / 16), hex_digit(b as int % 16)]
}

fn hex_digit_exec(d: u8) -> (c: char)
    requires
        d < 16,
    ensures
        c == hex_digit(d as int),
{
    if d < 10 {
        digit_char(d as u64)
    } else if d == 10 {
        'A'
    } else if d == 11 {
        'B'
    } else if d == 12 {
        'C'
    } else if d == 13 {
        'D'
    } else if d == 14 {
        'E'
    } else {
        'F'
    }
}

/// Appends the two uppercase hex digits of `b`.
pub fn push_hex_byte(out: &mut Vec<char>, b: u8)
    ensures
        final(out)@ == old(out)@ + hex_byte(b),
{
    out.push(hex_digit_exec(b / 16));
    out.push(hex_digit_exec(b % 16));
}

pub proof fn lemma_hex_byte_roundtrip(b: u8)
    ensures
        parse_hex_pair(hex_byte(b)[0], hex_byte(b)[1]) == Some(b),
{
}

} // verus!
