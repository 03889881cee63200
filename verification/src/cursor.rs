//! The pointer position as Hyprland reports it (`x, y`), and the command
//! that moves the pointer there.
use vstd::prelude::*;
use crate::text::{
    trim, trim_chars, chars_of, string_of, fmt_i64, push_str, push_all, dec_int, dec_digits, is_ws, is_digit,
    skip_ws, skip_ws_back, lemma_dec_digits, lemma_parse_dec_int,
};
use crate::bounds::{first_char, parse_i32, parse_i32_chars, split_once_char};

verus! {

/// The position in a `cursorpos` reply: trimmed, cut at its first comma,
/// each side trimmed and read as an `i32`.
pub open spec fn spec_cursorpos(reply: Seq<char>) -> Option<(i32, i32)> {
    let t = trim(reply);
    match first_char(t, ',', 0) {
        Some(p) => match (parse_i32(trim(t.subrange(0, p))), parse_i32(trim(t.subrange(p + 1, t.len() as int)))) {
            (Some(x), Some(y)) => Some((x, y)),
            _ => None,
        },
        None => None,
    }
}

proof fn lemma_dec_int_shape(n: int)
    ensures
        dec_int(n).len() > 0,
        !is_ws(dec_int(n)[0]),
        !is_ws(dec_int(n).last()),
        forall|k: int| 0 <= k < dec_int(n).len() ==> #[trigger] dec_int(n)[k] != ',',
{
    if n < 0 {
        lemma_dec_digits((-n) as nat);
        let d = dec_digits((-n) as nat);
        assert forall|k: int| 0 <= k < dec_int(n).len() implies #[trigger] dec_int(n)[k] != ',' by {
            if k > 0 {
                assert(dec_int(n)[k] == d[k - 1]);
                assert(is_digit(d[k - 1]));
            }
        }
        assert(dec_int(n).last() == d.last());
        assert(is_digit(d[d.len() - 1]));
    } else {
        lemma_dec_digits(n as nat);
        let d = dec_digits(n as nat);
        assert(is_digit(d[0]));
        assert(is_digit(d[d.len() - 1]));
        assert forall|k: int| 0 <= k < dec_int(n).len() implies #[trigger] dec_int(n)[k] != ',' by {
            assert(is_digit(d[k]));
        }
    }
}

proof fn lemma_first_comma(s: Seq<char>, i: int, p: int)
    requires
        0 <= i <= p < s.len(),
        s[p] == ',',
        forall|k: int| i <= k < p ==> #[trigger] s[k] != ',',
    ensures
        first_char(s, ',', i) == Some(p),
    decreases p - i,
{
    if i < p {
        lemma_first_comma(s, i + 1, p);
    }
}

/// A reply written as the two numbers with a comma and a blank between, as
/// Hyprland prints it, reads back as that position.
pub proof fn lemma_cursorpos_reads_printed(x: i32, y: i32)
    ensures
        spec_cursorpos(dec_int(x as int) + ", "@ + dec_int(y as int)) == Some((x, y)),
{
    reveal_strlit(", ");
    let a = dec_int(x as int);
    let b = dec_int(y as int);
    lemma_dec_int_shape(x as int);
    lemma_dec_int_shape(y as int);
    let s = a + ", "@ + b;
    assert(s[0] == a[0]);
    assert(s.last() == b.last());
    assert(skip_ws(s, 0) == 0);
    assert(skip_ws_back(s, 0, s.len() as int) == s.len());
    assert(trim(s) =~= s);
    assert(s[a.len() as int] == ',');
    assert forall|k: int| 0 <= k < a.len() implies #[trigger] s[k] != ',' by {
        assert(s[k] == a[k]);
    }
    lemma_first_comma(s, 0, a.len() as int);
    let left = s.subrange(0, a.len() as int);
    let right = s.subrange(a.len() as int + 1, s.len() as int);
    assert(left =~= a);
    assert(skip_ws(a, 0) == 0);
    assert(skip_ws_back(a, 0, a.len() as int) == a.len());
    assert(trim(a) =~= a);
    assert(right =~= seq![' '] + b);
    assert(right[1] == b[0]);
    assert(skip_ws(right, 1) == 1);
    assert(skip_ws(right, 0) == 1);
    assert(right.last() == b.last());
    assert(skip_ws_back(right, 1, right.len() as int) == right.len());
    assert(trim(right) =~= b);
    lemma_parse_dec_int(x as int, true, i32::MIN as int, i32::MAX as int);
    lemma_parse_dec_int(y as int, true, i32::MIN as int, i32::MAX as int);
}

/// Reads the pointer position out of a `cursorpos` reply, such as `1280, 720`.
pub fn parse_cursorpos(reply: &str) -> (r: Option<(i32, i32)>)
    ensures
        r == spec_cursorpos(reply@),
{
    let s = chars_of(reply);
    let t = trim_chars(&s);
    match split_once_char(&t, ',') {
        Some((a, b)) => {
            let a = trim_chars(&a);
            let b = trim_chars(&b);
            match (parse_i32_chars(&a), parse_i32_chars(&b)) {
                (Some(x), Some(y)) => Some((x, y)),
                _ => None,
            }
        },
        None => None,
    }
}

/// The Hyprland request that moves the pointer to `(x, y)`.
pub open spec fn spec_movecursor(x: i32, y: i32) -> Seq<char> {
    "dispatch movecursor "@ + dec_int(x as int) + " "@ + dec_int(y as int)
}

/// The Hyprland request that moves the pointer to `(x, y)`.
pub fn movecursor_command(x: i32, y: i32) -> (r: String)
    ensures
        r@ == spec_movecursor(x, y),
{
    let mut v: Vec<char> = Vec::new();
    push_str(&mut v, "dispatch movecursor ");
    let xs = fmt_i64(x as i64);
    push_all(&mut v, &xs);
    push_str(&mut v, " ");
    let ys = fmt_i64(y as i64);
    push_all(&mut v, &ys);
    string_of(&v)
}

} // verus!
