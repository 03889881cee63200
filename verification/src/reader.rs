//! The executable script reader; [`crate::script_read`] holds its model.
use vstd::prelude::*;
use crate::text::{
    is_ws, skip_ws, trim, parse_int, parse_bool, lemma_skip_ws_bounds, is_whitespace,
    trim_chars, chars_of, string_of, slice_chars, chars_eq, chars_eq_str, parse_int_chars,
    parse_bool_chars, parse_hex_pair_exec, push_all, push_str,
};
use crate::types::{
    Coord, CoordV, MousePosition, MousePositionV, MacroEvent, MacroEventV, Value, ValueV, Operand,
    OperandV, CompareOp, MacroButton,
};
use crate::command::{MacroCommand, MacroCommandV, Macro, MacroV, Region, commands_view};
use crate::script_read::{
    ArgV, ParsedLineV, find_char, key_end, token_end, quoted_val, quoted_end, lemma_find_char,
    lemma_key_end, lemma_token_end, lemma_quoted_end, parse_args_from, arg_get, arg_quoted,
    parse_line, arg_int, arg_u8, arg_u16, arg_u32, arg_u64, arg_i32, arg_bool, arg_text,
    spec_operand, spec_coord, spec_region, spec_store_var, utf8_len, byte_len,
    is_byte_boundary, is_ascii_seq, color_hex, color_arg_ok, spec_hex_color, spec_compare_op,
    ascii_lower, eq_ignore_case, spec_btn, spec_button, spec_position, spec_recorded_delay_us,
    spec_legacy_expression, spec_expression, key_of, spec_command, is_input_cmd, is_condition_cmd,
    spec_input_command, spec_condition_command, spec_other_command, spec_color_found, line_ok, spec_version,
    rfind_char, spec_quoted_name, ReadState, initial_state, step_line, read_from, lines_ok_from,
    script_ok, spec_deserialize, DEFAULT_VERSION,
};

verus! {

// ---------------------------------------------------------------------------
// tokenizing a line
// ---------------------------------------------------------------------------
/// One `key=value` pair of a script line.
pub struct ArgEntry {
    pub key: Vec<char>,
    pub val: Vec<char>,
    pub quoted: bool,
}

impl View for ArgEntry {
    type V = ArgV;

    open spec fn view(&self) -> ArgV {
        ArgV { key: self.key@, val: self.val@, quoted: self.quoted }
    }
}

pub open spec fn args_view(v: Seq<ArgEntry>) -> Seq<ArgV> {
    v.map_values(|a: ArgEntry| a@)
}

/// A tokenized script line.
pub struct ParsedLine {
    pub raw: Vec<char>,
    pub cmd: Vec<char>,
    pub rest: Vec<char>,
    pub args: Vec<ArgEntry>,
}

impl View for ParsedLine {
    type V = ParsedLineV;

    open spec fn view(&self) -> ParsedLineV {
        ParsedLineV {
            raw: self.raw@,
            cmd: self.cmd@,
            rest: self.rest@,
            args: args_view(self.args@),
        }
    }
}

fn find_char_exec(s: &Vec<char>, c: char, i: usize) -> (r: usize)
    requires
        i <= s.len(),
    ensures
        r == find_char(s@, c, i as int),
{
    let mut k = i;
    while k < s.len() && s[k] != c
        invariant
            i <= k <= s.len(),
            find_char(s@, c, i as int) == find_char(s@, c, k as int),
        decreases s.len() - k,
    {
        k = k + 1;
    }
    k
}

fn skip_ws_exec(s: &Vec<char>, i: usize) -> (r: usize)
    requires
        i <= s.len(),
    ensures
        r == skip_ws(s@, i as int),
{
    let mut k = i;
    while k < s.len() && is_whitespace(s[k])
        invariant
            i <= k <= s.len(),
            skip_ws(s@, i as int) == skip_ws(s@, k as int),
        decreases s.len() - k,
    {
        k = k + 1;
    }
    k
}

fn key_end_exec(s: &Vec<char>, i: usize) -> (r: usize)
    requires
        i <= s.len(),
    ensures
        r == key_end(s@, i as int),
{
    let mut k = i;
    while k < s.len() && !(s[k] == '=' || is_whitespace(s[k]))
        invariant
            i <= k <= s.len(),
            key_end(s@, i as int) == key_end(s@, k as int),
        decreases s.len() - k,
    {
        k = k + 1;
    }
    k
}

fn token_end_exec(s: &Vec<char>, i: usize) -> (r: usize)
    requires
        i <= s.len(),
    ensures
        r == token_end(s@, i as int),
{
    let mut k = i;
    while k < s.len() && !is_whitespace(s[k])
        invariant
            i <= k <= s.len(),
            token_end(s@, i as int) == token_end(s@, k as int),
        decreases s.len() - k,
    {
        k = k + 1;
    }
    k
}

fn read_quoted(s: &Vec<char>, q: char, i: usize) -> (r: (Vec<char>, usize))
    requires
        i <= s.len(),
    ensures
        r.0@ == quoted_val(s@, q, i as int),
        r.1 == quoted_end(s@, q, i as int),
{
    let mut acc: Vec<char> = Vec::new();
    let mut p = i;
    loop
        invariant
            i <= p <= s.len(),
            acc@ + quoted_val(s@, q, p as int) == quoted_val(s@, q, i as int),
            quoted_end(s@, q, p as int) == quoted_end(s@, q, i as int),
        decreases s.len() - p,
    {
        if p >= s.len() {
            assert(acc@ + Seq::<char>::empty() == acc@);
            return (acc, p);
        }
        if s[p] == q {
            if p + 1 < s.len() && s[p + 1] == q {
                acc.push(q);
                proof {
                    assert(seq![q] + quoted_val(s@, q, p + 2) == quoted_val(s@, q, p as int));
                    assert(acc@ + quoted_val(s@, q, p + 2) =~= old_acc_helper(acc@, q)
                        + quoted_val(s@, q, p + 2));
                }
                p = p + 2;
            } else {
                assert(acc@ + Seq::<char>::empty() == acc@);
                return (acc, p + 1);
            }
        } else {
            let c = s[p];
            acc.push(c);
            p = p + 1;
        }
    }
}

spec fn old_acc_helper(a: Seq<char>, q: char) -> Seq<char> {
    a
}

/// Tokenizes the text after a command name into its `key=value` pairs.
pub fn parse_args(s: &Vec<char>) -> (r: Vec<ArgEntry>)
    ensures
        args_view(r@) == parse_args_from(s@, 0),
{
    let mut res: Vec<ArgEntry> = Vec::new();
    let mut i: usize = 0;
    loop
        invariant
            i <= s.len(),
            args_view(res@) + parse_args_from(s@, i as int) == parse_args_from(s@, 0),
        decreases s.len() - i,
    {
        let ghost i0 = i;
        let j = skip_ws_exec(s, i);
        proof {
            lemma_skip_ws_bounds(s@, i as int);
        }
        if j >= s.len() {
            assert(args_view(res@) + Seq::<ArgV>::empty() == args_view(res@));
            return res;
        }
        proof {
            lemma_key_end(s@, j as int);
        }
        let k = key_end_exec(s, j);
        if k < s.len() && s[k] == '=' {
            let key = slice_chars(s, j, k);
            let v = k + 1;
            if v < s.len() && (s[v] == '"' || s[v] == '\'') {
                let q = s[v];
                proof {
                    lemma_quoted_end(s@, q, v + 1);
                }
                let (val, e) = read_quoted(s, q, v + 1);
                let entry = ArgEntry { key, val, quoted: true };
                let ghost before = args_view(res@);
                res.push(entry);
                proof {
                    assert(args_view(res@) =~= before.push(entry@));
                    assert(before.push(entry@) + parse_args_from(s@, e as int) =~= before + (
                    seq![entry@] + parse_args_from(s@, e as int)));
                }
                i = e;
            } else {
                proof {
                    lemma_token_end(s@, v as int);
                }
                let e = token_end_exec(s, v);
                let val = slice_chars(s, v, e);
                let entry = ArgEntry { key, val, quoted: false };
                let ghost before = args_view(res@);
                res.push(entry);
                proof {
                    assert(args_view(res@) =~= before.push(entry@));
                    assert(before.push(entry@) + parse_args_from(s@, e as int) =~= before + (
                    seq![entry@] + parse_args_from(s@, e as int)));
                }
                i = e;
            }
        } else {
            i = k;
        }
    }
}

/// Tokenizes one script line; `None` for a blank or `#` comment line.
pub fn parse_line_exec(line: &Vec<char>) -> (r: Option<ParsedLine>)
    ensures
        r matches Some(pl) ==> parse_line(line@) == Some(pl@),
        r is None ==> parse_line(line@) is None,
{
    let t = trim_chars(line);
    if t.len() == 0 || t[0] == '#' {
        return None;
    }
    proof {
        lemma_find_char(t@, ' ', 0);
    }
    let sp = find_char_exec(&t, ' ', 0);
    let cmd = slice_chars(&t, 0, sp);
    let rest = if sp < t.len() {
        slice_chars(&t, sp + 1, t.len())
    } else {
        Vec::new()
    };
    assert(sp >= t.len() ==> rest@ =~= Seq::<char>::empty());
    let args = parse_args(&rest);
    Some(ParsedLine { raw: t, cmd, rest, args })
}

// ---------------------------------------------------------------------------
// argument lookup
// ---------------------------------------------------------------------------
/// The value of the last pair named `key`.
pub fn arg_get_exec<'a>(args: &'a Vec<ArgEntry>, key: &str) -> (r: Option<&'a Vec<char>>)
    ensures
        r matches Some(v) ==> arg_get(args_view(args@), key@) == Some(v@),
        r is None ==> arg_get(args_view(args@), key@) is None,
{
    let k = chars_of(key);
    let mut j = args.len();
    assert(args@.take(j as int) == args@);
    while j > 0
        invariant
            j <= args.len(),
            k@ == key@,
            arg_get(args_view(args@), key@) == arg_get(args_view(args@.take(j as int)), key@),
        decreases j,
    {
        proof {
            let t = args_view(args@.take(j as int));
            assert(t.last() == args@[j - 1]@);
            assert(t.drop_last() =~= args_view(args@.take(j - 1)));
        }
        if chars_eq(&args[j - 1].key, &k) {
            return Some(&args[j - 1].val);
        }
        j = j - 1;
    }
    assert(args_view(args@.take(0)) =~= Seq::<ArgV>::empty());
    None
}

/// Whether some pair named `key` was quoted.
pub fn arg_quoted_exec(args: &Vec<ArgEntry>, key: &str) -> (r: bool)
    ensures
        r == arg_quoted(args_view(args@), key@),
{
    let k = chars_of(key);
    let mut j = args.len();
    assert(args@.take(j as int) == args@);
    while j > 0
        invariant
            j <= args.len(),
            k@ == key@,
            arg_quoted(args_view(args@), key@) == arg_quoted(args_view(args@.take(j as int)), key@),
        decreases j,
    {
        proof {
            let t = args_view(args@.take(j as int));
            assert(t.last() == args@[j - 1]@);
            assert(t.drop_last() =~= args_view(args@.take(j - 1)));
        }
        if args[j - 1].quoted && chars_eq(&args[j - 1].key, &k) {
            return true;
        }
        j = j - 1;
    }
    assert(args_view(args@.take(0)) =~= Seq::<ArgV>::empty());
    false
}

fn arg_int_exec(args: &Vec<ArgEntry>, key: &str, signed: bool, lo: i128, hi: i128, default: i128) -> (r: i128)
    requires
        -0x1_0000_0000_0000_0000 <= lo <= 0 <= hi <= 0x1_0000_0000_0000_0000,
    ensures
        r == arg_int(args_view(args@), key@, signed, lo as int, hi as int, default as int),
{
    match arg_get_exec(args, key) {
        Some(v) => match parse_int_chars(v, signed, lo, hi) {
            Some(n) => n,
            None => default,
        },
        None => default,
    }
}

fn arg_u8_exec(args: &Vec<ArgEntry>, key: &str, default: u8) -> (r: u8)
    ensures
        r == arg_u8(args_view(args@), key@, default),
{
    let v = arg_int_exec(args, key, false, 0, 255, default as i128);
    proof {
        let a = args_view(args@);
        if let Some(s) = arg_get(a, key@) {
            if let Some(n) = parse_int(s, false, 0, 255) {
                assert(0 <= n <= 255);
            }
        }
    }
    v as u8
}

fn arg_u16_exec(args: &Vec<ArgEntry>, key: &str, default: u16) -> (r: u16)
    ensures
        r == arg_u16(args_view(args@), key@, default),
{
    let v = arg_int_exec(args, key, false, 0, 65535, default as i128);
    proof {
        let a = args_view(args@);
        if let Some(s) = arg_get(a, key@) {
            if let Some(n) = parse_int(s, false, 0, 65535) {
                assert(0 <= n <= 65535);
            }
        }
    }
    v as u16
}

fn arg_u32_exec(args: &Vec<ArgEntry>, key: &str, default: u32) -> (r: u32)
    ensures
        r == arg_u32(args_view(args@), key@, default),
{
    let v = arg_int_exec(args, key, false, 0, 0xffff_ffff, default as i128);
    proof {
        let a = args_view(args@);
        if let Some(s) = arg_get(a, key@) {
            if let Some(n) = parse_int(s, false, 0, 0xffff_ffff) {
                assert(0 <= n <= 0xffff_ffff);
            }
        }
    }
    v as u32
}

fn arg_u64_exec(args: &Vec<ArgEntry>, key: &str, default: u64) -> (r: u64)
    ensures
        r == arg_u64(args_view(args@), key@, default),
{
    let v = arg_int_exec(args, key, false, 0, 0xffff_ffff_ffff_ffff, default as i128);
    proof {
        let a = args_view(args@);
        if let Some(s) = arg_get(a, key@) {
            if let Some(n) = parse_int(s, false, 0, 0xffff_ffff_ffff_ffff) {
                assert(0 <= n <= 0xffff_ffff_ffff_ffff);
            }
        }
    }
    v as u64
}

fn arg_i32_exec(args: &Vec<ArgEntry>, key: &str, default: i32) -> (r: i32)
    ensures
        r == arg_i32(args_view(args@), key@, default),
{
    let v = arg_int_exec(args, key, true, -0x8000_0000, 0x7fff_ffff, default as i128);
    proof {
        let a = args_view(args@);
        if let Some(s) = arg_get(a, key@) {
            if let Some(n) = parse_int(s, true, -0x8000_0000, 0x7fff_ffff) {
                assert(-0x8000_0000 <= n <= 0x7fff_ffff);
            }
        }
    }
    v as i32
}

fn arg_bool_exec(args: &Vec<ArgEntry>, key: &str, default: bool) -> (r: bool)
    ensures
        r == arg_bool(args_view(args@), key@, default),
{
    match arg_get_exec(args, key) {
        Some(v) => match parse_bool_chars(v) {
            Some(b) => b,
            None => default,
        },
        None => default,
    }
}

fn arg_string(args: &Vec<ArgEntry>, key: &str, default: &str) -> (r: String)
    ensures
        r@ == arg_text(args_view(args@), key@, default@),
{
    match arg_get_exec(args, key) {
        Some(v) => string_of(v),
        None => {
            let d = chars_of(default);
            string_of(&d)
        },
    }
}

fn parse_operand(args: &Vec<ArgEntry>, key: &str) -> (r: Operand)
    ensures
        r@ == spec_operand(args_view(args@), key@),
{
    match arg_get_exec(args, key) {
        Some(raw) => {
            if arg_quoted_exec(args, key) {
                Operand::Literal(Value::Text(string_of(raw)))
            } else if raw.len() > 0 && raw[0] == '$' {
                let name = slice_chars(raw, 1, raw.len());
                proof {
                    assert(name@ =~= raw@.skip(1));
                }
                Operand::Var(string_of(&name))
            } else {
                match parse_int_chars(raw, true, -0x8000_0000_0000_0000, 0x7fff_ffff_ffff_ffff) {
                    Some(n) => Operand::Literal(Value::Number(n as i64)),
                    None => Operand::Literal(Value::Number(0)),
                }
            }
        },
        None => Operand::Literal(Value::Number(0)),
    }
}

fn parse_coord(args: &Vec<ArgEntry>, key: &str) -> (r: Coord)
    ensures
        r@ == spec_coord(args_view(args@), key@),
{
    match arg_get_exec(args, key) {
        Some(raw) => {
            if raw.len() > 0 && raw[0] == '$' {
                let name = slice_chars(raw, 1, raw.len());
                proof {
                    assert(name@ =~= raw@.skip(1));
                }
                Coord::Var(string_of(&name))
            } else {
                match parse_int_chars(raw, true, -0x8000_0000, 0x7fff_ffff) {
                    Some(n) => Coord::Const(n as i32),
                    None => Coord::Const(0),
                }
            }
        },
        None => Coord::Const(0),
    }
}

fn parse_region(args: &Vec<ArgEntry>) -> (r: Option<Region>)
    ensures
        r == spec_region(args_view(args@)),
{
    if arg_get_exec(args, "left").is_none() || arg_get_exec(args, "top").is_none()
        || arg_get_exec(args, "width").is_none() || arg_get_exec(args, "height").is_none() {
        return None;
    }
    Some(
        (
            arg_i32_exec(args, "left", 0),
            arg_i32_exec(args, "top", 0),
            arg_i32_exec(args, "width", 0),
            arg_i32_exec(args, "height", 0),
        ),
    )
}

fn parse_store_var(args: &Vec<ArgEntry>, key: &str) -> (r: Option<String>)
    ensures
        crate::command::opt_view(r) == spec_store_var(args_view(args@), key@),
{
    match arg_get_exec(args, key) {
        Some(v) => if v.len() > 0 {
            Some(string_of(v))
        } else {
            None
        },
        None => None,
    }
}

// ---------------------------------------------------------------------------
// colors
// ---------------------------------------------------------------------------
fn utf8_len_exec(c: char) -> (n: u64)
    ensures
        n == utf8_len(c),
{
    if (c as u32) < 0x80 {
        1
    } else if (c as u32) < 0x800 {
        2
    } else if (c as u32) < 0x10000 {
        3
    } else {
        4
    }
}

proof fn lemma_byte_len_take(s: Seq<char>, k: int)
    requires
        0 <= k < s.len(),
    ensures
        byte_len(s.take(k + 1)) == byte_len(s.take(k)) + utf8_len(s[k]),
        byte_len(s.take(k + 1)) > byte_len(s.take(k)),
{
    assert(s.take(k + 1).drop_last() == s.take(k));
}

proof fn lemma_byte_len_mono(s: Seq<char>, i: int, j: int)
    requires
        0 <= i <= j <= s.len(),
    ensures
        byte_len(s.take(i)) <= byte_len(s.take(j)),
        i < j ==> byte_len(s.take(i)) < byte_len(s.take(j)),
    decreases j - i,
{
    if i < j {
        lemma_byte_len_mono(s, i, j - 1);
        lemma_byte_len_take(s, j - 1);
    }
}

fn color_hex_exec(raw: &Vec<char>) -> (h: Vec<char>)
    ensures
        h@ == color_hex(raw@),
{
    if raw.len() > 0 && raw[0] == '#' {
        let h = slice_chars(raw, 1, raw.len());
        assert(h@ =~= raw@.skip(1));
        h
    } else {
        slice_chars(raw, 0, raw.len())
    }
}

/// Whether a color argument can be read without cutting through a character.
pub fn color_arg_ok_exec(raw: Option<&Vec<char>>) -> (b: bool)
    ensures
        b == color_arg_ok(match raw {
            Some(r) => Some(r@),
            None => None,
        }),
{
    let r = match raw {
        Some(r) => r,
        None => return true,
    };
    let h = color_hex_exec(r);
    let ghost s = h@;
    let mut k: usize = 0;
    let mut cum: u64 = 0;
    let mut hit2 = false;
    let mut hit4 = false;
    assert(s.take(0) =~= Seq::<char>::empty());
    assert(byte_len(s.take(0)) == 0);
    while k < h.len()
        invariant
            s == h@,
            h@ == color_hex(r@),
            raw == Some(r),
            k <= h.len(),
            cum == byte_len(s.take(k as int)),
            cum <= 6,
            hit2 <==> (exists|m: int| 0 <= m <= k && #[trigger] byte_len(s.take(m)) == 2),
            hit4 <==> (exists|m: int| 0 <= m <= k && #[trigger] byte_len(s.take(m)) == 4),
        decreases h.len() - k,
    {
        proof {
            lemma_byte_len_take(s, k as int);
        }
        let n = utf8_len_exec(h[k]);
        if cum + n > 6 {
            proof {
                lemma_byte_len_mono(s, k + 1, s.len() as int);
                assert(s.take(s.len() as int) == s);
                assert(byte_len(s) > 6);
            }
            return true;
        }
        cum = cum + n;
        k = k + 1;
        if cum == 2 {
            hit2 = true;
        }
        if cum == 4 {
            hit4 = true;
        }
        proof {
            assert(byte_len(s.take(k as int)) == cum);
            if hit2 {
                if cum == 2 {
                    assert(byte_len(s.take(k as int)) == 2);
                } else {
                    let m = choose|m: int| 0 <= m <= k - 1 && #[trigger] byte_len(s.take(m)) == 2;
                    assert(0 <= m <= k && byte_len(s.take(m)) == 2);
                }
            } else {
                assert forall|m: int| 0 <= m <= k implies #[trigger] byte_len(s.take(m)) != 2 by {
                    if m < k {
                    }
                }
            }
            if hit4 {
                if cum == 4 {
                    assert(byte_len(s.take(k as int)) == 4);
                } else {
                    let m = choose|m: int| 0 <= m <= k - 1 && #[trigger] byte_len(s.take(m)) == 4;
                    assert(0 <= m <= k && byte_len(s.take(m)) == 4);
                }
            } else {
                assert forall|m: int| 0 <= m <= k implies #[trigger] byte_len(s.take(m)) != 4 by {
                    if m < k {
                    }
                }
            }
        }
    }
    assert(s.take(s.len() as int) == s);
    proof {
        if cum == 6 {
            if !hit2 {
                assert forall|m: int| 0 <= m <= s.len() implies #[trigger] byte_len(s.take(m))
                    != 2 by {}
            }
            if !hit4 {
                assert forall|m: int| 0 <= m <= s.len() implies #[trigger] byte_len(s.take(m))
                    != 4 by {}
            }
        }
    }
    cum != 6 || (hit2 && hit4)
}

proof fn lemma_ascii_byte_len(s: Seq<char>)
    requires
        is_ascii_seq(s),
    ensures
        byte_len(s) == s.len(),
    decreases s.len(),
{
    if s.len() > 0 {
        assert(is_ascii_seq(s.drop_last()));
        lemma_ascii_byte_len(s.drop_last());
        assert((s.last() as u32) < 0x80);
    }
}

fn parse_hex_color(raw: Option<&Vec<char>>) -> (c: (u8, u8, u8))
    ensures
        c == spec_hex_color(match raw {
            Some(r) => Some(r@),
            None => None,
        }),
{
    let r = match raw {
        Some(r) => r,
        None => return (0, 0, 0),
    };
    let h = color_hex_exec(r);
    if h.len() != 6 {
        return (0, 0, 0);
    }
    let mut i: usize = 0;
    while i < 6
        invariant
            h.len() == 6,
            h@ == color_hex(r@),
            raw == Some(r),
            i <= 6,
            forall|k: int| 0 <= k < i ==> (#[trigger] h@[k] as u32) < 0x80,
        decreases 6 - i,
    {
        if (h[i] as u32) >= 0x80 {
            assert(!is_ascii_seq(h@));
            return (0, 0, 0);
        }
        i = i + 1;
    }
    match (
        parse_hex_pair_exec(h[0], h[1]),
        parse_hex_pair_exec(h[2], h[3]),
        parse_hex_pair_exec(h[4], h[5]),
    ) {
        (Some(r), Some(g), Some(b)) => (r, g, b),
        _ => (0, 0, 0),
    }
}

// ---------------------------------------------------------------------------
// other argument kinds
// ---------------------------------------------------------------------------
fn parse_compare_op(args: &Vec<ArgEntry>) -> (op: CompareOp)
    ensures
        op == spec_compare_op(args_view(args@)),
{
    match arg_get_exec(args, "op") {
        Some(s) => if chars_eq_str(s, "!=") {
            CompareOp::Ne
        } else if chars_eq_str(s, "<") {
            CompareOp::Lt
        } else if chars_eq_str(s, "<=") {
            CompareOp::Le
        } else if chars_eq_str(s, ">") {
            CompareOp::Gt
        } else if chars_eq_str(s, ">=") {
            CompareOp::Ge
        } else if chars_eq_str(s, "contains") {
            CompareOp::Contains
        } else {
            CompareOp::Eq
        },
        None => CompareOp::Eq,
    }
}

fn eq_ignore_case_exec(s: &Vec<char>, w: &str) -> (b: bool)
    ensures
        b == eq_ignore_case(s@, w@),
{
    let wv = chars_of(w);
    if s.len() != wv.len() {
        return false;
    }
    let mut i: usize = 0;
    while i < s.len()
        invariant
            i <= s.len() == wv.len(),
            wv@ == w@,
            forall|k: int| 0 <= k < i ==> ascii_lower(#[trigger] s@[k]) == wv@[k],
        decreases s.len() - i,
    {
        let c = s[i];
        let l = if 'A' <= c && c <= 'Z' {
            ((c as u32) + 32) as u8 as char
        } else {
            c
        };
        assert(l == ascii_lower(c)) by {
            if 'A' <= c && c <= 'Z' {
                assert((c as u32 + 32) as u8 as char == ((c as int) + 32) as char);
            }
        }
        if l != wv[i] {
            return false;
        }
        i = i + 1;
    }
    true
}

/// A button name, case-insensitively: `right`, `middle`, otherwise the left button.
pub fn parse_btn(s: &Vec<char>) -> (b: MacroButton)
    ensures
        b == spec_btn(s@),
{
    if eq_ignore_case_exec(s, "right") {
        MacroButton::Right
    } else if eq_ignore_case_exec(s, "middle") {
        MacroButton::Middle
    } else {
        MacroButton::Left
    }
}

fn parse_button(args: &Vec<ArgEntry>) -> (b: MacroButton)
    ensures
        b == spec_button(args_view(args@)),
{
    match arg_get_exec(args, "btn") {
        Some(s) => parse_btn(s),
        None => {
            let d = chars_of("Left");
            parse_btn(&d)
        },
    }
}

fn parse_position(args: &Vec<ArgEntry>) -> (p: MousePosition)
    ensures
        p@ == spec_position(args_view(args@)),
{
    let is_current = match arg_get_exec(args, "pos") {
        Some(s) => chars_eq_str(s, "current"),
        None => false,
    };
    if is_current {
        MousePosition::Current
    } else {
        MousePosition::Absolute { x: parse_coord(args, "x"), y: parse_coord(args, "y") }
    }
}

fn parse_recorded_delay_us(args: &Vec<ArgEntry>) -> (us: u64)
    requires
        arg_get(args_view(args@), "us"@) is None ==> arg_u64(args_view(args@), "ms"@, 0) as int
            * 1000 <= u64::MAX,
    ensures
        us == spec_recorded_delay_us(args_view(args@)),
{
    if arg_get_exec(args, "us").is_some() {
        arg_u64_exec(args, "us", 0)
    } else {
        arg_u64_exec(args, "ms", 0) * 1000
    }
}

fn parse_expression(args: &Vec<ArgEntry>) -> (e: String)
    ensures
        e@ == spec_expression(args_view(args@)),
{
    if let Some(e) = arg_get_exec(args, "expr") {
        return string_of(e);
    }
    match (arg_get_exec(args, "left"), arg_get_exec(args, "right")) {
        (Some(l), Some(r)) => {
            let mut out: Vec<char> = Vec::new();
            push_all(&mut out, l);
            out.push(' ');
            match arg_get_exec(args, "op") {
                Some(op) => push_all(&mut out, op),
                None => push_str(&mut out, "+"),
            }
            out.push(' ');
            push_all(&mut out, r);
            proof {
                let a = args_view(args@);
                assert(out@ =~= l@ + seq![' '] + arg_text(a, "op"@, "+"@) + seq![' '] + r@);
            }
            string_of(&out)
        },
        _ => String::new(),
    }
}

// ---------------------------------------------------------------------------
// commands
// ---------------------------------------------------------------------------
fn parse_input_command(pl: &ParsedLine) -> (r: Option<MacroCommand>)
    requires
        line_ok(pl@),
        is_input_cmd(pl@.cmd),
    ensures
        r matches Some(c) ==> spec_input_command(pl@.cmd, pl@.args) == Some(c@),
        r is None ==> spec_input_command(pl@.cmd, pl@.args) is None,
{
    let a = &pl.args;
    let cmd = &pl.cmd;
    if chars_eq_str(cmd, "Delay") {
        if arg_get_exec(a, "duration_ms").is_some() {
            Some(MacroCommand::Delay { duration_ms: parse_operand(a, "duration_ms") })
        } else {
            Some(MacroCommand::Action(MacroEvent::Delay(parse_recorded_delay_us(a))))
        }
    } else if chars_eq_str(cmd, "MouseMove") {
        Some(MacroCommand::Action(MacroEvent::MouseMove { x: parse_coord(a, "x"), y: parse_coord(a, "y") }))
    } else if chars_eq_str(cmd, "Click") {
        Some(MacroCommand::Action(MacroEvent::Click {
            position: parse_position(a),
            button: parse_button(a),
            jitter: arg_u32_exec(a, "jitter", 0),
            hold_time_ms: arg_u32_exec(a, "hold", 30),
        }))
    } else if chars_eq_str(cmd, "MouseDown") {
        Some(MacroCommand::Action(MacroEvent::MouseDown {
            position: parse_position(a),
            button: parse_button(a),
            jitter: arg_u32_exec(a, "jitter", 0),
        }))
    } else if chars_eq_str(cmd, "MouseUp") {
        Some(MacroCommand::Action(MacroEvent::MouseUp {
            position: parse_position(a),
            button: parse_button(a),
            jitter: arg_u32_exec(a, "jitter", 0),
        }))
    } else if chars_eq_str(cmd, "Scroll") {
        Some(MacroCommand::Action(MacroEvent::Scroll { dx: arg_i32_exec(a, "dx", 0), dy: arg_i32_exec(a, "dy", 0) }))
    } else if chars_eq_str(cmd, "KeyDown") {
        Some(MacroCommand::Action(MacroEvent::KeyDown { key: arg_string(a, "key", "Unknown"), code: arg_u16_exec(a, "code", 0) }))
    } else if chars_eq_str(cmd, "KeyUp") {
        Some(MacroCommand::Action(MacroEvent::KeyUp { key: arg_string(a, "key", "Unknown"), code: arg_u16_exec(a, "code", 0) }))
    } else if chars_eq_str(cmd, "KeyPress") {
        Some(MacroCommand::Action(MacroEvent::KeyPress {
            key: arg_string(a, "key", "Unknown"),
            code: arg_u16_exec(a, "code", 0),
            hold_time_ms: arg_u32_exec(a, "hold_time_ms", 30),
        }))
    } else {
        None
    }
}

fn parse_color_found(a: &Vec<ArgEntry>) -> (c: MacroCommand)
    requires
        color_arg_ok(arg_get(args_view(a@), "color"@)),
    ensures
        c@ == spec_color_found(args_view(a@)),
{
    let (r, g, b) = parse_hex_color(arg_get_exec(a, "color"));
    MacroCommand::IfColorFound {
        region: parse_region(a),
        r,
        g,
        b,
        tolerance: arg_u8_exec(a, "tol", 0),
        min_width: arg_u32_exec(a, "min_width", 1),
        min_height: arg_u32_exec(a, "min_height", 1),
        move_cursor_if_found: arg_bool_exec(a, "move", false),
        store_x: parse_store_var(a, "store_x"),
        store_y: parse_store_var(a, "store_y"),
        store_w: parse_store_var(a, "store_w"),
        store_h: parse_store_var(a, "store_h"),
    }
}

#[verifier::rlimit(40)]
fn parse_condition_command(pl: &ParsedLine) -> (r: Option<MacroCommand>)
    requires
        line_ok(pl@),
        is_condition_cmd(pl@.cmd),
    ensures
        r matches Some(c) ==> spec_condition_command(pl@.cmd, pl@.args) == Some(c@),
        r is None ==> spec_condition_command(pl@.cmd, pl@.args) is None,
{
    let a = &pl.args;
    let cmd = &pl.cmd;
    if chars_eq_str(cmd, "IfPixelColor") {
        let c = MacroCommand::IfPixelColor {
            x: parse_coord(a, "x"),
            y: parse_coord(a, "y"),
            r: arg_u8_exec(a, "r", 0),
            g: arg_u8_exec(a, "g", 0),
            b: arg_u8_exec(a, "b", 0),
            tolerance: arg_u8_exec(a, "tol", 0),
        };
        Some(c)
    } else if chars_eq_str(cmd, "IfImageFound") {
        let c = MacroCommand::IfImageFound {
            target_image_path: arg_string(a, "target", ""),
            similarity_threshold: arg_string(a, "tol", "0"),
            move_cursor_if_found: arg_bool_exec(a, "move", false),
            trigger_if_not_found: arg_bool_exec(a, "not_found", false),
            region: parse_region(a),
            store_x: parse_store_var(a, "store_x"),
            store_y: parse_store_var(a, "store_y"),
        };
        Some(c)
    } else if chars_eq_str(cmd, "IfColorFound") {
        let c = parse_color_found(a);
        Some(c)
    } else {
        None
    }
}

fn opt_string(v: Option<&Vec<char>>) -> (r: Option<String>)
    ensures
        crate::command::opt_view(r) == match v {
            Some(x) => Some(x@),
            None => None,
        },
{
    match v {
        Some(x) => Some(string_of(x)),
        None => None,
    }
}

#[verifier::rlimit(40)]
fn parse_other_command(pl: &ParsedLine) -> (r: Option<MacroCommand>)
    ensures
        r matches Some(c) ==> spec_other_command(pl@.cmd, pl@.args) == Some(c@),
        r is None ==> spec_other_command(pl@.cmd, pl@.args) is None,
{
    let a = &pl.args;
    let cmd = &pl.cmd;
    if chars_eq_str(cmd, "EndIf") {
        Some(MacroCommand::EndIf)
    } else if chars_eq_str(cmd, "Loop") {
        Some(MacroCommand::Loop { count: parse_operand(a, "count") })
    } else if chars_eq_str(cmd, "Else") {
        Some(MacroCommand::Else)
    } else if chars_eq_str(cmd, "EndLoop") {
        Some(MacroCommand::EndLoop)
    } else if chars_eq_str(cmd, "PlayMacro") {
        match opt_string(arg_get_exec(a, "path")) {
            Some(p) => Some(MacroCommand::PlayMacro(p)),
            None => None,
        }
    } else if chars_eq_str(cmd, "Label") {
        match opt_string(arg_get_exec(a, "name")) {
            Some(p) => Some(MacroCommand::Label(p)),
            None => None,
        }
    } else if chars_eq_str(cmd, "Goto") {
        match opt_string(arg_get_exec(a, "target")) {
            Some(p) => Some(MacroCommand::Goto(p)),
            None => None,
        }
    } else if chars_eq_str(cmd, "TypeText") {
        match opt_string(arg_get_exec(a, "text")) {
            Some(p) => Some(MacroCommand::TypeText(p)),
            None => None,
        }
    } else if chars_eq_str(cmd, "OpenFile") {
        Some(MacroCommand::OpenFile {
            path: arg_string(a, "path", ""),
            args: arg_string(a, "args", ""),
            run_as_admin: arg_bool_exec(a, "admin", false),
        })
    } else if chars_eq_str(cmd, "SetVariable") {
        Some(MacroCommand::SetVariable {
            target: arg_string(a, "target", ""),
            value: parse_operand(a, "value"),
        })
    } else if chars_eq_str(cmd, "Calculate") {
        Some(MacroCommand::Calculate {
            target: arg_string(a, "target", ""),
            expression: parse_expression(a),
        })
    } else if chars_eq_str(cmd, "IfCompare") {
        Some(MacroCommand::IfCompare {
            left: parse_operand(a, "left"),
            op: parse_compare_op(a),
            right: parse_operand(a, "right"),
        })
    } else if chars_eq_str(cmd, "SetClipboard") {
        Some(MacroCommand::SetClipboard { text: parse_operand(a, "text") })
    } else if chars_eq_str(cmd, "GetClipboard") {
        Some(MacroCommand::GetClipboard { target: arg_string(a, "target", "") })
    } else if chars_eq_str(cmd, "Comment") {
        match opt_string(arg_get_exec(a, "text")) {
            Some(p) => Some(MacroCommand::Comment(p)),
            None => None,
        }
    } else {
        None
    }
}

/// The command a tokenized line stands for; `None` for an unknown command or
/// a missing required argument.
pub fn parse_command(pl: &ParsedLine) -> (r: Option<MacroCommand>)
    requires
        line_ok(pl@),
    ensures
        r matches Some(c) ==> spec_command(pl@.cmd, pl@.args) == Some(c@),
        r is None ==> spec_command(pl@.cmd, pl@.args) is None,
{
    let cmd = &pl.cmd;
    if chars_eq_str(cmd, "Delay") || chars_eq_str(cmd, "MouseMove") || chars_eq_str(cmd, "Click")
        || chars_eq_str(cmd, "MouseDown") || chars_eq_str(cmd, "MouseUp") || chars_eq_str(
        cmd,
        "Scroll",
    ) || chars_eq_str(cmd, "KeyDown") || chars_eq_str(cmd, "KeyUp") || chars_eq_str(
        cmd,
        "KeyPress",
    ) {
        parse_input_command(pl)
    } else if chars_eq_str(cmd, "IfPixelColor") || chars_eq_str(cmd, "IfImageFound")
        || chars_eq_str(cmd, "IfColorFound") {
        parse_condition_command(pl)
    } else {
        parse_other_command(pl)
    }
}

} // verus!

verus! {

// ---------------------------------------------------------------------------
// header lines and whole scripts
// ---------------------------------------------------------------------------
fn parse_version(rest: &Vec<char>, current: u8) -> (v: u8)
    ensures
        v == spec_version(rest@, current),
{
    let a = skip_ws_exec(rest, 0);
    if a >= rest.len() {
        return current;
    }
    proof {
        lemma_skip_ws_bounds(rest@, 0);
        lemma_token_end(rest@, a as int);
    }
    let e = token_end_exec(rest, a);
    let tok = slice_chars(rest, a, e);
    match parse_int_chars(&tok, false, 0, 255) {
        Some(v) => v as u8,
        None => DEFAULT_VERSION,
    }
}

fn rfind_char_exec(s: &Vec<char>, c: char) -> (r: Option<usize>)
    ensures
        r matches Some(k) ==> rfind_char(s@, c, s@.len() as int) == k && k < s@.len(),
        r is None ==> rfind_char(s@, c, s@.len() as int) == -1,
{
    let mut j = s.len();
    while j > 0
        invariant
            j <= s.len(),
            rfind_char(s@, c, s@.len() as int) == rfind_char(s@, c, j as int),
        decreases j,
    {
        if s[j - 1] == c {
            return Some(j - 1);
        }
        j = j - 1;
    }
    None
}

proof fn lemma_rfind_char(s: Seq<char>, c: char, j: int)
    requires
        0 <= j <= s.len(),
    ensures
        -1 <= rfind_char(s, c, j) < j,
        rfind_char(s, c, j) >= 0 ==> s[rfind_char(s, c, j)] == c,
        forall|k: int| rfind_char(s, c, j) < k < j ==> s[k] != c,
    decreases j,
{
    if j > 0 && s[j - 1] != c {
        lemma_rfind_char(s, c, j - 1);
    }
}

fn parse_quoted_name(raw: &Vec<char>) -> (r: Option<Vec<char>>)
    ensures
        r matches Some(n) ==> spec_quoted_name(raw@) == Some(n@),
        r is None ==> spec_quoted_name(raw@) is None,
{
    proof {
        lemma_find_char(raw@, '"', 0);
        lemma_rfind_char(raw@, '"', raw@.len() as int);
    }
    let start = find_char_exec(raw, '"', 0);
    if start >= raw.len() {
        return None;
    }
    let end = match rfind_char_exec(raw, '"') {
        Some(e) => e,
        None => return None,
    };
    if start == end {
        return None;
    }
    proof {
        assert(raw@[end as int] == '"');
        if end < start {
            assert(raw@[start as int] == '"');
        }
    }
    Some(slice_chars(raw, start + 1, end))
}

/// Whether a tokenized line can be read without an overflow or a cut through a character.
pub fn line_ok_exec(pl: &ParsedLine) -> (b: bool)
    ensures
        b == line_ok(pl@),
{
    let delay_ok = if chars_eq_str(&pl.cmd, "Delay") && arg_get_exec(&pl.args, "duration_ms").is_none()
        && arg_get_exec(&pl.args, "us").is_none() {
        arg_u64_exec(&pl.args, "ms", 0) <= 18_446_744_073_709_551u64
    } else {
        true
    };
    let color_ok = if chars_eq_str(&pl.cmd, "IfColorFound") {
        color_arg_ok_exec(arg_get_exec(&pl.args, "color"))
    } else {
        true
    };
    delay_ok && color_ok
}

pub open spec fn state_view(name: Seq<char>, version: u8, commands: Seq<MacroCommand>) -> ReadState {
    ReadState { name, version, commands: commands_view(commands) }
}

/// Reads a script; `None` exactly when some line would overflow or cut a
/// character (see [`script_ok`]).
pub fn read_script(s: &Vec<char>) -> (r: Option<Macro>)
    ensures
        r is Some <==> script_ok(s@),
        r matches Some(m) ==> m@ == spec_deserialize(s@),
{
    let mut name: Vec<char> = chars_of("untitled");
    let mut version: u8 = DEFAULT_VERSION;
    let mut commands: Vec<MacroCommand> = Vec::new();
    let mut i: usize = 0;
    proof {
        assert(commands_view(commands@) =~= Seq::<MacroCommandV>::empty());
    }
    loop
        invariant
            i <= s.len(),
            read_from(s@, 0, initial_state()) == read_from(
                s@,
                i as int,
                state_view(name@, version, commands@),
            ),
            lines_ok_from(s@, 0) == lines_ok_from(s@, i as int),
        decreases s.len() - i,
    {
        proof {
            lemma_find_char(s@, '\n', i as int);
        }
        let e = find_char_exec(s, '\n', i);
        let line = slice_chars(s, i, e);
        let ghost st = state_view(name@, version, commands@);
        match parse_line_exec(&line) {
            None => {},
            Some(pl) => {
                if !line_ok_exec(&pl) {
                    return None;
                }
                if chars_eq_str(&pl.cmd, "version") {
                    version = parse_version(&pl.rest, version);
                } else if chars_eq_str(&pl.cmd, "name") {
                    match parse_quoted_name(&pl.raw) {
                        Some(n) => {
                            name = n;
                        },
                        None => {},
                    }
                } else {
                    match parse_command(&pl) {
                        Some(c) => {
                            let ghost before = commands@;
                            commands.push(c);
                            proof {
                                assert(commands_view(commands@) =~= commands_view(before).push(
                                    c@,
                                ));
                            }
                        },
                        None => {},
                    }
                }
            },
        }
        assert(state_view(name@, version, commands@) == step_line(st, s@.subrange(i as int, e as int)));
        if e >= s.len() {
            let m = Macro { name: string_of(&name), version, commands };
            return Some(m);
        }
        i = e + 1;
    }
}

/// Parses `.wmr` script text into a macro: header lines set the name and
/// format version, the remaining lines are read as commands; unknown commands
/// are skipped.
pub fn deserialize(script: &str) -> (r: Result<Macro, String>)
    requires
        script_ok(script@),
    ensures
        r matches Ok(m) && m@ == spec_deserialize(script@),
{
    let s = chars_of(script);
    match read_script(&s) {
        Some(m) => Ok(m),
        None => Err(String::new()),
    }
}

/// Whether `script` can be read without an arithmetic overflow or a cut
/// through a character (the condition [`deserialize`] requires).
pub fn script_readable(script: &str) -> (b: bool)
    ensures
        b == script_ok(script@),
{
    let s = chars_of(script);
    read_script(&s).is_some()
}

} // verus!
