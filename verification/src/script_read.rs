//! Reading `.wmr` script text into a macro.
//!
//! A script is a list of lines. Blank lines and lines starting with `#` are
//! skipped; `version N` and `name "..."` set the header; every other line is
//! `Command key=value key="quoted value" ...`, where a quoted value doubles its
//! delimiter to include it (`"a""b"` is `a"b`).
use vstd::prelude::*;
use crate::text::{
    is_ws, skip_ws, trim, parse_int, parse_bool, parse_hex_pair, lemma_skip_ws_bounds,
};
use crate::types::{CoordV, MousePositionV, MacroEventV, ValueV, OperandV, CompareOp, MacroButton};
use crate::command::{MacroCommandV, MacroV, Region};

verus! {

pub const DEFAULT_VERSION: u8 = 3;

// ---------------------------------------------------------------------------
// model: tokenizing one line
// ---------------------------------------------------------------------------
/// One `key=value` pair of a script line, in the order written.
pub struct ArgV {
    pub key: Seq<char>,
    pub val: Seq<char>,
    pub quoted: bool,
}

/// First position at or after `i` holding `c`, or the length.
pub open spec fn find_char(s: Seq<char>, c: char, i: int) -> int
    decreases s.len() - i,
{
    if i < 0 {
        0
    } else if i >= s.len() {
        s.len() as int
    } else if s[i] == c {
        i
    } else {
        find_char(s, c, i + 1)
    }
}

/// End of a key: the first `=` or white space at or after `i`.
pub open spec fn key_end(s: Seq<char>, i: int) -> int
    decreases s.len() - i,
{
    if i < 0 {
        0
    } else if i >= s.len() {
        s.len() as int
    } else if s[i] == '=' || is_ws(s[i]) {
        i
    } else {
        key_end(s, i + 1)
    }
}

/// End of an unquoted value: the first white space at or after `i`.
pub open spec fn token_end(s: Seq<char>, i: int) -> int
    decreases s.len() - i,
{
    if i < 0 {
        0
    } else if i >= s.len() {
        s.len() as int
    } else if is_ws(s[i]) {
        i
    } else {
        token_end(s, i + 1)
    }
}

/// The content of a value quoted with `q`, read from `i` (just after the
/// opening delimiter) to the closing delimiter or the end of the line.
pub open spec fn quoted_val(s: Seq<char>, q: char, i: int) -> Seq<char>
    decreases s.len() - i,
{
    if i < 0 || i >= s.len() {
        Seq::empty()
    } else if s[i] == q {
        if i + 1 < s.len() && s[i + 1] == q {
            seq![q] + quoted_val(s, q, i + 2)
        } else {
            Seq::empty()
        }
    } else {
        seq![s[i]] + quoted_val(s, q, i + 1)
    }
}

/// Position just after the closing delimiter of a quoted value read from `i`.
pub open spec fn quoted_end(s: Seq<char>, q: char, i: int) -> int
    decreases s.len() - i,
{
    if i < 0 {
        0
    } else if i >= s.len() {
        s.len() as int
    } else if s[i] == q {
        if i + 1 < s.len() && s[i + 1] == q {
            quoted_end(s, q, i + 2)
        } else {
            i + 1
        }
    } else {
        quoted_end(s, q, i + 1)
    }
}

pub proof fn lemma_find_char(s: Seq<char>, c: char, i: int)
    requires
        0 <= i <= s.len(),
    ensures
        i <= find_char(s, c, i) <= s.len(),
        forall|k: int| i <= k < find_char(s, c, i) ==> s[k] != c,
        find_char(s, c, i) < s.len() ==> s[find_char(s, c, i)] == c,
    decreases s.len() - i,
{
    if i < s.len() && s[i] != c {
        lemma_find_char(s, c, i + 1);
    }
}

pub proof fn lemma_key_end(s: Seq<char>, i: int)
    requires
        0 <= i <= s.len(),
    ensures
        i <= key_end(s, i) <= s.len(),
        forall|k: int| i <= k < key_end(s, i) ==> s[k] != '=' && !is_ws(#[trigger] s[k]),
        key_end(s, i) < s.len() ==> (s[key_end(s, i)] == '=' || is_ws(s[key_end(s, i)])),
    decreases s.len() - i,
{
    if i < s.len() && !(s[i] == '=' || is_ws(s[i])) {
        lemma_key_end(s, i + 1);
    }
}

pub proof fn lemma_token_end(s: Seq<char>, i: int)
    requires
        0 <= i <= s.len(),
    ensures
        i <= token_end(s, i) <= s.len(),
        forall|k: int| i <= k < token_end(s, i) ==> !is_ws(#[trigger] s[k]),
        token_end(s, i) < s.len() ==> is_ws(s[token_end(s, i)]),
    decreases s.len() - i,
{
    if i < s.len() && !is_ws(s[i]) {
        lemma_token_end(s, i + 1);
    }
}

pub proof fn lemma_quoted_end(s: Seq<char>, q: char, i: int)
    requires
        0 <= i <= s.len(),
    ensures
        i <= quoted_end(s, q, i) <= s.len(),
    decreases s.len() - i,
{
    if i < s.len() {
        if s[i] == q {
            if i + 1 < s.len() && s[i + 1] == q {
                lemma_quoted_end(s, q, i + 2);
            }
        } else {
            lemma_quoted_end(s, q, i + 1);
        }
    }
}

/// The `key=value` pairs of the text after a command name, read from position `i`.
/// A token without `=` is skipped.
pub open spec fn parse_args_from(s: Seq<char>, i: int) -> Seq<ArgV>
    decreases s.len() - i,
{
    if i < 0 || i > s.len() {
        Seq::empty()
    } else {
        let j = skip_ws(s, i);
        if j >= s.len() {
            Seq::empty()
        } else {
            proof {
                lemma_skip_ws_bounds(s, i);
                lemma_key_end(s, j);
            }
            let k = key_end(s, j);
            let key = s.subrange(j, k);
            if k < s.len() && s[k] == '=' {
                let v = k + 1;
                if v < s.len() && (s[v] == '"' || s[v] == '\'') {
                    proof {
                        lemma_quoted_end(s, s[v], v + 1);
                    }
                    let e = quoted_end(s, s[v], v + 1);
                    seq![ArgV { key, val: quoted_val(s, s[v], v + 1), quoted: true }]
                        + parse_args_from(s, e)
                } else {
                    proof {
                        lemma_token_end(s, v);
                    }
                    let e = token_end(s, v);
                    seq![ArgV { key, val: s.subrange(v, e), quoted: false }] + parse_args_from(
                        s,
                        e,
                    )
                }
            } else {
                parse_args_from(s, k)
            }
        }
    }
}

/// The value of the last pair with `key`, as a later `key=` overrides an earlier one.
pub open spec fn arg_get(args: Seq<ArgV>, key: Seq<char>) -> Option<Seq<char>>
    decreases args.len(),
{
    if args.len() == 0 {
        None
    } else if args.last().key == key {
        Some(args.last().val)
    } else {
        arg_get(args.drop_last(), key)
    }
}

/// Whether any pair with `key` was written in quotes.
pub open spec fn arg_quoted(args: Seq<ArgV>, key: Seq<char>) -> bool
    decreases args.len(),
{
    if args.len() == 0 {
        false
    } else {
        (args.last().key == key && args.last().quoted) || arg_quoted(args.drop_last(), key)
    }
}

/// A non-empty, non-comment script line, split into its command name, the
/// text after the name and the parsed pairs.
pub struct ParsedLineV {
    pub raw: Seq<char>,
    pub cmd: Seq<char>,
    pub rest: Seq<char>,
    pub args: Seq<ArgV>,
}

pub open spec fn parse_line(line: Seq<char>) -> Option<ParsedLineV> {
    let t = trim(line);
    if t.len() == 0 || t[0] == '#' {
        None
    } else {
        let sp = find_char(t, ' ', 0);
        let cmd = t.subrange(0, sp);
        let rest = if sp < t.len() { t.subrange(sp + 1, t.len() as int) } else { Seq::empty() };
        Some(ParsedLineV { raw: t, cmd, rest, args: parse_args_from(rest, 0) })
    }
}

// ---------------------------------------------------------------------------
// model: argument values
// ---------------------------------------------------------------------------
pub open spec fn arg_int(args: Seq<ArgV>, key: Seq<char>, signed: bool, lo: int, hi: int, default: int) -> int {
    match arg_get(args, key) {
        Some(v) => match parse_int(v, signed, lo, hi) {
            Some(n) => n,
            None => default,
        },
        None => default,
    }
}

pub open spec fn arg_u8(args: Seq<ArgV>, key: Seq<char>, default: u8) -> u8 {
    arg_int(args, key, false, 0, 255, default as int) as u8
}

pub open spec fn arg_u16(args: Seq<ArgV>, key: Seq<char>, default: u16) -> u16 {
    arg_int(args, key, false, 0, 65535, default as int) as u16
}

pub open spec fn arg_u32(args: Seq<ArgV>, key: Seq<char>, default: u32) -> u32 {
    arg_int(args, key, false, 0, u32::MAX as int, default as int) as u32
}

pub open spec fn arg_u64(args: Seq<ArgV>, key: Seq<char>, default: u64) -> u64 {
    arg_int(args, key, false, 0, u64::MAX as int, default as int) as u64
}

pub open spec fn arg_i32(args: Seq<ArgV>, key: Seq<char>, default: i32) -> i32 {
    arg_int(args, key, true, i32::MIN as int, i32::MAX as int, default as int) as i32
}

pub open spec fn arg_bool(args: Seq<ArgV>, key: Seq<char>, default: bool) -> bool {
    match arg_get(args, key) {
        Some(v) => match parse_bool(v) {
            Some(b) => b,
            None => default,
        },
        None => default,
    }
}

pub open spec fn arg_text(args: Seq<ArgV>, key: Seq<char>, default: Seq<char>) -> Seq<char> {
    match arg_get(args, key) {
        Some(v) => v,
        None => default,
    }
}

/// An operand: a quoted literal (never interpreted), a `$` variable reference,
/// or a whole number; anything else reads as 0.
pub open spec fn spec_operand(args: Seq<ArgV>, key: Seq<char>) -> OperandV {
    match arg_get(args, key) {
        Some(raw) => if arg_quoted(args, key) {
            OperandV::Literal(ValueV::Text(raw))
        } else if raw.len() > 0 && raw[0] == '$' {
            OperandV::Var(raw.skip(1))
        } else {
            match parse_int(raw, true, i64::MIN as int, i64::MAX as int) {
                Some(n) => OperandV::Literal(ValueV::Number(n as i64)),
                None => OperandV::Literal(ValueV::Number(0)),
            }
        },
        None => OperandV::Literal(ValueV::Number(0)),
    }
}

/// A coordinate: a `$` variable reference or a whole number; anything else reads as 0.
pub open spec fn spec_coord(args: Seq<ArgV>, key: Seq<char>) -> CoordV {
    match arg_get(args, key) {
        Some(raw) => if raw.len() > 0 && raw[0] == '$' {
            CoordV::Var(raw.skip(1))
        } else {
            match parse_int(raw, true, i32::MIN as int, i32::MAX as int) {
                Some(n) => CoordV::Const(n as i32),
                None => CoordV::Const(0),
            }
        },
        None => CoordV::Const(0),
    }
}

/// A region is given only when all of `left`, `top`, `width` and `height` are present.
pub open spec fn spec_region(args: Seq<ArgV>) -> Option<Region> {
    if arg_get(args, "left"@) is Some && arg_get(args, "top"@) is Some && arg_get(
        args,
        "width"@,
    ) is Some && arg_get(args, "height"@) is Some {
        Some(
            (
                arg_i32(args, "left"@, 0),
                arg_i32(args, "top"@, 0),
                arg_i32(args, "width"@, 0),
                arg_i32(args, "height"@, 0),
            ),
        )
    } else {
        None
    }
}

/// A variable name to store into; an empty name counts as absent.
pub open spec fn spec_store_var(args: Seq<ArgV>, key: Seq<char>) -> Option<Seq<char>> {
    match arg_get(args, key) {
        Some(v) => if v.len() > 0 { Some(v) } else { None },
        None => None,
    }
}

/// Number of UTF-8 bytes that encode `c`.
pub open spec fn utf8_len(c: char) -> int {
    if (c as u32) < 0x80 {
        1
    } else if (c as u32) < 0x800 {
        2
    } else if (c as u32) < 0x10000 {
        3
    } else {
        4
    }
}

/// Number of UTF-8 bytes that encode `s`.
pub open spec fn byte_len(s: Seq<char>) -> int
    decreases s.len(),
{
    if s.len() == 0 {
        0
    } else {
        byte_len(s.drop_last()) + utf8_len(s.last())
    }
}

/// Whether byte offset `b` falls between two characters of `s`.
pub open spec fn is_byte_boundary(s: Seq<char>, b: int) -> bool {
    exists|k: int| 0 <= k <= s.len() && #[trigger] byte_len(s.take(k)) == b
}

pub open spec fn is_ascii_seq(s: Seq<char>) -> bool {
    forall|i: int| 0 <= i < s.len() ==> (#[trigger] s[i] as u32) < 0x80
}

/// The hex text of a color argument: the argument without one leading `#`.
pub open spec fn color_hex(raw: Seq<char>) -> Seq<char> {
    if raw.len() > 0 && raw[0] == '#' {
        raw.skip(1)
    } else {
        raw
    }
}

/// Color arguments that the byte-offset slicing of the hex digits cannot cut:
/// a six-byte argument must split into three two-byte parts on character boundaries.
pub open spec fn color_arg_ok(raw: Option<Seq<char>>) -> bool {
    match raw {
        Some(r) => byte_len(color_hex(r)) == 6 ==> (is_byte_boundary(color_hex(r), 2)
            && is_byte_boundary(color_hex(r), 4)),
        None => true,
    }
}

/// An `RRGGBB` (optionally `#RRGGBB`) color; anything else reads as black.
pub open spec fn spec_hex_color(raw: Option<Seq<char>>) -> (u8, u8, u8) {
    match raw {
        Some(r) => {
            let h = color_hex(r);
            if h.len() == 6 && is_ascii_seq(h) {
                match (
                    parse_hex_pair(h[0], h[1]),
                    parse_hex_pair(h[2], h[3]),
                    parse_hex_pair(h[4], h[5]),
                ) {
                    (Some(r), Some(g), Some(b)) => (r, g, b),
                    _ => (0, 0, 0),
                }
            } else {
                (0, 0, 0)
            }
        },
        None => (0, 0, 0),
    }
}

pub open spec fn spec_compare_op(args: Seq<ArgV>) -> CompareOp {
    match arg_get(args, "op"@) {
        Some(s) => if s == "!="@ {
            CompareOp::Ne
        } else if s == "<"@ {
            CompareOp::Lt
        } else if s == "<="@ {
            CompareOp::Le
        } else if s == ">"@ {
            CompareOp::Gt
        } else if s == ">="@ {
            CompareOp::Ge
        } else if s == "contains"@ {
            CompareOp::Contains
        } else {
            CompareOp::Eq
        },
        None => CompareOp::Eq,
    }
}

pub open spec fn ascii_lower(c: char) -> char {
    if 'A' <= c && c <= 'Z' {
        ((c as int) + 32) as char
    } else {
        c
    }
}

/// Whether `s` equals the lowercase word `w` ignoring the case of ASCII letters.
pub open spec fn eq_ignore_case(s: Seq<char>, w: Seq<char>) -> bool {
    s.len() == w.len() && forall|i: int| 0 <= i < s.len() ==> ascii_lower(#[trigger] s[i]) == w[i]
}

/// A button name, case-insensitively; anything unknown is the left button.
pub open spec fn spec_btn(s: Seq<char>) -> MacroButton {
    if eq_ignore_case(s, "right"@) {
        MacroButton::Right
    } else if eq_ignore_case(s, "middle"@) {
        MacroButton::Middle
    } else {
        MacroButton::Left
    }
}

proof fn lemma_lowered_same_word(s: Seq<char>, w: Seq<char>)
    ensures
        eq_ignore_case(s.map_values(|c: char| ascii_lower(c)), w) == eq_ignore_case(s, w),
{
    let l = s.map_values(|c: char| ascii_lower(c));
    assert forall|i: int| 0 <= i < s.len() implies ascii_lower(#[trigger] l[i]) == ascii_lower(s[i]) by {
        let c = s[i];
        if 'A' <= c && c <= 'Z' {
            assert(!('A' <= ascii_lower(c) && ascii_lower(c) <= 'Z'));
        }
    }
    if eq_ignore_case(s, w) {
        assert forall|i: int| 0 <= i < l.len() implies ascii_lower(#[trigger] l[i]) == w[i] by {
            assert(ascii_lower(s[i]) == w[i]);
        }
    }
    if eq_ignore_case(l, w) {
        assert forall|i: int| 0 <= i < s.len() implies ascii_lower(#[trigger] s[i]) == w[i] by {
            assert(ascii_lower(l[i]) == w[i]);
        }
    }
}

/// Button names are read without regard to the case of their letters:
/// lowering a name's letters reads the same button; `right` and `middle`
/// name those buttons and `left` the left one.
pub proof fn lemma_button_names_ignore_case(s: Seq<char>)
    ensures
        spec_btn(s.map_values(|c: char| ascii_lower(c))) == spec_btn(s),
        spec_btn("right"@) == MacroButton::Right,
        spec_btn("middle"@) == MacroButton::Middle,
        spec_btn("left"@) == MacroButton::Left,
{
    reveal_strlit("right");
    reveal_strlit("middle");
    reveal_strlit("left");
    lemma_lowered_same_word(s, "right"@);
    lemma_lowered_same_word(s, "middle"@);
    assert(eq_ignore_case("right"@, "right"@));
    assert(eq_ignore_case("middle"@, "middle"@));
    assert(!eq_ignore_case("middle"@, "right"@));
    assert(!eq_ignore_case("left"@, "right"@));
    assert(!eq_ignore_case("left"@, "middle"@));
}

pub open spec fn spec_button(args: Seq<ArgV>) -> MacroButton {
    spec_btn(arg_text(args, "btn"@, "Left"@))
}

pub open spec fn spec_position(args: Seq<ArgV>) -> MousePositionV {
    if arg_get(args, "pos"@) == Some("current"@) {
        MousePositionV::Current
    } else {
        MousePositionV::Absolute { x: spec_coord(args, "x"@), y: spec_coord(args, "y"@) }
    }
}

/// The wait of a recorded delay line: `us=` in microseconds, or legacy `ms=` in milliseconds.
pub open spec fn spec_recorded_delay_us(args: Seq<ArgV>) -> int {
    if arg_get(args, "us"@) is Some {
        arg_u64(args, "us"@, 0) as int
    } else {
        arg_u64(args, "ms"@, 0) as int * 1000
    }
}

/// Formula text for a legacy `Calculate left=.. op=.. right=..` line.
pub open spec fn spec_legacy_expression(args: Seq<ArgV>) -> Option<Seq<char>> {
    match (arg_get(args, "left"@), arg_get(args, "right"@)) {
        (Some(l), Some(r)) => Some(l + seq![' '] + arg_text(args, "op"@, "+"@) + seq![' '] + r),
        _ => None,
    }
}

pub open spec fn spec_expression(args: Seq<ArgV>) -> Seq<char> {
    match arg_get(args, "expr"@) {
        Some(e) => e,
        None => match spec_legacy_expression(args) {
            Some(e) => e,
            None => Seq::empty(),
        },
    }
}

pub open spec fn key_of(args: Seq<ArgV>) -> Seq<char> {
    arg_text(args, "key"@, "Unknown"@)
}

/// The command a line stands for; `None` for an unknown command or a missing required argument.
pub open spec fn spec_command(cmd: Seq<char>, a: Seq<ArgV>) -> Option<MacroCommandV> {
    if is_input_cmd(cmd) {
        spec_input_command(cmd, a)
    } else if is_condition_cmd(cmd) {
        spec_condition_command(cmd, a)
    } else {
        spec_other_command(cmd, a)
    }
}

/// Names of the recorded-input commands.
pub open spec fn is_input_cmd(cmd: Seq<char>) -> bool {
    cmd == "Delay"@ || cmd == "MouseMove"@ || cmd == "Click"@ || cmd == "MouseDown"@ || cmd
        == "MouseUp"@ || cmd == "Scroll"@ || cmd == "KeyDown"@ || cmd == "KeyUp"@ || cmd
        == "KeyPress"@
}

/// Names of the screen-condition commands.
pub open spec fn is_condition_cmd(cmd: Seq<char>) -> bool {
    cmd == "IfPixelColor"@ || cmd == "IfImageFound"@ || cmd == "IfColorFound"@
}

pub open spec fn spec_input_command(cmd: Seq<char>, a: Seq<ArgV>) -> Option<MacroCommandV> {
    if cmd == "Delay"@ {
        if arg_get(a, "duration_ms"@) is Some {
            Some(MacroCommandV::Delay { duration_ms: spec_operand(a, "duration_ms"@) })
        } else {
            Some(MacroCommandV::Action(MacroEventV::Delay(spec_recorded_delay_us(a) as u64)))
        }
    } else if cmd == "MouseMove"@ {
        Some(
            MacroCommandV::Action(
                MacroEventV::MouseMove { x: spec_coord(a, "x"@), y: spec_coord(a, "y"@) },
            ),
        )
    } else if cmd == "Click"@ {
        Some(
            MacroCommandV::Action(
                MacroEventV::Click {
                    position: spec_position(a),
                    button: spec_button(a),
                    jitter: arg_u32(a, "jitter"@, 0),
                    hold_time_ms: arg_u32(a, "hold"@, 30),
                },
            ),
        )
    } else if cmd == "MouseDown"@ {
        Some(
            MacroCommandV::Action(
                MacroEventV::MouseDown {
                    position: spec_position(a),
                    button: spec_button(a),
                    jitter: arg_u32(a, "jitter"@, 0),
                },
            ),
        )
    } else if cmd == "MouseUp"@ {
        Some(
            MacroCommandV::Action(
                MacroEventV::MouseUp {
                    position: spec_position(a),
                    button: spec_button(a),
                    jitter: arg_u32(a, "jitter"@, 0),
                },
            ),
        )
    } else if cmd == "Scroll"@ {
        Some(
            MacroCommandV::Action(
                MacroEventV::Scroll { dx: arg_i32(a, "dx"@, 0), dy: arg_i32(a, "dy"@, 0) },
            ),
        )
    } else if cmd == "KeyDown"@ {
        Some(
            MacroCommandV::Action(
                MacroEventV::KeyDown { key: key_of(a), code: arg_u16(a, "code"@, 0) },
            ),
        )
    } else if cmd == "KeyUp"@ {
        Some(
            MacroCommandV::Action(MacroEventV::KeyUp { key: key_of(a), code: arg_u16(a, "code"@, 0) }),
        )
    } else if cmd == "KeyPress"@ {
        Some(
            MacroCommandV::Action(
                MacroEventV::KeyPress {
                    key: key_of(a),
                    code: arg_u16(a, "code"@, 0),
                    hold_time_ms: arg_u32(a, "hold_time_ms"@, 30),
                },
            ),
        )
    } else {
        None
    }
}

pub open spec fn spec_condition_command(cmd: Seq<char>, a: Seq<ArgV>) -> Option<MacroCommandV> {
    if cmd == "IfPixelColor"@ {
        Some(
            MacroCommandV::IfPixelColor {
                x: spec_coord(a, "x"@),
                y: spec_coord(a, "y"@),
                r: arg_u8(a, "r"@, 0),
                g: arg_u8(a, "g"@, 0),
                b: arg_u8(a, "b"@, 0),
                tolerance: arg_u8(a, "tol"@, 0),
            },
        )
    } else if cmd == "IfImageFound"@ {
        Some(
            MacroCommandV::IfImageFound {
                target_image_path: arg_text(a, "target"@, ""@),
                similarity_threshold: arg_text(a, "tol"@, "0"@),
                move_cursor_if_found: arg_bool(a, "move"@, false),
                trigger_if_not_found: arg_bool(a, "not_found"@, false),
                region: spec_region(a),
                store_x: spec_store_var(a, "store_x"@),
                store_y: spec_store_var(a, "store_y"@),
            },
        )
    } else if cmd == "IfColorFound"@ {
        Some(spec_color_found(a))
    } else {
        None
    }
}

pub open spec fn spec_color_found(a: Seq<ArgV>) -> MacroCommandV {
    let (r, g, b) = spec_hex_color(arg_get(a, "color"@));
    
            MacroCommandV::IfColorFound {
                region: spec_region(a),
                r,
                g,
                b,
                tolerance: arg_u8(a, "tol"@, 0),
                min_width: arg_u32(a, "min_width"@, 1),
                min_height: arg_u32(a, "min_height"@, 1),
                move_cursor_if_found: arg_bool(a, "move"@, false),
                store_x: spec_store_var(a, "store_x"@),
                store_y: spec_store_var(a, "store_y"@),
                store_w: spec_store_var(a, "store_w"@),
                store_h: spec_store_var(a, "store_h"@),
            }
}

pub open spec fn spec_other_command(cmd: Seq<char>, a: Seq<ArgV>) -> Option<MacroCommandV> {
    if cmd == "EndIf"@ {
        Some(MacroCommandV::EndIf)
    } else if cmd == "Loop"@ {
        Some(MacroCommandV::Loop { count: spec_operand(a, "count"@) })
    } else if cmd == "Else"@ {
        Some(MacroCommandV::Else)
    } else if cmd == "EndLoop"@ {
        Some(MacroCommandV::EndLoop)
    } else if cmd == "PlayMacro"@ {
        match arg_get(a, "path"@) {
            Some(p) => Some(MacroCommandV::PlayMacro(p)),
            None => None,
        }
    } else if cmd == "Label"@ {
        match arg_get(a, "name"@) {
            Some(p) => Some(MacroCommandV::Label(p)),
            None => None,
        }
    } else if cmd == "Goto"@ {
        match arg_get(a, "target"@) {
            Some(p) => Some(MacroCommandV::Goto(p)),
            None => None,
        }
    } else if cmd == "TypeText"@ {
        match arg_get(a, "text"@) {
            Some(p) => Some(MacroCommandV::TypeText(p)),
            None => None,
        }
    } else if cmd == "OpenFile"@ {
        Some(
            MacroCommandV::OpenFile {
                path: arg_text(a, "path"@, ""@),
                args: arg_text(a, "args"@, ""@),
                run_as_admin: arg_bool(a, "admin"@, false),
            },
        )
    } else if cmd == "SetVariable"@ {
        Some(
            MacroCommandV::SetVariable {
                target: arg_text(a, "target"@, ""@),
                value: spec_operand(a, "value"@),
            },
        )
    } else if cmd == "Calculate"@ {
        Some(
            MacroCommandV::Calculate {
                target: arg_text(a, "target"@, ""@),
                expression: spec_expression(a),
            },
        )
    } else if cmd == "IfCompare"@ {
        Some(
            MacroCommandV::IfCompare {
                left: spec_operand(a, "left"@),
                op: spec_compare_op(a),
                right: spec_operand(a, "right"@),
            },
        )
    } else if cmd == "SetClipboard"@ {
        Some(MacroCommandV::SetClipboard { text: spec_operand(a, "text"@) })
    } else if cmd == "GetClipboard"@ {
        Some(MacroCommandV::GetClipboard { target: arg_text(a, "target"@, ""@) })
    } else if cmd == "Comment"@ {
        match arg_get(a, "text"@) {
            Some(p) => Some(MacroCommandV::Comment(p)),
            None => None,
        }
    } else {
        None
    }
}

/// Lines that the reader can take without an arithmetic overflow or a cut
/// through a character: a legacy `Delay ms=` must fit in microseconds, and a
/// color argument must split on character boundaries.
pub open spec fn line_ok(pl: ParsedLineV) -> bool {
    &&& (pl.cmd == "Delay"@ && arg_get(pl.args, "duration_ms"@) is None && arg_get(
        pl.args,
        "us"@,
    ) is None) ==> arg_u64(pl.args, "ms"@, 0) as int * 1000 <= u64::MAX
    &&& pl.cmd == "IfColorFound"@ ==> color_arg_ok(arg_get(pl.args, "color"@))
}

// ---------------------------------------------------------------------------
// model: header lines and the whole script
// ---------------------------------------------------------------------------
/// `version N`: the first word after `version`; an unreadable number falls back
/// to the default version, a missing one keeps the current version.
pub open spec fn spec_version(rest: Seq<char>, current: u8) -> u8 {
    let a = skip_ws(rest, 0);
    if a >= rest.len() {
        current
    } else {
        match parse_int(rest.subrange(a, token_end(rest, a)), false, 0, 255) {
            Some(v) => v as u8,
            None => DEFAULT_VERSION,
        }
    }
}

/// Last position of `c` in `s`, or `-1`.
pub open spec fn rfind_char(s: Seq<char>, c: char, j: int) -> int
    decreases j,
{
    if j <= 0 {
        -1
    } else if s[j - 1] == c {
        j - 1
    } else {
        rfind_char(s, c, j - 1)
    }
}

/// `name "..."`: the text between the first and the last double quote.
pub open spec fn spec_quoted_name(raw: Seq<char>) -> Option<Seq<char>> {
    let start = find_char(raw, '"', 0);
    let end = rfind_char(raw, '"', raw.len() as int);
    if start >= raw.len() || start == end {
        None
    } else {
        Some(raw.subrange(start + 1, end))
    }
}

/// What the reader has gathered so far: name, version and commands.
pub struct ReadState {
    pub name: Seq<char>,
    pub version: u8,
    pub commands: Seq<MacroCommandV>,
}

pub open spec fn initial_state() -> ReadState {
    ReadState { name: "untitled"@, version: DEFAULT_VERSION, commands: Seq::empty() }
}

/// The effect of one line on the reader's state.
pub open spec fn step_line(st: ReadState, line: Seq<char>) -> ReadState {
    match parse_line(line) {
        None => st,
        Some(pl) => if pl.cmd == "version"@ {
            ReadState { version: spec_version(pl.rest, st.version), ..st }
        } else if pl.cmd == "name"@ {
            match spec_quoted_name(pl.raw) {
                Some(n) => ReadState { name: n, ..st },
                None => st,
            }
        } else {
            match spec_command(pl.cmd, pl.args) {
                Some(c) => ReadState { commands: st.commands.push(c), ..st },
                None => st,
            }
        },
    }
}

/// Reads the lines of `s` from position `i` (the start of a line) on.
pub open spec fn read_from(s: Seq<char>, i: int, st: ReadState) -> ReadState
    decreases s.len() - i,
{
    if i < 0 || i > s.len() {
        st
    } else {
        proof {
            lemma_find_char(s, '\n', i);
        }
        let e = find_char(s, '\n', i);
        let st2 = step_line(st, s.subrange(i, e));
        if e < s.len() {
            read_from(s, e + 1, st2)
        } else {
            st2
        }
    }
}

/// Whether every line of `s` from position `i` on satisfies [`line_ok`].
pub open spec fn lines_ok_from(s: Seq<char>, i: int) -> bool
    decreases s.len() - i,
{
    if i < 0 || i > s.len() {
        true
    } else {
        proof {
            lemma_find_char(s, '\n', i);
        }
        let e = find_char(s, '\n', i);
        (match parse_line(s.subrange(i, e)) {
            Some(pl) => line_ok(pl),
            None => true,
        }) && (e < s.len() ==> lines_ok_from(s, e + 1))
    }
}

pub open spec fn script_ok(script: Seq<char>) -> bool {
    lines_ok_from(script, 0)
}

/// The macro a script stands for.
pub open spec fn spec_deserialize(script: Seq<char>) -> MacroV {
    let st = read_from(script, 0, initial_state());
    MacroV { name: st.name, version: st.version, commands: st.commands }
}

} // verus!
