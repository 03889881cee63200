//! Each written value, and each written command, reads back as itself.
use vstd::prelude::*;
use crate::text::{
    is_ws, skip_ws, skip_ws_back, trim, lemma_skip_ws_bounds, parse_int, dec_int, dec_digits, lemma_dec_digits, lemma_parse_dec_int, parse_bool, is_digit,
    hex_byte, hex_digit, lemma_hex_byte_roundtrip,
};
use crate::types::{CoordV, MousePositionV, MacroEventV, ValueV, OperandV, MacroButton};
use crate::command::{MacroCommandV, MacroV, Region, CURRENT_FORMAT_VERSION};
use crate::script_read::{
    ArgV, ParsedLineV, spec_command, line_ok, spec_position, spec_button, arg_get, arg_quoted, arg_int, spec_coord, spec_operand, spec_store_var, spec_region,
    spec_btn, eq_ignore_case, ascii_lower, spec_hex_color, color_hex, color_arg_ok, is_ascii_seq,
    byte_len, utf8_len, is_byte_boundary, find_char, rfind_char, token_end, parse_line,
    lemma_find_char, spec_version, spec_quoted_name, ReadState, initial_state, step_line, read_from,
    lines_ok_from, script_ok, spec_deserialize, parse_args_from,
};
use crate::writer::{
    spec_format_coord, operand_field, bool_text, spec_button_name, fld, num_field, region_fields,
    command_name, command_fields, event_fields, store_fields, position_fields, pointer_fields,
    jitter_fields, key_fields, color_fields, spec_command_line, spec_command_lines, spec_header,
    spec_serialize, render_line,
};
use crate::roundtrip::{
    no_ws, no_newline, bare_ok, key_ok, field_ok, fields_ok, group_fields, name_ok, line_body,
    lemma_line_read,
};
use crate::words::{
    lemma_value_literals, lemma_words_plain, lemma_name_literals, lemma_key_literals, lemma_keys_ok,
};

verus! {

// ---------------------------------------------------------------------------
// what a value must avoid to be written and read back
// ---------------------------------------------------------------------------
/// A coordinate whose variable name holds no white space.
pub open spec fn coord_ok(c: CoordV) -> bool {
    match c {
        CoordV::Var(n) => no_ws(n),
        CoordV::Const(_) => true,
    }
}

pub open spec fn position_ok(p: MousePositionV) -> bool {
    match p {
        MousePositionV::Absolute { x, y } => coord_ok(x) && coord_ok(y),
        MousePositionV::Current => true,
    }
}

/// An operand whose variable name holds no white space and whose text holds no line break.
pub open spec fn operand_ok(o: OperandV) -> bool {
    match o {
        OperandV::Var(n) => no_ws(n),
        OperandV::Literal(ValueV::Text(t)) => no_newline(t),
        OperandV::Literal(ValueV::Number(_)) => true,
    }
}

/// A variable name to store into: not empty (an empty one reads as absent), no line break.
pub open spec fn store_ok(o: Option<Seq<char>>) -> bool {
    match o {
        Some(n) => n.len() > 0 && no_newline(n),
        None => true,
    }
}

// ---------------------------------------------------------------------------
// numbers
// ---------------------------------------------------------------------------
pub proof fn lemma_dec_int_plain(n: int)
    ensures
        dec_int(n).len() > 0,
        bare_ok(dec_int(n)),
        dec_int(n)[0] != '$',
{
    if n < 0 {
        let d = dec_digits((-n) as nat);
        lemma_dec_digits((-n) as nat);
        let s = dec_int(n);
        assert forall|i: int| 0 <= i < s.len() implies !is_ws(#[trigger] s[i]) by {
            if i > 0 {
                assert(s[i] == d[i - 1]);
                assert(is_digit(d[i - 1]));
            }
        }
    } else {
        let d = dec_digits(n as nat);
        lemma_dec_digits(n as nat);
        assert forall|i: int| 0 <= i < d.len() implies !is_ws(#[trigger] d[i]) by {
            assert(is_digit(d[i]));
        }
        assert(is_digit(d[0]));
    }
}

/// A written number reads back as itself.
pub proof fn lemma_num_read(a: Seq<ArgV>, key: Seq<char>, n: int, signed: bool, lo: int, hi: int, d: int)
    requires
        arg_get(a, key) == Some(dec_int(n)),
        lo <= n <= hi,
        n < 0 ==> signed,
    ensures
        arg_int(a, key, signed, lo, hi, d) == n,
{
    lemma_parse_dec_int(n, signed, lo, hi);
}

pub proof fn lemma_num_field_ok(key: Seq<char>, n: int)
    requires
        key_ok(key),
    ensures
        field_ok(num_field(key, n)),
{
    lemma_dec_int_plain(n);
}

// ---------------------------------------------------------------------------
// coordinates and operands
// ---------------------------------------------------------------------------
pub proof fn lemma_coord_plain(c: CoordV)
    requires
        coord_ok(c),
    ensures
        bare_ok(spec_format_coord(c)),
{
    match c {
        CoordV::Const(v) => lemma_dec_int_plain(v as int),
        CoordV::Var(n) => {
            let s = seq!['$'] + n;
            assert forall|i: int| 0 <= i < s.len() implies !is_ws(#[trigger] s[i]) by {
                if i > 0 {
                    assert(s[i] == n[i - 1]);
                }
            }
        },
    }
}

/// A written coordinate reads back as itself.
pub proof fn lemma_coord_read(c: CoordV, a: Seq<ArgV>, key: Seq<char>)
    requires
        arg_get(a, key) == Some(spec_format_coord(c)),
    ensures
        spec_coord(a, key) == c,
{
    match c {
        CoordV::Const(v) => {
            lemma_dec_int_plain(v as int);
            lemma_parse_dec_int(v as int, true, i32::MIN as int, i32::MAX as int);
        },
        CoordV::Var(n) => {
            assert((seq!['$'] + n).skip(1) =~= n);
        },
    }
}

pub proof fn lemma_operand_field(key: Seq<char>, o: OperandV)
    requires
        key_ok(key),
        operand_ok(o),
    ensures
        field_ok(operand_field(key, o)),
        operand_field(key, o).key == key,
{
    match o {
        OperandV::Var(n) => lemma_coord_plain(CoordV::Var(n)),
        OperandV::Literal(ValueV::Number(v)) => lemma_dec_int_plain(v as int),
        OperandV::Literal(ValueV::Text(_)) => {},
    }
}

/// A written operand reads back as itself.
pub proof fn lemma_operand_read(o: OperandV, a: Seq<ArgV>, key: Seq<char>)
    requires
        arg_get(a, key) == Some(operand_field(key, o).val),
        arg_quoted(a, key) == operand_field(key, o).quoted,
    ensures
        spec_operand(a, key) == o,
{
    match o {
        OperandV::Var(n) => {
            assert((seq!['$'] + n).skip(1) =~= n);
        },
        OperandV::Literal(ValueV::Number(v)) => {
            lemma_dec_int_plain(v as int);
            lemma_parse_dec_int(v as int, true, i64::MIN as int, i64::MAX as int);
        },
        OperandV::Literal(ValueV::Text(_)) => {},
    }
}

// ---------------------------------------------------------------------------
// words: booleans and buttons
// ---------------------------------------------------------------------------
pub proof fn lemma_bool_read(b: bool)
    ensures
        parse_bool(bool_text(b)) == Some(b),
        bare_ok(bool_text(b)),
{
    lemma_value_literals();
    lemma_words_plain();
}

pub proof fn lemma_bool_field_ok(key: Seq<char>, b: bool)
    requires
        key_ok(key),
    ensures
        field_ok(fld(key, bool_text(b), false)),
{
    lemma_bool_read(b);
}

proof fn lemma_lower_word(s: Seq<char>, w: Seq<char>)
    requires
        s.len() == w.len(),
        s.len() <= 6,
        0 < s.len() ==> ascii_lower(s[0]) == w[0],
        1 < s.len() ==> ascii_lower(s[1]) == w[1],
        2 < s.len() ==> ascii_lower(s[2]) == w[2],
        3 < s.len() ==> ascii_lower(s[3]) == w[3],
        4 < s.len() ==> ascii_lower(s[4]) == w[4],
        5 < s.len() ==> ascii_lower(s[5]) == w[5],
    ensures
        eq_ignore_case(s, w),
{
    assert forall|i: int| 0 <= i < s.len() implies ascii_lower(#[trigger] s[i]) == w[i] by {
        if i == 0 {
        } else if i == 1 {
        } else if i == 2 {
        } else if i == 3 {
        } else if i == 4 {
        } else {
        }
    }
}

/// A written button name reads back as the button.
pub proof fn lemma_button_read(b: MacroButton)
    ensures
        spec_btn(spec_button_name(b)) == b,
        bare_ok(spec_button_name(b)),
{
    lemma_value_literals();
    lemma_words_plain();
    reveal_strlit("right");
    reveal_strlit("middle");
    reveal_strlit("Right");
    reveal_strlit("Middle");
    reveal_strlit("Left");
    match b {
        MacroButton::Right => lemma_lower_word("Right"@, "right"@),
        MacroButton::Middle => {
            lemma_lower_word("Middle"@, "middle"@);
        },
        MacroButton::Left => {},
    }
}

// ---------------------------------------------------------------------------
// optional parts: stored names and regions
// ---------------------------------------------------------------------------
pub proof fn lemma_store_read(a: Seq<ArgV>, key: Seq<char>, o: Option<Seq<char>>)
    requires
        arg_get(a, key) == o,
        store_ok(o),
    ensures
        spec_store_var(a, key) == o,
{
}

/// A written region (or its absence) reads back as itself.
pub proof fn lemma_region_read(a: Seq<ArgV>, r: Option<Region>)
    requires
        match r {
            Some((l, t, w, h)) => {
                &&& arg_get(a, "left"@) == Some(dec_int(l as int))
                &&& arg_get(a, "top"@) == Some(dec_int(t as int))
                &&& arg_get(a, "width"@) == Some(dec_int(w as int))
                &&& arg_get(a, "height"@) == Some(dec_int(h as int))
            },
            None => arg_get(a, "left"@) is None,
        },
    ensures
        spec_region(a) == r,
{
    if let Some((l, t, w, h)) = r {
        lemma_num_read(a, "left"@, l as int, true, i32::MIN as int, i32::MAX as int, 0);
        lemma_num_read(a, "top"@, t as int, true, i32::MIN as int, i32::MAX as int, 0);
        lemma_num_read(a, "width"@, w as int, true, i32::MIN as int, i32::MAX as int, 0);
        lemma_num_read(a, "height"@, h as int, true, i32::MIN as int, i32::MAX as int, 0);
    }
}

pub proof fn lemma_region_fields_ok(r: Option<Region>)
    requires
        key_ok("left"@),
        key_ok("top"@),
        key_ok("width"@),
        key_ok("height"@),
    ensures
        fields_ok(region_fields(r)),
{
    if let Some((l, t, w, h)) = r {
        lemma_num_field_ok("left"@, l as int);
        lemma_num_field_ok("top"@, t as int);
        lemma_num_field_ok("width"@, w as int);
        lemma_num_field_ok("height"@, h as int);
        let fs = region_fields(r);
        assert forall|i: int| 0 <= i < fs.len() implies field_ok(#[trigger] fs[i]) by {
            if i == 0 {
            } else if i == 1 {
            } else if i == 2 {
            } else {
            }
        }
    }
}

// ---------------------------------------------------------------------------
// colors
// ---------------------------------------------------------------------------
pub open spec fn color_text(r: u8, g: u8, b: u8) -> Seq<char> {
    seq!['#'] + hex_byte(r) + hex_byte(g) + hex_byte(b)
}

proof fn lemma_hex_digit_ascii(d: int)
    requires
        0 <= d < 16,
    ensures
        (hex_digit(d) as u32) < 0x80,
        !is_ws(hex_digit(d)),
        hex_digit(d) != '"' && hex_digit(d) != '\'',
{
}

proof fn lemma_ascii_byte_len(s: Seq<char>)
    requires
        is_ascii_seq(s),
    ensures
        byte_len(s) == s.len(),
    decreases s.len(),
{
    if s.len() > 0 {
        let t = s.drop_last();
        assert(is_ascii_seq(t)) by {
            assert forall|i: int| 0 <= i < t.len() implies (#[trigger] t[i] as u32) < 0x80 by {
                assert(t[i] == s[i]);
            }
        }
        lemma_ascii_byte_len(t);
        assert((s.last() as u32) < 0x80);
    }
}

/// The hex digits of a written color, read back.
pub proof fn lemma_color_read(r: u8, g: u8, b: u8)
    ensures
        spec_hex_color(Some(color_text(r, g, b))) == (r, g, b),
        color_arg_ok(Some(color_text(r, g, b))),
        bare_ok(color_text(r, g, b)),
{
    let s = color_text(r, g, b);
    let h = color_hex(s);
    let hr = hex_byte(r);
    let hg = hex_byte(g);
    let hb = hex_byte(b);
    assert(s[0] == '#');
    assert(h =~= hr + hg + hb);
    lemma_hex_digit_ascii(r as int / 16);
    lemma_hex_digit_ascii(r as int % 16);
    lemma_hex_digit_ascii(g as int / 16);
    lemma_hex_digit_ascii(g as int % 16);
    lemma_hex_digit_ascii(b as int / 16);
    lemma_hex_digit_ascii(b as int % 16);
    assert(h[0] == hr[0] && h[1] == hr[1]);
    assert(h[2] == hg[0] && h[3] == hg[1]);
    assert(h[4] == hb[0] && h[5] == hb[1]);
    assert(is_ascii_seq(h)) by {
        assert forall|i: int| 0 <= i < h.len() implies (#[trigger] h[i] as u32) < 0x80 by {
            if i == 0 {
            } else if i == 1 {
            } else if i == 2 {
            } else if i == 3 {
            } else if i == 4 {
            } else {
            }
        }
    }
    lemma_hex_byte_roundtrip(r);
    lemma_hex_byte_roundtrip(g);
    lemma_hex_byte_roundtrip(b);
    assert(is_ascii_seq(h.take(2))) by {
        assert forall|i: int| 0 <= i < h.take(2).len() implies (#[trigger] h.take(2)[i] as u32)
            < 0x80 by {
            assert(h.take(2)[i] == h[i]);
        }
    }
    assert(is_ascii_seq(h.take(4))) by {
        assert forall|i: int| 0 <= i < h.take(4).len() implies (#[trigger] h.take(4)[i] as u32)
            < 0x80 by {
            assert(h.take(4)[i] == h[i]);
        }
    }
    lemma_ascii_byte_len(h.take(2));
    lemma_ascii_byte_len(h.take(4));
    assert(byte_len(h.take(2)) == 2);
    assert(is_byte_boundary(h, 2));
    assert(byte_len(h.take(4)) == 4);
    assert(is_byte_boundary(h, 4));
    assert forall|i: int| 0 <= i < s.len() implies !is_ws(#[trigger] s[i]) by {
        if i > 0 {
            assert(s[i] == h[i - 1]);
        }
    }
}

// ---------------------------------------------------------------------------
// commands
// ---------------------------------------------------------------------------
pub open spec fn event_ok(e: MacroEventV) -> bool {
    match e {
        MacroEventV::MouseMove { x, y } => coord_ok(x) && coord_ok(y),
        MacroEventV::Click { position, .. } => position_ok(position),
        MacroEventV::MouseDown { position, .. } => position_ok(position),
        MacroEventV::MouseUp { position, .. } => position_ok(position),
        MacroEventV::KeyDown { key, .. } => no_newline(key),
        MacroEventV::KeyUp { key, .. } => no_newline(key),
        MacroEventV::KeyPress { key, .. } => no_newline(key),
        MacroEventV::Delay(_) => true,
        MacroEventV::Scroll { .. } => true,
    }
}

/// A command that the script format holds exactly: variable names without
/// white space, texts without line breaks, stored names not empty and an
/// image tolerance that is written bare.
pub open spec fn command_ok(c: MacroCommandV) -> bool {
    match c {
        MacroCommandV::Action(e) => event_ok(e),
        MacroCommandV::IfPixelColor { x, y, .. } => coord_ok(x) && coord_ok(y),
        MacroCommandV::IfImageFound { target_image_path, similarity_threshold, store_x, store_y, .. } => {
            &&& no_newline(target_image_path)
            &&& bare_ok(similarity_threshold)
            &&& store_ok(store_x)
            &&& store_ok(store_y)
        },
        MacroCommandV::IfColorFound { store_x, store_y, store_w, store_h, .. } => {
            store_ok(store_x) && store_ok(store_y) && store_ok(store_w) && store_ok(store_h)
        },
        MacroCommandV::Loop { count } => operand_ok(count),
        MacroCommandV::PlayMacro(p) => no_newline(p),
        MacroCommandV::Label(n) => no_newline(n),
        MacroCommandV::Goto(t) => no_newline(t),
        MacroCommandV::TypeText(t) => no_newline(t),
        MacroCommandV::OpenFile { path, args, .. } => no_newline(path) && no_newline(args),
        MacroCommandV::SetVariable { target, value } => no_newline(target) && operand_ok(value),
        MacroCommandV::Calculate { target, expression } => no_newline(target) && no_newline(
            expression,
        ),
        MacroCommandV::IfCompare { left, right, .. } => operand_ok(left) && operand_ok(right),
        MacroCommandV::Delay { duration_ms } => operand_ok(duration_ms),
        MacroCommandV::SetClipboard { text } => operand_ok(text),
        MacroCommandV::GetClipboard { target } => no_newline(target),
        MacroCommandV::Comment(t) => no_newline(t),
        MacroCommandV::Else => true,
        MacroCommandV::EndIf => true,
        MacroCommandV::EndLoop => true,
    }
}

/// The position, button and jitter of a pointer event read back, whatever
/// fields without those keys follow them.
proof fn lemma_pointer_read(p: MousePositionV, b: MacroButton, j: u32, extra: Seq<ArgV>)
    requires
        position_ok(p),
        arg_get(extra, "pos"@) is None,
        arg_get(extra, "x"@) is None,
        arg_get(extra, "y"@) is None,
        arg_get(extra, "btn"@) is None,
        arg_get(extra, "jitter"@) is None,
    ensures
        fields_ok(pointer_fields(p, b, j)),
        spec_position(pointer_fields(p, b, j) + extra) == p,
        spec_button(pointer_fields(p, b, j) + extra) == b,
        arg_int(pointer_fields(p, b, j) + extra, "jitter"@, false, 0, u32::MAX as int, 0) == j,
{
    broadcast use group_fields;
    lemma_key_literals();
    lemma_keys_ok();
    lemma_value_literals();
    lemma_words_plain();
    lemma_button_read(b);
    let a = pointer_fields(p, b, j) + extra;
    match p {
        MousePositionV::Absolute { x, y } => {
            lemma_coord_plain(x);
            lemma_coord_plain(y);
            assert(position_fields(p) =~= seq![fld("x"@, spec_format_coord(x), false)].push(
                fld("y"@, spec_format_coord(y), false),
            ));
            lemma_coord_read(x, a, "x"@);
            lemma_coord_read(y, a, "y"@);
        },
        MousePositionV::Current => {},
    }
    if j > 0 {
        lemma_num_field_ok("jitter"@, j as int);
        lemma_num_read(a, "jitter"@, j as int, false, 0, u32::MAX as int, 0);
    }
}

proof fn lemma_event_read(e: MacroEventV)
    requires
        event_ok(e),
    ensures
        reads_back(MacroCommandV::Action(e)),
{
    broadcast use group_fields;
    lemma_name_literals();
    lemma_key_literals();
    lemma_keys_ok();
    lemma_value_literals();
    lemma_words_plain();
    let a = event_fields(e);
    match e {
        MacroEventV::Delay(us) => {
            lemma_num_field_ok("us"@, us as int);
            lemma_num_read(a, "us"@, us as int, false, 0, u64::MAX as int, 0);
        },
        MacroEventV::MouseMove { x, y } => {
            lemma_coord_plain(x);
            lemma_coord_plain(y);
            assert(a =~= seq![fld("x"@, spec_format_coord(x), false)].push(
                fld("y"@, spec_format_coord(y), false),
            ));
            lemma_coord_read(x, a, "x"@);
            lemma_coord_read(y, a, "y"@);
        },
        MacroEventV::Click { position, button, jitter, hold_time_ms } => {
            let extra = seq![num_field("hold"@, hold_time_ms as int)];
            lemma_pointer_read(position, button, jitter, extra);
            lemma_num_field_ok("hold"@, hold_time_ms as int);
            lemma_num_read(a, "hold"@, hold_time_ms as int, false, 0, u32::MAX as int, 30);
        },
        MacroEventV::MouseDown { position, button, jitter } => {
            lemma_pointer_read(position, button, jitter, Seq::empty());
            assert(a =~= pointer_fields(position, button, jitter) + Seq::<ArgV>::empty());
        },
        MacroEventV::MouseUp { position, button, jitter } => {
            lemma_pointer_read(position, button, jitter, Seq::empty());
            assert(a =~= pointer_fields(position, button, jitter) + Seq::<ArgV>::empty());
        },
        MacroEventV::Scroll { dx, dy } => {
            lemma_num_field_ok("dx"@, dx as int);
            lemma_num_field_ok("dy"@, dy as int);
            assert(a =~= seq![num_field("dx"@, dx as int)].push(num_field("dy"@, dy as int)));
            lemma_num_read(a, "dx"@, dx as int, true, i32::MIN as int, i32::MAX as int, 0);
            lemma_num_read(a, "dy"@, dy as int, true, i32::MIN as int, i32::MAX as int, 0);
        },
        MacroEventV::KeyDown { key, code } => {
            lemma_num_field_ok("code"@, code as int);
            assert(a =~= seq![fld("key"@, key, true)].push(num_field("code"@, code as int)));
            lemma_num_read(a, "code"@, code as int, false, 0, 65535, 0);
        },
        MacroEventV::KeyUp { key, code } => {
            lemma_num_field_ok("code"@, code as int);
            assert(a =~= seq![fld("key"@, key, true)].push(num_field("code"@, code as int)));
            lemma_num_read(a, "code"@, code as int, false, 0, 65535, 0);
        },
        MacroEventV::KeyPress { key, code, hold_time_ms } => {
            lemma_num_field_ok("code"@, code as int);
            lemma_num_field_ok("hold_time_ms"@, hold_time_ms as int);
            assert(a =~= seq![fld("key"@, key, true)].push(num_field("code"@, code as int)).push(
                num_field("hold_time_ms"@, hold_time_ms as int),
            ));
            lemma_num_read(a, "code"@, code as int, false, 0, 65535, 0);
            lemma_num_read(a, "hold_time_ms"@, hold_time_ms as int, false, 0, u32::MAX as int, 30);
        },
    }
}

/// Optional region and stored-name fields read back, whatever fields without
/// those keys come before them.
proof fn lemma_tail_read(
    front: Seq<ArgV>,
    region: Option<Region>,
    sx: Option<Seq<char>>,
    sy: Option<Seq<char>>,
)
    requires
        store_ok(sx),
        store_ok(sy),
        arg_get(front, "left"@) is None,
        arg_get(front, "store_x"@) is None,
        arg_get(front, "store_y"@) is None,
    ensures
        ({
            let a = front + region_fields(region) + store_fields("store_x"@, sx) + store_fields(
                "store_y"@,
                sy,
            );
            &&& spec_region(a) == region
            &&& spec_store_var(a, "store_x"@) == sx
            &&& spec_store_var(a, "store_y"@) == sy
        }),
        fields_ok(region_fields(region)),
        fields_ok(store_fields("store_x"@, sx)),
        fields_ok(store_fields("store_y"@, sy)),
{
    broadcast use group_fields;
    lemma_key_literals();
    lemma_keys_ok();
    let a = front + region_fields(region) + store_fields("store_x"@, sx) + store_fields(
        "store_y"@,
        sy,
    );
    lemma_region_fields_ok(region);
    if let Some((l, t, w, h)) = region {
        assert(region_fields(region) =~= seq![num_field("left"@, l as int)].push(
            num_field("top"@, t as int),
        ).push(num_field("width"@, w as int)).push(num_field("height"@, h as int)));
    }
    lemma_region_read(a, region);
    lemma_store_read(a, "store_x"@, sx);
    lemma_store_read(a, "store_y"@, sy);
}

/// Keys before the optional region and stored names are read from the front part.
proof fn lemma_tail_get(
    front: Seq<ArgV>,
    region: Option<Region>,
    sx: Option<Seq<char>>,
    sy: Option<Seq<char>>,
    k: Seq<char>,
)
    requires
        k != "left"@,
        k != "top"@,
        k != "width"@,
        k != "height"@,
        k != "store_x"@,
        k != "store_y"@,
    ensures
        ({
            let a = front + region_fields(region) + store_fields("store_x"@, sx) + store_fields(
                "store_y"@,
                sy,
            );
            &&& arg_get(a, k) == arg_get(front, k)
            &&& arg_quoted(a, k) == arg_quoted(front, k)
        }),
{
    broadcast use group_fields;
    if let Some((l, t, w, h)) = region {
        assert(region_fields(region) =~= seq![num_field("left"@, l as int)].push(
            num_field("top"@, t as int),
        ).push(num_field("width"@, w as int)).push(num_field("height"@, h as int)));
    }
}

/// The last two stored names read back and leave every other key as before.
proof fn lemma_stores_after(mid: Seq<ArgV>, sw: Option<Seq<char>>, sh: Option<Seq<char>>)
    requires
        store_ok(sw),
        store_ok(sh),
        arg_get(mid, "store_w"@) is None,
        arg_get(mid, "store_h"@) is None,
    ensures
        ({
            let a = mid + store_fields("store_w"@, sw) + store_fields("store_h"@, sh);
            &&& spec_store_var(a, "store_w"@) == sw
            &&& spec_store_var(a, "store_h"@) == sh
            &&& forall|k: Seq<char>|
                k != "store_w"@ && k != "store_h"@ ==> #[trigger] arg_get(a, k) == arg_get(mid, k)
            &&& spec_region(a) == spec_region(mid)
            &&& fields_ok(mid) ==> fields_ok(a)
        }),
{
    broadcast use group_fields;
    lemma_key_literals();
    lemma_keys_ok();
    let a = mid + store_fields("store_w"@, sw) + store_fields("store_h"@, sh);
    lemma_store_read(a, "store_w"@, sw);
    lemma_store_read(a, "store_h"@, sh);
}

proof fn lemma_pixel_color_read(c: MacroCommandV)
    requires
        command_ok(c),
        c is IfPixelColor,
    ensures
        reads_back(c),
{
    broadcast use group_fields;
    lemma_name_literals();
    lemma_key_literals();
    lemma_keys_ok();
    lemma_value_literals();
    lemma_words_plain();
    let a = command_fields(c);
    match c {
        MacroCommandV::IfPixelColor { x, y, r, g, b, tolerance } => {
            lemma_coord_plain(x);
            lemma_coord_plain(y);
            lemma_num_field_ok("r"@, r as int);
            lemma_num_field_ok("g"@, g as int);
            lemma_num_field_ok("b"@, b as int);
            lemma_num_field_ok("tol"@, tolerance as int);
            assert(a =~= seq![fld("x"@, spec_format_coord(x), false)].push(
                fld("y"@, spec_format_coord(y), false),
            ).push(num_field("r"@, r as int)).push(num_field("g"@, g as int)).push(
                num_field("b"@, b as int),
            ).push(num_field("tol"@, tolerance as int)));
            lemma_coord_read(x, a, "x"@);
            lemma_coord_read(y, a, "y"@);
            lemma_num_read(a, "r"@, r as int, false, 0, 255, 0);
            lemma_num_read(a, "g"@, g as int, false, 0, 255, 0);
            lemma_num_read(a, "b"@, b as int, false, 0, 255, 0);
            lemma_num_read(a, "tol"@, tolerance as int, false, 0, 255, 0);
        },
        _ => {},
    }
}

proof fn lemma_image_found_read(c: MacroCommandV)
    requires
        command_ok(c),
        c is IfImageFound,
    ensures
        reads_back(c),
{
    broadcast use group_fields;
    lemma_name_literals();
    lemma_key_literals();
    lemma_keys_ok();
    lemma_value_literals();
    lemma_words_plain();
    let a = command_fields(c);
    match c {
        MacroCommandV::IfImageFound {
            target_image_path,
            similarity_threshold,
            move_cursor_if_found,
            trigger_if_not_found,
            region,
            store_x,
            store_y,
        } => {
            lemma_bool_field_ok("move"@, move_cursor_if_found);
            lemma_bool_field_ok("not_found"@, trigger_if_not_found);
            lemma_bool_read(move_cursor_if_found);
            lemma_bool_read(trigger_if_not_found);
            let front = seq![fld("target"@, target_image_path, true)].push(
                fld("tol"@, similarity_threshold, false),
            ).push(fld("move"@, bool_text(move_cursor_if_found), false)).push(
                fld("not_found"@, bool_text(trigger_if_not_found), false),
            );
            assert(a =~= front + region_fields(region) + store_fields("store_x"@, store_x)
                + store_fields("store_y"@, store_y));
            lemma_tail_read(front, region, store_x, store_y);
            lemma_tail_get(front, region, store_x, store_y, "target"@);
            lemma_tail_get(front, region, store_x, store_y, "tol"@);
            lemma_tail_get(front, region, store_x, store_y, "move"@);
            lemma_tail_get(front, region, store_x, store_y, "not_found"@);
            assert(fields_ok(front));
            assert(fields_ok(a));
            assert(spec_command(command_name(c), a) == Some(c));
        },
        _ => {},
    }
}

proof fn lemma_color_found_read(c: MacroCommandV)
    requires
        command_ok(c),
        c is IfColorFound,
    ensures
        reads_back(c),
{
    broadcast use group_fields;
    lemma_name_literals();
    lemma_key_literals();
    lemma_keys_ok();
    lemma_value_literals();
    lemma_words_plain();
    let a = command_fields(c);
    match c {
        MacroCommandV::IfColorFound {
            region,
            r,
            g,
            b,
            tolerance,
            min_width,
            min_height,
            move_cursor_if_found,
            store_x,
            store_y,
            store_w,
            store_h,
        } => {
            lemma_color_read(r, g, b);
            lemma_num_field_ok("tol"@, tolerance as int);
            lemma_num_field_ok("min_width"@, min_width as int);
            lemma_num_field_ok("min_height"@, min_height as int);
            lemma_bool_field_ok("move"@, true);
            let head = seq![fld("color"@, color_text(r, g, b), false)].push(
                num_field("tol"@, tolerance as int),
            ).push(num_field("min_width"@, min_width as int)).push(
                num_field("min_height"@, min_height as int),
            );
            let mv = if move_cursor_if_found {
                seq![fld("move"@, "true"@, false)]
            } else {
                Seq::<ArgV>::empty()
            };
            let front = head + mv;
            let mid = front + region_fields(region) + store_fields("store_x"@, store_x)
                + store_fields("store_y"@, store_y);
            assert(a =~= mid + store_fields("store_w"@, store_w) + store_fields("store_h"@, store_h));
            lemma_tail_read(front, region, store_x, store_y);
            lemma_tail_get(front, region, store_x, store_y, "color"@);
            lemma_tail_get(front, region, store_x, store_y, "tol"@);
            lemma_tail_get(front, region, store_x, store_y, "min_width"@);
            lemma_tail_get(front, region, store_x, store_y, "min_height"@);
            lemma_tail_get(front, region, store_x, store_y, "move"@);
            lemma_tail_get(front, region, store_x, store_y, "store_w"@);
            lemma_tail_get(front, region, store_x, store_y, "store_h"@);
            lemma_stores_after(mid, store_w, store_h);
            lemma_num_read(a, "tol"@, tolerance as int, false, 0, 255, 0);
            lemma_num_read(a, "min_width"@, min_width as int, false, 0, u32::MAX as int, 1);
            lemma_num_read(a, "min_height"@, min_height as int, false, 0, u32::MAX as int, 1);
            assert(fields_ok(a));
        },
        _ => {},
    }
}

/// What a command line must give for the reader to take it back.
pub open spec fn reads_back(c: MacroCommandV) -> bool {
    &&& fields_ok(command_fields(c))
    &&& spec_command(command_name(c), command_fields(c)) == Some(c)
    &&& forall|raw: Seq<char>, rest: Seq<char>| #[trigger]
        line_ok(ParsedLineV { raw, cmd: command_name(c), rest, args: command_fields(c) })
}

proof fn lemma_other_read(c: MacroCommandV)
    requires
        command_ok(c),
        !(c is Action),
        !(c is IfPixelColor),
        !(c is IfImageFound),
        !(c is IfColorFound),
    ensures
        reads_back(c),
{
    broadcast use group_fields;
    lemma_name_literals();
    lemma_key_literals();
    lemma_keys_ok();
    lemma_value_literals();
    lemma_words_plain();
    let a = command_fields(c);
    match c {
        MacroCommandV::Loop { count } => {
            lemma_operand_field("count"@, count);
            assert(a == seq![operand_field("count"@, count)]);
            lemma_operand_read(count, a, "count"@);
        },
        MacroCommandV::OpenFile { path, args, run_as_admin } => {
            lemma_bool_read(run_as_admin);
            assert(a =~= seq![fld("path"@, path, true)].push(fld("args"@, args, true)).push(
                fld("admin"@, bool_text(run_as_admin), false),
            ));
        },
        MacroCommandV::SetVariable { target, value } => {
            lemma_operand_field("value"@, value);
            assert(a =~= seq![fld("target"@, target, true)].push(operand_field("value"@, value)));
            lemma_operand_read(value, a, "value"@);
        },
        MacroCommandV::Calculate { target, expression } => {
            assert(a =~= seq![fld("target"@, target, true)].push(fld("expr"@, expression, true)));
        },
        MacroCommandV::IfCompare { left, op, right } => {
            lemma_operand_field("left"@, left);
            lemma_operand_field("right"@, right);
            assert(a =~= seq![operand_field("left"@, left)].push(fld("op"@, op.spec_symbol(), true)).push(
                operand_field("right"@, right),
            ));
            lemma_operand_read(left, a, "left"@);
            lemma_operand_read(right, a, "right"@);
        },
        MacroCommandV::Delay { duration_ms } => {
            lemma_operand_field("duration_ms"@, duration_ms);
            assert(a == seq![operand_field("duration_ms"@, duration_ms)]);
            lemma_operand_read(duration_ms, a, "duration_ms"@);
        },
        MacroCommandV::SetClipboard { text } => {
            lemma_operand_field("text"@, text);
            assert(a == seq![operand_field("text"@, text)]);
            lemma_operand_read(text, a, "text"@);
        },
        MacroCommandV::PlayMacro(p) => {
            assert(a == seq![fld("path"@, p, true)]);
        },
        MacroCommandV::Label(n) => {
            assert(a == seq![fld("name"@, n, true)]);
        },
        MacroCommandV::Goto(t) => {
            assert(a == seq![fld("target"@, t, true)]);
        },
        MacroCommandV::TypeText(t) => {
            assert(a == seq![fld("text"@, t, true)]);
        },
        MacroCommandV::GetClipboard { target } => {
            assert(a == seq![fld("target"@, target, true)]);
        },
        MacroCommandV::Comment(t) => {
            assert(a == seq![fld("text"@, t, true)]);
        },
        _ => {
            assert(a == Seq::<ArgV>::empty());
        },
    }
}

/// Every command that the format holds reads back from its line.
pub proof fn lemma_command_read(c: MacroCommandV)
    requires
        command_ok(c),
    ensures
        reads_back(c),
        name_ok(command_name(c)),
        command_name(c) != "version"@,
        command_name(c) != "name"@,
{
    lemma_name_literals();
    lemma_words_plain();
    match c {
        MacroCommandV::Action(e) => lemma_event_read(e),
        MacroCommandV::IfPixelColor { .. } => lemma_pixel_color_read(c),
        MacroCommandV::IfImageFound { .. } => lemma_image_found_read(c),
        MacroCommandV::IfColorFound { .. } => lemma_color_found_read(c),
        _ => lemma_other_read(c),
    }
}

// ---------------------------------------------------------------------------
// whole scripts
// ---------------------------------------------------------------------------
proof fn lemma_lines_front(cmds: Seq<MacroCommandV>)
    requires
        cmds.len() > 0,
    ensures
        spec_command_lines(cmds) == spec_command_line(cmds[0]) + spec_command_lines(cmds.skip(1)),
    decreases cmds.len(),
{
    if cmds.len() == 1 {
        assert(cmds.drop_last() =~= Seq::<MacroCommandV>::empty());
        assert(cmds.skip(1) =~= Seq::<MacroCommandV>::empty());
        assert(spec_command_lines(cmds.drop_last()) =~= Seq::<char>::empty());
        assert(spec_command_lines(cmds.skip(1)) =~= Seq::<char>::empty());
        assert(cmds.last() == cmds[0]);
        assert(spec_command_lines(cmds) =~= spec_command_line(cmds[0]) + spec_command_lines(
            cmds.skip(1),
        ));
    } else {
        let d = cmds.drop_last();
        lemma_lines_front(d);
        assert(cmds.skip(1).drop_last() =~= d.skip(1));
        assert(d[0] == cmds[0]);
        assert(cmds.skip(1).last() == cmds.last());
        assert(spec_command_lines(cmds) =~= spec_command_line(cmds[0]) + spec_command_lines(
            cmds.skip(1),
        ));
    }
}

/// The line starting at `i` is `body`, followed by a line break.
proof fn lemma_next_line(s: Seq<char>, i: int, body: Seq<char>)
    requires
        0 <= i,
        i + body.len() < s.len(),
        s.subrange(i, i + body.len()) == body,
        s[i + body.len()] == '\n',
        no_newline(body),
    ensures
        find_char(s, '\n', i) == i + body.len(),
        s.subrange(i, i + body.len()) == body,
    decreases body.len(),
{
    if body.len() > 0 {
        assert(s[i] == body[0]) by {
            assert(s.subrange(i, i + body.len())[0] == body[0]);
        }
        assert(s.subrange(i + 1, i + body.len()) =~= body.skip(1)) by {
            assert forall|k: int| 0 <= k < body.len() - 1 implies s.subrange(i + 1, i + body.len())[k]
                == body.skip(1)[k] by {
                assert(s.subrange(i, i + body.len())[k + 1] == body[k + 1]);
            }
        }
        assert forall|k: int| 0 <= k < body.skip(1).len() implies #[trigger] body.skip(1)[k] != '\n' by {
            assert(body.skip(1)[k] == body[k + 1]);
        }
        lemma_next_line(s, i + 1, body.skip(1));
    }
}

/// The command lines from `i` to the end read back as the commands.
proof fn lemma_read_commands(s: Seq<char>, i: int, cmds: Seq<MacroCommandV>, st: ReadState)
    requires
        0 <= i <= s.len(),
        s.subrange(i, s.len() as int) == spec_command_lines(cmds),
        forall|j: int| 0 <= j < cmds.len() ==> command_ok(#[trigger] cmds[j]),
    ensures
        read_from(s, i, st) == (ReadState { commands: st.commands + cmds, ..st }),
        lines_ok_from(s, i),
    decreases cmds.len(),
{
    if cmds.len() == 0 {
        assert(i == s.len());
        lemma_find_char(s, '\n', i);
        assert(s.subrange(i, i) =~= Seq::<char>::empty());
        lemma_skip_ws_bounds(Seq::<char>::empty(), 0);
        assert(trim(Seq::<char>::empty()).len() == 0);
        assert(st.commands + cmds =~= st.commands);
    } else {
        let c = cmds[0];
        let rest = cmds.skip(1);
        let name = command_name(c);
        let fs = command_fields(c);
        assert(command_ok(c));
        lemma_command_read(c);
        lemma_line_read(name, fs);
        let body = line_body(name, fs);
        let e = i + body.len();
        lemma_lines_front(cmds);
        let tail = spec_command_lines(rest);
        assert(s.subrange(i, s.len() as int) == body + seq!['\n'] + tail);
        assert(s.subrange(i, e) =~= body) by {
            assert forall|k: int| 0 <= k < body.len() implies s.subrange(i, e)[k] == body[k] by {
                assert(s.subrange(i, s.len() as int)[k] == (body + seq!['\n'] + tail)[k]);
            }
        }
        assert(s[e] == '\n') by {
            assert(s.subrange(i, s.len() as int)[body.len() as int] == (body + seq!['\n'] + tail)[body.len() as int]);
        }
        lemma_next_line(s, i, body);
        assert(s.subrange(e + 1, s.len() as int) =~= tail) by {
            assert forall|k: int| 0 <= k < tail.len() implies s.subrange(e + 1, s.len() as int)[k]
                == tail[k] by {
                assert(s.subrange(i, s.len() as int)[body.len() + 1 + k] == (body + seq!['\n']
                    + tail)[body.len() + 1 + k]);
            }
        }
        assert forall|j: int| 0 <= j < rest.len() implies command_ok(#[trigger] rest[j]) by {
            assert(rest[j] == cmds[j + 1]);
        }
        let st2 = ReadState { commands: st.commands.push(c), ..st };
        assert(step_line(st, body) == st2);
        lemma_read_commands(s, e + 1, rest, st2);
        assert(st.commands.push(c) + rest =~= st.commands + cmds);
    }
}

/// Two short sequences with the same characters at each position are equal.
proof fn lemma_same_chars(a: Seq<char>, b: Seq<char>)
    requires
        a.len() == b.len(),
        a.len() <= 9,
        0 < a.len() ==> a[0] == b[0],
        1 < a.len() ==> a[1] == b[1],
        2 < a.len() ==> a[2] == b[2],
        3 < a.len() ==> a[3] == b[3],
        4 < a.len() ==> a[4] == b[4],
        5 < a.len() ==> a[5] == b[5],
        6 < a.len() ==> a[6] == b[6],
        7 < a.len() ==> a[7] == b[7],
        8 < a.len() ==> a[8] == b[8],
    ensures
        a == b,
{
    assert forall|i: int| 0 <= i < a.len() implies a[i] == b[i] by {
        if i == 0 {
        } else if i == 1 {
        } else if i == 2 {
        } else if i == 3 {
        } else if i == 4 {
        } else if i == 5 {
        } else if i == 6 {
        } else if i == 7 {
        } else {
        }
    }
    assert(a =~= b);
}

proof fn lemma_comment_line()
    ensures
        no_newline("# wmacro script"@),
        "# wmacro script"@.len() == 15,
        parse_line("# wmacro script"@) is None,
{
    reveal_strlit("# wmacro script");
    let l1 = "# wmacro script"@;
    assert forall|k: int| 0 <= k < l1.len() implies #[trigger] l1[k] != '\n' by {
        if k == 0 {} else if k == 1 {} else if k == 2 {} else if k == 3 {} else if k == 4 {}
        else if k == 5 {} else if k == 6 {} else if k == 7 {} else if k == 8 {} else if k == 9 {}
        else if k == 10 {} else if k == 11 {} else if k == 12 {} else if k == 13 {} else {}
    }
    assert(skip_ws(l1, 0) == 0);
    assert(skip_ws_back(l1, 0, 15) == 15);
    assert(trim(l1) =~= l1);
}

proof fn lemma_version_line(l2: Seq<char>, st: ReadState)
    requires
        l2 == "version "@ + dec_int(CURRENT_FORMAT_VERSION as int),
    ensures
        no_newline(l2),
        l2.len() == 9,
        step_line(st, l2) == (ReadState { version: CURRENT_FORMAT_VERSION, ..st }),
        parse_line(l2) matches Some(pl) && line_ok(pl),
{
    reveal_strlit("version ");
    reveal_strlit("version");
    lemma_name_literals();
    assert(dec_int(8) =~= seq!['8']);
    assert(l2 =~= seq!['v', 'e', 'r', 's', 'i', 'o', 'n', ' ', '8']) by {
        lemma_same_chars(l2, seq!['v', 'e', 'r', 's', 'i', 'o', 'n', ' ', '8']);
    }
    assert forall|k: int| 0 <= k < l2.len() implies #[trigger] l2[k] != '\n' by {
    }
    assert(skip_ws(l2, 0) == 0);
    assert(skip_ws_back(l2, 0, 9) == 9);
    assert(trim(l2) =~= l2);
    reveal_with_fuel(find_char, 9);
    assert(find_char(l2, ' ', 0) == 7);
    lemma_same_chars(l2.subrange(0, 7), "version"@);
    let r2 = l2.subrange(8, 9);
    assert(r2 =~= seq!['8']);
    assert(skip_ws(r2, 0) == 0);
    reveal_with_fuel(token_end, 3);
    assert(token_end(r2, 0) == 1);
    assert(r2.subrange(0, 1) =~= dec_int(8));
    lemma_parse_dec_int(8, false, 0, 255);
    assert(spec_version(r2, st.version) == 8);
}

proof fn lemma_name_line(l3: Seq<char>, name: Seq<char>, st: ReadState)
    requires
        l3 == "name \""@ + name + "\""@,
        no_newline(name),
    ensures
        no_newline(l3),
        l3.len() == name.len() + 7,
        step_line(st, l3) == (ReadState { name, ..st }),
        parse_line(l3) matches Some(pl) && line_ok(pl),
{
    reveal_strlit("name \"");
    reveal_strlit("name");
    reveal_strlit("\"");
    lemma_name_literals();
    let n3 = l3.len() as int;
    assert(l3[0] == 'n' && l3[1] == 'a' && l3[2] == 'm' && l3[3] == 'e' && l3[4] == ' ' && l3[5] == '"');
    assert(l3.last() == '"');
    assert forall|k: int| 0 <= k < l3.len() implies #[trigger] l3[k] != '\n' by {
        if 6 <= k < 6 + name.len() {
            assert(l3[k] == name[k - 6]);
        } else if k == 0 {} else if k == 1 {} else if k == 2 {} else if k == 3 {}
        else if k == 4 {} else if k == 5 {} else {}
    }
    assert(skip_ws(l3, 0) == 0);
    assert(skip_ws_back(l3, 0, n3) == n3);
    assert(trim(l3) =~= l3);
    reveal_with_fuel(find_char, 6);
    assert(find_char(l3, ' ', 0) == 4);
    lemma_same_chars(l3.subrange(0, 4), "name"@);
    assert(find_char(l3, '"', 0) == 5);
    assert(rfind_char(l3, '"', n3) == n3 - 1);
    assert(l3.subrange(6, n3 - 1) =~= name);
    assert(spec_quoted_name(l3) == Some(name));
}

/// The header of a written script sets the name and the current version.
proof fn lemma_read_header(s: Seq<char>, name: Seq<char>, tail: Seq<char>)
    requires
        s == spec_header(name) + tail,
        no_newline(name),
    ensures
        read_from(s, 0, initial_state()) == read_from(
            s,
            spec_header(name).len() as int,
            ReadState { name, version: CURRENT_FORMAT_VERSION, commands: Seq::empty() },
        ),
        lines_ok_from(s, 0) == lines_ok_from(s, spec_header(name).len() as int),
{
    let h = spec_header(name);
    let l1 = "# wmacro script"@;
    let l2 = "version "@ + dec_int(CURRENT_FORMAT_VERSION as int);
    let l3 = "name \""@ + name + "\""@;
    let v = ReadState { version: CURRENT_FORMAT_VERSION, ..initial_state() };
    let w = ReadState { name, ..v };
    lemma_comment_line();
    lemma_version_line(l2, initial_state());
    lemma_name_line(l3, name, v);
    assert(h =~= l1 + seq!['\n'] + l2 + seq!['\n'] + l3 + seq!['\n', '\n']);
    let n3 = l3.len() as int;
    let p2 = 16int;
    let p3 = 26int;
    let p4 = 27 + n3;
    assert(s.subrange(0, 15) =~= l1);
    assert(s[15] == '\n');
    assert(s.subrange(p2, p2 + 9) =~= l2);
    assert(s[25] == '\n');
    assert(s.subrange(p3, p3 + n3) =~= l3);
    assert(s[p3 + n3] == '\n');
    assert(s[p4] == '\n');
    lemma_next_line(s, 0, l1);
    lemma_next_line(s, p2, l2);
    lemma_next_line(s, p3, l3);
    lemma_find_char(s, '\n', p4);
    assert(find_char(s, '\n', p4) == p4);
    assert(s.subrange(p4, p4) =~= Seq::<char>::empty());
    lemma_skip_ws_bounds(Seq::<char>::empty(), 0);
    assert(parse_line(Seq::<char>::empty()) is None);
    assert(h.len() == p4 + 1);
    assert(read_from(s, 0, initial_state()) == read_from(s, p2, initial_state()));
    assert(read_from(s, p2, initial_state()) == read_from(s, p3, v));
    assert(read_from(s, p3, v) == read_from(s, p4, w));
    assert(read_from(s, p4, w) == read_from(s, p4 + 1, w));
    assert(lines_ok_from(s, 0) == lines_ok_from(s, p2));
    assert(lines_ok_from(s, p2) == lines_ok_from(s, p3));
    assert(lines_ok_from(s, p3) == lines_ok_from(s, p4));
    assert(lines_ok_from(s, p4) == lines_ok_from(s, p4 + 1));
}

/// Reading back a written macro gives its name and commands, in the current
/// format version, for every macro whose name holds no line break and whose
/// commands the format holds exactly.
pub proof fn lemma_serialize_deserialize(m: MacroV)
    requires
        no_newline(m.name),
        forall|j: int| 0 <= j < m.commands.len() ==> command_ok(#[trigger] m.commands[j]),
    ensures
        script_ok(spec_serialize(m)),
        spec_deserialize(spec_serialize(m)) == (MacroV { version: CURRENT_FORMAT_VERSION, ..m }),
{
    let s = spec_serialize(m);
    let h = spec_header(m.name);
    let tail = spec_command_lines(m.commands);
    lemma_read_header(s, m.name, tail);
    assert(s.subrange(h.len() as int, s.len() as int) =~= tail);
    let st = ReadState { name: m.name, version: CURRENT_FORMAT_VERSION, commands: Seq::empty() };
    lemma_read_commands(s, h.len() as int, m.commands, st);
    assert(Seq::<MacroCommandV>::empty() + m.commands =~= m.commands);
}

} // verus!
