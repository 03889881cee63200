//! Writing a macro as `.wmr` script text.
//!
//! Every command becomes one line: its name, then its `key=value` fields
//! separated by single spaces. Text fields are written in double quotes with
//! each `"` doubled; numbers, booleans and `$` references are written bare.
use vstd::prelude::*;
use crate::text::{dec_int, fmt_u64, fmt_i64, push_all, push_str, chars_of, string_of, hex_byte, push_hex_byte};
use crate::types::{
    Coord, CoordV, MousePosition, MousePositionV, MacroEvent, MacroEventV, Value, ValueV, Operand,
    OperandV, MacroButton,
};
use crate::command::{MacroCommand, MacroCommandV, Macro, MacroV, Region, CURRENT_FORMAT_VERSION, opt_view};
use crate::script_read::ArgV;
use crate::reader::{ArgEntry, args_view};

verus! {

// ---------------------------------------------------------------------------
// model: fields and lines
// ---------------------------------------------------------------------------
/// The escape of one character: `"` becomes `""`.
pub open spec fn esc_char(c: char) -> Seq<char> {
    if c == '"' {
        seq!['"', '"']
    } else {
        seq![c]
    }
}

/// `s` with every `"` doubled, the format's only escape.
pub open spec fn esc(s: Seq<char>) -> Seq<char>
    decreases s.len(),
{
    if s.len() == 0 {
        Seq::empty()
    } else {
        esc_char(s[0]) + esc(s.skip(1))
    }
}

pub proof fn lemma_esc_append(s: Seq<char>, c: char)
    ensures
        esc(s.push(c)) == esc(s) + esc_char(c),
    decreases s.len(),
{
    if s.len() == 0 {
        assert(s.push(c).skip(1) =~= Seq::<char>::empty());
        assert(esc(Seq::<char>::empty()) =~= Seq::<char>::empty());
        assert(esc(s.push(c)) =~= esc_char(c));
    } else {
        lemma_esc_append(s.skip(1), c);
        assert(s.push(c).skip(1) =~= s.skip(1).push(c));
        assert(s.push(c)[0] == s[0]);
        assert(esc(s.push(c)) =~= esc(s) + esc_char(c));
    }
}

/// `s` escaped and wrapped in double quotes.
pub open spec fn quoted(s: Seq<char>) -> Seq<char> {
    seq!['"'] + esc(s) + seq!['"']
}

/// A field as written: `key=value`, or `key="value"` for a quoted field.
pub open spec fn render_field(f: ArgV) -> Seq<char> {
    f.key + seq!['='] + (if f.quoted {
        quoted(f.val)
    } else {
        f.val
    })
}

/// Fields separated by single spaces.
pub open spec fn render_fields(fs: Seq<ArgV>) -> Seq<char>
    decreases fs.len(),
{
    if fs.len() == 0 {
        Seq::empty()
    } else if fs.len() == 1 {
        render_field(fs[0])
    } else {
        render_field(fs[0]) + seq![' '] + render_fields(fs.skip(1))
    }
}

/// A command line: the name, then a space and the fields when there are any, then a newline.
pub open spec fn render_line(name: Seq<char>, fs: Seq<ArgV>) -> Seq<char> {
    name + (if fs.len() == 0 {
        Seq::empty()
    } else {
        seq![' '] + render_fields(fs)
    }) + seq!['\n']
}

pub open spec fn fld(key: Seq<char>, val: Seq<char>, quoted: bool) -> ArgV {
    ArgV { key, val, quoted }
}

pub open spec fn bool_text(b: bool) -> Seq<char> {
    if b {
        "true"@
    } else {
        "false"@
    }
}

/// A coordinate: a number or `$name`.
pub open spec fn spec_format_coord(c: CoordV) -> Seq<char> {
    match c {
        CoordV::Const(v) => dec_int(v as int),
        CoordV::Var(n) => seq!['$'] + n,
    }
}

/// An operand field: `$name` or a number written bare, text quoted.
pub open spec fn operand_field(key: Seq<char>, op: OperandV) -> ArgV {
    match op {
        OperandV::Var(n) => fld(key, seq!['$'] + n, false),
        OperandV::Literal(ValueV::Number(n)) => fld(key, dec_int(n as int), false),
        OperandV::Literal(ValueV::Text(s)) => fld(key, s, true),
    }
}

/// An operand as written in a script.
pub open spec fn spec_format_operand(op: OperandV) -> Seq<char> {
    let f = operand_field(Seq::empty(), op);
    if f.quoted {
        quoted(f.val)
    } else {
        f.val
    }
}

pub open spec fn num_field(key: Seq<char>, n: int) -> ArgV {
    fld(key, dec_int(n), false)
}

pub open spec fn position_fields(p: MousePositionV) -> Seq<ArgV> {
    match p {
        MousePositionV::Absolute { x, y } => seq![
            fld("x"@, spec_format_coord(x), false),
            fld("y"@, spec_format_coord(y), false),
        ],
        MousePositionV::Current => seq![fld("pos"@, "current"@, false)],
    }
}

pub open spec fn spec_button_name(b: MacroButton) -> Seq<char> {
    match b {
        MacroButton::Left => "Left"@,
        MacroButton::Right => "Right"@,
        MacroButton::Middle => "Middle"@,
    }
}

/// `jitter=N`, written only when the jitter is not zero.
pub open spec fn jitter_fields(jitter: u32) -> Seq<ArgV> {
    if jitter > 0 {
        seq![num_field("jitter"@, jitter as int)]
    } else {
        Seq::empty()
    }
}

pub open spec fn region_fields(region: Option<Region>) -> Seq<ArgV> {
    match region {
        Some((l, t, w, h)) => seq![
            num_field("left"@, l as int),
            num_field("top"@, t as int),
            num_field("width"@, w as int),
            num_field("height"@, h as int),
        ],
        None => Seq::empty(),
    }
}

/// `key="name"`, written only when a name is given.
pub open spec fn store_fields(key: Seq<char>, name: Option<Seq<char>>) -> Seq<ArgV> {
    match name {
        Some(n) => seq![fld(key, n, true)],
        None => Seq::empty(),
    }
}

pub open spec fn pointer_fields(p: MousePositionV, b: MacroButton, jitter: u32) -> Seq<ArgV> {
    position_fields(p) + seq![fld("btn"@, spec_button_name(b), false)] + jitter_fields(jitter)
}

pub open spec fn key_fields(key: Seq<char>, code: u16) -> Seq<ArgV> {
    seq![fld("key"@, key, true), num_field("code"@, code as int)]
}

/// The name a command is written under.
pub open spec fn command_name(c: MacroCommandV) -> Seq<char> {
    match c {
        MacroCommandV::Action(e) => match e {
            MacroEventV::Delay(_) => "Delay"@,
            MacroEventV::MouseMove { .. } => "MouseMove"@,
            MacroEventV::Click { .. } => "Click"@,
            MacroEventV::MouseDown { .. } => "MouseDown"@,
            MacroEventV::MouseUp { .. } => "MouseUp"@,
            MacroEventV::Scroll { .. } => "Scroll"@,
            MacroEventV::KeyDown { .. } => "KeyDown"@,
            MacroEventV::KeyUp { .. } => "KeyUp"@,
            MacroEventV::KeyPress { .. } => "KeyPress"@,
        },
        MacroCommandV::IfPixelColor { .. } => "IfPixelColor"@,
        MacroCommandV::IfImageFound { .. } => "IfImageFound"@,
        MacroCommandV::IfColorFound { .. } => "IfColorFound"@,
        MacroCommandV::Else => "Else"@,
        MacroCommandV::EndIf => "EndIf"@,
        MacroCommandV::Loop { .. } => "Loop"@,
        MacroCommandV::EndLoop => "EndLoop"@,
        MacroCommandV::PlayMacro(_) => "PlayMacro"@,
        MacroCommandV::Label(_) => "Label"@,
        MacroCommandV::Goto(_) => "Goto"@,
        MacroCommandV::TypeText(_) => "TypeText"@,
        MacroCommandV::OpenFile { .. } => "OpenFile"@,
        MacroCommandV::SetVariable { .. } => "SetVariable"@,
        MacroCommandV::Calculate { .. } => "Calculate"@,
        MacroCommandV::IfCompare { .. } => "IfCompare"@,
        MacroCommandV::Delay { .. } => "Delay"@,
        MacroCommandV::SetClipboard { .. } => "SetClipboard"@,
        MacroCommandV::GetClipboard { .. } => "GetClipboard"@,
        MacroCommandV::Comment(_) => "Comment"@,
    }
}

pub open spec fn event_fields(e: MacroEventV) -> Seq<ArgV> {
    match e {
        MacroEventV::Delay(us) => seq![num_field("us"@, us as int)],
        MacroEventV::MouseMove { x, y } => seq![
            fld("x"@, spec_format_coord(x), false),
            fld("y"@, spec_format_coord(y), false),
        ],
        MacroEventV::Click { position, button, jitter, hold_time_ms } => pointer_fields(
            position,
            button,
            jitter,
        ) + seq![num_field("hold"@, hold_time_ms as int)],
        MacroEventV::MouseDown { position, button, jitter } => pointer_fields(
            position,
            button,
            jitter,
        ),
        MacroEventV::MouseUp { position, button, jitter } => pointer_fields(
            position,
            button,
            jitter,
        ),
        MacroEventV::Scroll { dx, dy } => seq![num_field("dx"@, dx as int), num_field("dy"@, dy as int)],
        MacroEventV::KeyDown { key, code } => key_fields(key, code),
        MacroEventV::KeyUp { key, code } => key_fields(key, code),
        MacroEventV::KeyPress { key, code, hold_time_ms } => key_fields(key, code) + seq![
            num_field("hold_time_ms"@, hold_time_ms as int),
        ],
    }
}

pub open spec fn color_fields(
    region: Option<Region>,
    r: u8,
    g: u8,
    b: u8,
    tolerance: u8,
    min_width: u32,
    min_height: u32,
    mv: bool,
    store_x: Option<Seq<char>>,
    store_y: Option<Seq<char>>,
    store_w: Option<Seq<char>>,
    store_h: Option<Seq<char>>,
) -> Seq<ArgV> {
    seq![
        fld("color"@, seq!['#'] + hex_byte(r) + hex_byte(g) + hex_byte(b), false),
        num_field("tol"@, tolerance as int),
        num_field("min_width"@, min_width as int),
        num_field("min_height"@, min_height as int),
    ] + (if mv {
        seq![fld("move"@, "true"@, false)]
    } else {
        Seq::empty()
    }) + region_fields(region) + store_fields("store_x"@, store_x) + store_fields(
        "store_y"@,
        store_y,
    ) + store_fields("store_w"@, store_w) + store_fields("store_h"@, store_h)
}

/// The fields a command is written with, in order.
pub open spec fn command_fields(c: MacroCommandV) -> Seq<ArgV> {
    match c {
        MacroCommandV::Action(e) => event_fields(e),
        MacroCommandV::IfPixelColor { x, y, r, g, b, tolerance } => seq![
            fld("x"@, spec_format_coord(x), false),
            fld("y"@, spec_format_coord(y), false),
            num_field("r"@, r as int),
            num_field("g"@, g as int),
            num_field("b"@, b as int),
            num_field("tol"@, tolerance as int),
        ],
        MacroCommandV::IfImageFound {
            target_image_path,
            similarity_threshold,
            move_cursor_if_found,
            trigger_if_not_found,
            region,
            store_x,
            store_y,
        } => seq![
            fld("target"@, target_image_path, true),
            fld("tol"@, similarity_threshold, false),
            fld("move"@, bool_text(move_cursor_if_found), false),
            fld("not_found"@, bool_text(trigger_if_not_found), false),
        ] + region_fields(region) + store_fields("store_x"@, store_x) + store_fields(
            "store_y"@,
            store_y,
        ),
        MacroCommandV::IfColorFound {
            region,
            r,
            g,
            b,
            tolerance,
            min_width,
            min_height,
            move_cursor_if_found,
            store_x,
            store_y,
            store_w,
            store_h,
        } => color_fields(
            region,
            r,
            g,
            b,
            tolerance,
            min_width,
            min_height,
            move_cursor_if_found,
            store_x,
            store_y,
            store_w,
            store_h,
        ),
        MacroCommandV::Else => Seq::empty(),
        MacroCommandV::EndIf => Seq::empty(),
        MacroCommandV::Loop { count } => seq![operand_field("count"@, count)],
        MacroCommandV::EndLoop => Seq::empty(),
        MacroCommandV::PlayMacro(p) => seq![fld("path"@, p, true)],
        MacroCommandV::Label(n) => seq![fld("name"@, n, true)],
        MacroCommandV::Goto(t) => seq![fld("target"@, t, true)],
        MacroCommandV::TypeText(t) => seq![fld("text"@, t, true)],
        MacroCommandV::OpenFile { path, args, run_as_admin } => seq![
            fld("path"@, path, true),
            fld("args"@, args, true),
            fld("admin"@, bool_text(run_as_admin), false),
        ],
        MacroCommandV::SetVariable { target, value } => seq![
            fld("target"@, target, true),
            operand_field("value"@, value),
        ],
        MacroCommandV::Calculate { target, expression } => seq![
            fld("target"@, target, true),
            fld("expr"@, expression, true),
        ],
        MacroCommandV::IfCompare { left, op, right } => seq![
            operand_field("left"@, left),
            fld("op"@, op.spec_symbol(), true),
            operand_field("right"@, right),
        ],
        MacroCommandV::Delay { duration_ms } => seq![operand_field("duration_ms"@, duration_ms)],
        MacroCommandV::SetClipboard { text } => seq![operand_field("text"@, text)],
        MacroCommandV::GetClipboard { target } => seq![fld("target"@, target, true)],
        MacroCommandV::Comment(t) => seq![fld("text"@, t, true)],
    }
}

/// The script line of a command.
pub open spec fn spec_command_line(c: MacroCommandV) -> Seq<char> {
    render_line(command_name(c), command_fields(c))
}

pub open spec fn spec_command_lines(cmds: Seq<MacroCommandV>) -> Seq<char>
    decreases cmds.len(),
{
    if cmds.len() == 0 {
        Seq::empty()
    } else {
        spec_command_lines(cmds.drop_last()) + spec_command_line(cmds.last())
    }
}

/// The header: a comment, the current format version and the (unescaped) name.
pub open spec fn spec_header(name: Seq<char>) -> Seq<char> {
    "# wmacro script"@ + seq!['\n'] + "version "@ + dec_int(CURRENT_FORMAT_VERSION as int)
        + seq!['\n'] + "name \""@ + name + "\""@ + seq!['\n', '\n']
}

/// The script text of a macro.
pub open spec fn spec_serialize(m: MacroV) -> Seq<char> {
    spec_header(m.name) + spec_command_lines(m.commands)
}

// ---------------------------------------------------------------------------
// executable writer
// ---------------------------------------------------------------------------
fn push_escaped(out: &mut Vec<char>, v: &Vec<char>)
    ensures
        final(out)@ == old(out)@ + esc(v@),
{
    let ghost base = out@;
    let mut i: usize = 0;
    assert(v@.take(0) =~= Seq::<char>::empty());
    assert(esc(Seq::<char>::empty()) =~= Seq::<char>::empty());
    while i < v.len()
        invariant
            i <= v.len(),
            out@ == base + esc(v@.take(i as int)),
        decreases v.len() - i,
    {
        let c = v[i];
        proof {
            lemma_esc_append(v@.take(i as int), c);
            assert(v@.take(i + 1) =~= v@.take(i as int).push(c));
        }
        if c == '"' {
            out.push('"');
            out.push('"');
        } else {
            out.push(c);
        }
        i = i + 1;
        assert(out@ =~= base + esc(v@.take(i as int)));
    }
    assert(v@.take(v.len() as int) == v@);
}

/// `s` with every `"` doubled.
pub fn escape(s: &str) -> (r: String)
    ensures
        r@ == esc(s@),
{
    let v = chars_of(s);
    let mut out: Vec<char> = Vec::new();
    push_escaped(&mut out, &v);
    assert(out@ =~= esc(s@));
    string_of(&out)
}

fn push_field(out: &mut Vec<char>, f: &ArgEntry)
    ensures
        final(out)@ == old(out)@ + render_field(f@),
{
    push_all(out, &f.key);
    out.push('=');
    if f.quoted {
        out.push('"');
        push_escaped(out, &f.val);
        out.push('"');
    } else {
        push_all(out, &f.val);
    }
    assert(out@ =~= old(out)@ + render_field(f@));
}

proof fn lemma_render_fields_push(fs: Seq<ArgV>, f: ArgV)
    ensures
        render_fields(fs.push(f)) == (if fs.len() == 0 {
            render_field(f)
        } else {
            render_fields(fs) + seq![' '] + render_field(f)
        }),
    decreases fs.len(),
{
    if fs.len() == 0 {
    } else if fs.len() == 1 {
        assert(fs.push(f).skip(1) =~= seq![f]);
        assert(render_fields(seq![f]) == render_field(f));
    } else {
        lemma_render_fields_push(fs.skip(1), f);
        assert(fs.push(f).skip(1) =~= fs.skip(1).push(f));
        assert(fs.push(f)[0] == fs[0]);
        assert(render_fields(fs.push(f)) =~= render_fields(fs) + seq![' '] + render_field(f));
    }
}

/// Appends a command line: `name`, the fields separated by spaces, a newline.
pub fn write_line(out: &mut Vec<char>, name: &str, fs: &Vec<ArgEntry>)
    ensures
        final(out)@ == old(out)@ + render_line(name@, args_view(fs@)),
{
    push_str(out, name);
    let ghost base = out@;
    let mut i: usize = 0;
    assert(args_view(fs@.take(0)) =~= Seq::<ArgV>::empty());
    while i < fs.len()
        invariant
            i <= fs.len(),
            out@ == base + (if i == 0 {
                Seq::<char>::empty()
            } else {
                seq![' '] + render_fields(args_view(fs@.take(i as int)))
            }),
        decreases fs.len() - i,
    {
        out.push(' ');
        push_field(out, &fs[i]);
        proof {
            let prev = args_view(fs@.take(i as int));
            lemma_render_fields_push(prev, fs@[i as int]@);
            assert(args_view(fs@.take(i + 1)) =~= prev.push(fs@[i as int]@));
        }
        i = i + 1;
        assert(out@ =~= base + seq![' '] + render_fields(args_view(fs@.take(i as int))));
    }
    assert(fs@.take(fs.len() as int) == fs@);
    out.push('\n');
    assert(out@ =~= old(out)@ + render_line(name@, args_view(fs@)));
}

fn entry(key: &str, val: Vec<char>, quoted: bool) -> (e: ArgEntry)
    ensures
        e@ == fld(key@, val@, quoted),
{
    ArgEntry { key: chars_of(key), val, quoted }
}

fn num_entry(key: &str, n: i64) -> (e: ArgEntry)
    ensures
        e@ == num_field(key@, n as int),
{
    entry(key, fmt_i64(n), false)
}

fn unum_entry(key: &str, n: u64) -> (e: ArgEntry)
    ensures
        e@ == num_field(key@, n as int),
{
    entry(key, fmt_u64(n), false)
}

fn text_entry(key: &str, s: &String) -> (e: ArgEntry)
    ensures
        e@ == fld(key@, s@, true),
{
    entry(key, chars_of(s.as_str()), true)
}

fn bool_entry(key: &str, b: bool) -> (e: ArgEntry)
    ensures
        e@ == fld(key@, bool_text(b), false),
{
    if b {
        entry(key, chars_of("true"), false)
    } else {
        entry(key, chars_of("false"), false)
    }
}

fn dollar_name(name: &String) -> (v: Vec<char>)
    ensures
        v@ == seq!['$'] + name@,
{
    let mut v: Vec<char> = Vec::new();
    v.push('$');
    let n = chars_of(name.as_str());
    push_all(&mut v, &n);
    v
}

fn coord_chars(c: &Coord) -> (v: Vec<char>)
    ensures
        v@ == spec_format_coord(c@),
{
    match c {
        Coord::Const(x) => fmt_i64(*x as i64),
        Coord::Var(name) => dollar_name(name),
    }
}

/// A coordinate as written in a script: a number or `$name`.
pub fn format_coord(c: &Coord) -> (s: String)
    ensures
        s@ == spec_format_coord(c@),
{
    string_of(&coord_chars(c))
}

fn operand_entry(key: &str, op: &Operand) -> (e: ArgEntry)
    ensures
        e@ == operand_field(key@, op@),
{
    match op {
        Operand::Var(name) => entry(key, dollar_name(name), false),
        Operand::Literal(Value::Number(n)) => num_entry(key, *n),
        Operand::Literal(Value::Text(s)) => text_entry(key, s),
    }
}

/// An operand as written in a script: `$name`, a number, or quoted text with doubled quotes.
pub fn format_operand(op: &Operand) -> (s: String)
    ensures
        s@ == spec_format_operand(op@),
{
    let e = operand_entry("", op);
    let mut out: Vec<char> = Vec::new();
    if e.quoted {
        out.push('"');
        push_escaped(&mut out, &e.val);
        out.push('"');
    } else {
        push_all(&mut out, &e.val);
    }
    assert(out@ =~= spec_format_operand(op@));
    string_of(&out)
}

/// The name of a button as written in a script.
pub fn format_button(b: &MacroButton) -> (s: &'static str)
    ensures
        s@ == spec_button_name(*b),
{
    match b {
        MacroButton::Left => "Left",
        MacroButton::Right => "Right",
        MacroButton::Middle => "Middle",
    }
}

fn push_entry(v: &mut Vec<ArgEntry>, e: ArgEntry)
    ensures
        args_view(final(v)@) == args_view(old(v)@).push(e@),
{
    v.push(e);
    assert(args_view(v@) =~= args_view(old(v)@).push(e@));
}

fn push_position(v: &mut Vec<ArgEntry>, p: &MousePosition)
    ensures
        args_view(final(v)@) == args_view(old(v)@) + position_fields(p@),
{
    match p {
        MousePosition::Absolute { x, y } => {
            push_entry(v, entry("x", coord_chars(x), false));
            push_entry(v, entry("y", coord_chars(y), false));
        },
        MousePosition::Current => {
            push_entry(v, entry("pos", chars_of("current"), false));
        },
    }
    assert(args_view(v@) =~= args_view(old(v)@) + position_fields(p@));
}

fn push_pointer(v: &mut Vec<ArgEntry>, p: &MousePosition, b: &MacroButton, jitter: u32)
    ensures
        args_view(final(v)@) == args_view(old(v)@) + pointer_fields(p@, *b, jitter),
{
    push_position(v, p);
    push_entry(v, entry("btn", chars_of(format_button(b)), false));
    if jitter > 0 {
        push_entry(v, unum_entry("jitter", jitter as u64));
    }
    assert(args_view(v@) =~= args_view(old(v)@) + pointer_fields(p@, *b, jitter));
}

fn push_region(v: &mut Vec<ArgEntry>, region: &Option<Region>)
    ensures
        args_view(final(v)@) == args_view(old(v)@) + region_fields(*region),
{
    if let Some((l, t, w, h)) = region {
        push_entry(v, num_entry("left", *l as i64));
        push_entry(v, num_entry("top", *t as i64));
        push_entry(v, num_entry("width", *w as i64));
        push_entry(v, num_entry("height", *h as i64));
    }
    assert(args_view(v@) =~= args_view(old(v)@) + region_fields(*region));
}

fn push_store(v: &mut Vec<ArgEntry>, key: &str, name: &Option<String>)
    ensures
        args_view(final(v)@) == args_view(old(v)@) + store_fields(key@, opt_view(*name)),
{
    if let Some(n) = name {
        push_entry(v, text_entry(key, n));
    }
    assert(args_view(v@) =~= args_view(old(v)@) + store_fields(key@, opt_view(*name)));
}

fn event_entries(ev: &MacroEvent) -> (r: (&'static str, Vec<ArgEntry>))
    ensures
        r.0@ == command_name(MacroCommandV::Action(ev@)),
        args_view(r.1@) == event_fields(ev@),
{
    let mut v: Vec<ArgEntry> = Vec::new();
    assert(args_view(v@) =~= Seq::<ArgV>::empty());
    let name = match ev {
        MacroEvent::Delay(us) => {
            push_entry(&mut v, unum_entry("us", *us));
            "Delay"
        },
        MacroEvent::MouseMove { x, y } => {
            push_entry(&mut v, entry("x", coord_chars(x), false));
            push_entry(&mut v, entry("y", coord_chars(y), false));
            "MouseMove"
        },
        MacroEvent::Click { position, button, jitter, hold_time_ms } => {
            push_pointer(&mut v, position, button, *jitter);
            push_entry(&mut v, unum_entry("hold", *hold_time_ms as u64));
            "Click"
        },
        MacroEvent::MouseDown { position, button, jitter } => {
            push_pointer(&mut v, position, button, *jitter);
            "MouseDown"
        },
        MacroEvent::MouseUp { position, button, jitter } => {
            push_pointer(&mut v, position, button, *jitter);
            "MouseUp"
        },
        MacroEvent::Scroll { dx, dy } => {
            push_entry(&mut v, num_entry("dx", *dx as i64));
            push_entry(&mut v, num_entry("dy", *dy as i64));
            "Scroll"
        },
        MacroEvent::KeyDown { key, code } => {
            push_entry(&mut v, text_entry("key", key));
            push_entry(&mut v, unum_entry("code", *code as u64));
            "KeyDown"
        },
        MacroEvent::KeyUp { key, code } => {
            push_entry(&mut v, text_entry("key", key));
            push_entry(&mut v, unum_entry("code", *code as u64));
            "KeyUp"
        },
        MacroEvent::KeyPress { key, code, hold_time_ms } => {
            push_entry(&mut v, text_entry("key", key));
            push_entry(&mut v, unum_entry("code", *code as u64));
            push_entry(&mut v, unum_entry("hold_time_ms", *hold_time_ms as u64));
            "KeyPress"
        },
    };
    assert(args_view(v@) =~= event_fields(ev@));
    (name, v)
}

fn color_entries(cmd: &MacroCommand) -> (v: Vec<ArgEntry>)
    requires
        cmd is IfColorFound,
    ensures
        args_view(v@) == command_fields(cmd@),
{
    let mut v: Vec<ArgEntry> = Vec::new();
    if let MacroCommand::IfColorFound {
        region,
        r,
        g,
        b,
        tolerance,
        min_width,
        min_height,
        move_cursor_if_found,
        store_x,
        store_y,
        store_w,
        store_h,
    } = cmd {
        let mut hex: Vec<char> = Vec::new();
        hex.push('#');
        push_hex_byte(&mut hex, *r);
        push_hex_byte(&mut hex, *g);
        push_hex_byte(&mut hex, *b);
        assert(args_view(v@) =~= Seq::<ArgV>::empty());
        push_entry(&mut v, entry("color", hex, false));
        push_entry(&mut v, unum_entry("tol", *tolerance as u64));
        push_entry(&mut v, unum_entry("min_width", *min_width as u64));
        push_entry(&mut v, unum_entry("min_height", *min_height as u64));
        if *move_cursor_if_found {
            push_entry(&mut v, entry("move", chars_of("true"), false));
        }
        push_region(&mut v, region);
        push_store(&mut v, "store_x", store_x);
        push_store(&mut v, "store_y", store_y);
        push_store(&mut v, "store_w", store_w);
        push_store(&mut v, "store_h", store_h);
        assert(args_view(v@) =~= command_fields(cmd@));
    }
    v
}

fn image_entries(cmd: &MacroCommand) -> (v: Vec<ArgEntry>)
    requires
        cmd is IfImageFound,
    ensures
        args_view(v@) == command_fields(cmd@),
{
    let mut v: Vec<ArgEntry> = Vec::new();
    if let MacroCommand::IfImageFound {
        target_image_path,
        similarity_threshold,
        move_cursor_if_found,
        trigger_if_not_found,
        region,
        store_x,
        store_y,
    } = cmd {
        assert(args_view(v@) =~= Seq::<ArgV>::empty());
        push_entry(&mut v, text_entry("target", target_image_path));
        push_entry(&mut v, entry("tol", chars_of(similarity_threshold.as_str()), false));
        push_entry(&mut v, bool_entry("move", *move_cursor_if_found));
        push_entry(&mut v, bool_entry("not_found", *trigger_if_not_found));
        push_region(&mut v, region);
        push_store(&mut v, "store_x", store_x);
        push_store(&mut v, "store_y", store_y);
        assert(args_view(v@) =~= command_fields(cmd@));
    }
    v
}

fn other_entries(cmd: &MacroCommand) -> (r: (&'static str, Vec<ArgEntry>))
    requires
        !(cmd is Action || cmd is IfImageFound || cmd is IfColorFound),
    ensures
        r.0@ == command_name(cmd@),
        args_view(r.1@) == command_fields(cmd@),
{
    let mut v: Vec<ArgEntry> = Vec::new();
    assert(args_view(v@) =~= Seq::<ArgV>::empty());
    let name = match cmd {
        MacroCommand::IfPixelColor { x, y, r, g, b, tolerance } => {
            push_entry(&mut v, entry("x", coord_chars(x), false));
            push_entry(&mut v, entry("y", coord_chars(y), false));
            push_entry(&mut v, unum_entry("r", *r as u64));
            push_entry(&mut v, unum_entry("g", *g as u64));
            push_entry(&mut v, unum_entry("b", *b as u64));
            push_entry(&mut v, unum_entry("tol", *tolerance as u64));
            "IfPixelColor"
        },
        MacroCommand::Else => "Else",
        MacroCommand::EndIf => "EndIf",
        MacroCommand::Loop { count } => {
            push_entry(&mut v, operand_entry("count", count));
            "Loop"
        },
        MacroCommand::EndLoop => "EndLoop",
        MacroCommand::PlayMacro(p) => {
            push_entry(&mut v, text_entry("path", p));
            "PlayMacro"
        },
        MacroCommand::Label(n) => {
            push_entry(&mut v, text_entry("name", n));
            "Label"
        },
        MacroCommand::Goto(t) => {
            push_entry(&mut v, text_entry("target", t));
            "Goto"
        },
        MacroCommand::TypeText(t) => {
            push_entry(&mut v, text_entry("text", t));
            "TypeText"
        },
        MacroCommand::OpenFile { path, args, run_as_admin } => {
            push_entry(&mut v, text_entry("path", path));
            push_entry(&mut v, text_entry("args", args));
            push_entry(&mut v, bool_entry("admin", *run_as_admin));
            "OpenFile"
        },
        MacroCommand::SetVariable { target, value } => {
            push_entry(&mut v, text_entry("target", target));
            push_entry(&mut v, operand_entry("value", value));
            "SetVariable"
        },
        MacroCommand::Calculate { target, expression } => {
            push_entry(&mut v, text_entry("target", target));
            push_entry(&mut v, text_entry("expr", expression));
            "Calculate"
        },
        MacroCommand::IfCompare { left, op, right } => {
            push_entry(&mut v, operand_entry("left", left));
            push_entry(&mut v, entry("op", chars_of(op.symbol()), true));
            push_entry(&mut v, operand_entry("right", right));
            "IfCompare"
        },
        MacroCommand::Delay { duration_ms } => {
            push_entry(&mut v, operand_entry("duration_ms", duration_ms));
            "Delay"
        },
        MacroCommand::SetClipboard { text } => {
            push_entry(&mut v, operand_entry("text", text));
            "SetClipboard"
        },
        MacroCommand::GetClipboard { target } => {
            push_entry(&mut v, text_entry("target", target));
            "GetClipboard"
        },
        MacroCommand::Comment(t) => {
            push_entry(&mut v, text_entry("text", t));
            "Comment"
        },
        _ => "",
    };
    assert(args_view(v@) =~= command_fields(cmd@));
    (name, v)
}

/// Appends the script line of `cmd`.
pub fn serialize_command(out: &mut Vec<char>, cmd: &MacroCommand)
    ensures
        final(out)@ == old(out)@ + spec_command_line(cmd@),
{
    match cmd {
        MacroCommand::Action(ev) => {
            let (name, fs) = event_entries(ev);
            write_line(out, name, &fs);
        },
        MacroCommand::IfImageFound { .. } => {
            let fs = image_entries(cmd);
            write_line(out, "IfImageFound", &fs);
        },
        MacroCommand::IfColorFound { .. } => {
            let fs = color_entries(cmd);
            write_line(out, "IfColorFound", &fs);
        },
        _ => {
            let (name, fs) = other_entries(cmd);
            write_line(out, name, &fs);
        },
    }
}

/// Writes a macro as `.wmr` script text.
pub fn serialize(m: &Macro) -> (s: String)
    ensures
        s@ == spec_serialize(m@),
{
    let mut out: Vec<char> = Vec::new();
    push_str(&mut out, "# wmacro script");
    out.push('\n');
    push_str(&mut out, "version ");
    let ver = fmt_u64(CURRENT_FORMAT_VERSION as u64);
    push_all(&mut out, &ver);
    out.push('\n');
    push_str(&mut out, "name \"");
    let n = chars_of(m.name.as_str());
    push_all(&mut out, &n);
    push_str(&mut out, "\"");
    out.push('\n');
    out.push('\n');
    assert(out@ =~= spec_header(m@.name));
    let mut i: usize = 0;
    while i < m.commands.len()
        invariant
            i <= m.commands.len(),
            out@ == spec_header(m@.name) + spec_command_lines(m@.commands.take(i as int)),
        decreases m.commands.len() - i,
    {
        serialize_command(&mut out, &m.commands[i]);
        proof {
            let cs = m@.commands;
            assert(cs.take(i + 1).drop_last() == cs.take(i as int));
            assert(cs.take(i + 1).last() == m.commands@[i as int]@);
        }
        i = i + 1;
        assert(out@ =~= spec_header(m@.name) + spec_command_lines(m@.commands.take(i as int)));
    }
    assert(m@.commands.take(i as int) == m@.commands);
    string_of(&out)
}

} // verus!
