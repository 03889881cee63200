//! The fixed words of the script format: command names, field keys and bare values.
use vstd::prelude::*;
use crate::text::is_ws;
use crate::script_read::{find_char, key_end, token_end, lemma_find_char, lemma_key_end, lemma_token_end};
use crate::roundtrip::{no_ws, no_newline, key_ok};

verus! {

/// Lengths and distinguishing characters of the command names.
pub proof fn lemma_name_literals()
    ensures
        "Delay"@.len() == 5 && "Delay"@[0] == 'D' && "Delay"@[2] == 'l',
        "MouseMove"@.len() == 9 && "MouseMove"@[0] == 'M' && "MouseMove"@[2] == 'u' && "MouseMove"@[5] == 'M',
        "Click"@.len() == 5 && "Click"@[0] == 'C' && "Click"@[2] == 'i',
        "MouseDown"@.len() == 9 && "MouseDown"@[0] == 'M' && "MouseDown"@[2] == 'u' && "MouseDown"@[5] == 'D',
        "MouseUp"@.len() == 7 && "MouseUp"@[0] == 'M' && "MouseUp"@[2] == 'u' && "MouseUp"@[5] == 'U',
        "Scroll"@.len() == 6 && "Scroll"@[0] == 'S' && "Scroll"@[2] == 'r' && "Scroll"@[5] == 'l',
        "KeyDown"@.len() == 7 && "KeyDown"@[0] == 'K' && "KeyDown"@[2] == 'y' && "KeyDown"@[5] == 'w',
        "KeyUp"@.len() == 5 && "KeyUp"@[0] == 'K' && "KeyUp"@[2] == 'y',
        "KeyPress"@.len() == 8 && "KeyPress"@[0] == 'K' && "KeyPress"@[2] == 'y' && "KeyPress"@[5] == 'e',
        "IfPixelColor"@.len() == 12 && "IfPixelColor"@[0] == 'I' && "IfPixelColor"@[2] == 'P' && "IfPixelColor"@[5] == 'e',
        "IfImageFound"@.len() == 12 && "IfImageFound"@[0] == 'I' && "IfImageFound"@[2] == 'I' && "IfImageFound"@[5] == 'g',
        "IfColorFound"@.len() == 12 && "IfColorFound"@[0] == 'I' && "IfColorFound"@[2] == 'C' && "IfColorFound"@[5] == 'o',
        "EndIf"@.len() == 5 && "EndIf"@[0] == 'E' && "EndIf"@[2] == 'd',
        "Loop"@.len() == 4 && "Loop"@[0] == 'L' && "Loop"@[2] == 'o',
        "Else"@.len() == 4 && "Else"@[0] == 'E' && "Else"@[2] == 's',
        "EndLoop"@.len() == 7 && "EndLoop"@[0] == 'E' && "EndLoop"@[2] == 'd' && "EndLoop"@[5] == 'o',
        "PlayMacro"@.len() == 9 && "PlayMacro"@[0] == 'P' && "PlayMacro"@[2] == 'a' && "PlayMacro"@[5] == 'a',
        "Label"@.len() == 5 && "Label"@[0] == 'L' && "Label"@[2] == 'b',
        "Goto"@.len() == 4 && "Goto"@[0] == 'G' && "Goto"@[2] == 't',
        "TypeText"@.len() == 8 && "TypeText"@[0] == 'T' && "TypeText"@[2] == 'p' && "TypeText"@[5] == 'e',
        "OpenFile"@.len() == 8 && "OpenFile"@[0] == 'O' && "OpenFile"@[2] == 'e' && "OpenFile"@[5] == 'i',
        "SetVariable"@.len() == 11 && "SetVariable"@[0] == 'S' && "SetVariable"@[2] == 't' && "SetVariable"@[5] == 'r',
        "Calculate"@.len() == 9 && "Calculate"@[0] == 'C' && "Calculate"@[2] == 'l' && "Calculate"@[5] == 'l',
        "IfCompare"@.len() == 9 && "IfCompare"@[0] == 'I' && "IfCompare"@[2] == 'C' && "IfCompare"@[5] == 'p',
        "SetClipboard"@.len() == 12 && "SetClipboard"@[0] == 'S' && "SetClipboard"@[2] == 't' && "SetClipboard"@[5] == 'i',
        "GetClipboard"@.len() == 12 && "GetClipboard"@[0] == 'G' && "GetClipboard"@[2] == 't' && "GetClipboard"@[5] == 'i',
        "Comment"@.len() == 7 && "Comment"@[0] == 'C' && "Comment"@[2] == 'm' && "Comment"@[5] == 'n',
        "version"@.len() == 7 && "version"@[0] == 'v' && "version"@[2] == 'r' && "version"@[5] == 'o',
        "name"@.len() == 4 && "name"@[0] == 'n' && "name"@[2] == 'm',
{
    reveal_strlit("Delay");
    reveal_strlit("MouseMove");
    reveal_strlit("Click");
    reveal_strlit("MouseDown");
    reveal_strlit("MouseUp");
    reveal_strlit("Scroll");
    reveal_strlit("KeyDown");
    reveal_strlit("KeyUp");
    reveal_strlit("KeyPress");
    reveal_strlit("IfPixelColor");
    reveal_strlit("IfImageFound");
    reveal_strlit("IfColorFound");
    reveal_strlit("EndIf");
    reveal_strlit("Loop");
    reveal_strlit("Else");
    reveal_strlit("EndLoop");
    reveal_strlit("PlayMacro");
    reveal_strlit("Label");
    reveal_strlit("Goto");
    reveal_strlit("TypeText");
    reveal_strlit("OpenFile");
    reveal_strlit("SetVariable");
    reveal_strlit("Calculate");
    reveal_strlit("IfCompare");
    reveal_strlit("SetClipboard");
    reveal_strlit("GetClipboard");
    reveal_strlit("Comment");
    reveal_strlit("version");
    reveal_strlit("name");
}

/// Lengths and distinguishing characters of the field keys.
pub proof fn lemma_key_literals()
    ensures
        "x"@.len() == 1 && "x"@[0] == 'x',
        "y"@.len() == 1 && "y"@[0] == 'y',
        "r"@.len() == 1 && "r"@[0] == 'r',
        "g"@.len() == 1 && "g"@[0] == 'g',
        "b"@.len() == 1 && "b"@[0] == 'b',
        "us"@.len() == 2 && "us"@[0] == 'u' && "us"@[1] == 's',
        "dx"@.len() == 2 && "dx"@[0] == 'd' && "dx"@[1] == 'x',
        "dy"@.len() == 2 && "dy"@[0] == 'd' && "dy"@[1] == 'y',
        "op"@.len() == 2 && "op"@[0] == 'o' && "op"@[1] == 'p',
        "ms"@.len() == 2 && "ms"@[0] == 'm' && "ms"@[1] == 's',
        "pos"@.len() == 3 && "pos"@[0] == 'p' && "pos"@[1] == 'o' && "pos"@[2] == 's',
        "btn"@.len() == 3 && "btn"@[0] == 'b' && "btn"@[1] == 't' && "btn"@[2] == 'n',
        "key"@.len() == 3 && "key"@[0] == 'k' && "key"@[1] == 'e' && "key"@[2] == 'y',
        "tol"@.len() == 3 && "tol"@[0] == 't' && "tol"@[1] == 'o' && "tol"@[2] == 'l',
        "top"@.len() == 3 && "top"@[0] == 't' && "top"@[1] == 'o' && "top"@[2] == 'p',
        "hold"@.len() == 4 && "hold"@[0] == 'h' && "hold"@[1] == 'o' && "hold"@[2] == 'l',
        "code"@.len() == 4 && "code"@[0] == 'c' && "code"@[1] == 'o' && "code"@[2] == 'd',
        "move"@.len() == 4 && "move"@[0] == 'm' && "move"@[1] == 'o' && "move"@[2] == 'v',
        "left"@.len() == 4 && "left"@[0] == 'l' && "left"@[1] == 'e' && "left"@[2] == 'f',
        "path"@.len() == 4 && "path"@[0] == 'p' && "path"@[1] == 'a' && "path"@[2] == 't',
        "name"@.len() == 4 && "name"@[0] == 'n' && "name"@[1] == 'a' && "name"@[2] == 'm',
        "text"@.len() == 4 && "text"@[0] == 't' && "text"@[1] == 'e' && "text"@[2] == 'x',
        "args"@.len() == 4 && "args"@[0] == 'a' && "args"@[1] == 'r' && "args"@[2] == 'g',
        "expr"@.len() == 4 && "expr"@[0] == 'e' && "expr"@[1] == 'x' && "expr"@[2] == 'p',
        "width"@.len() == 5 && "width"@[0] == 'w' && "width"@[1] == 'i' && "width"@[2] == 'd',
        "color"@.len() == 5 && "color"@[0] == 'c' && "color"@[1] == 'o' && "color"@[2] == 'l',
        "count"@.len() == 5 && "count"@[0] == 'c' && "count"@[1] == 'o' && "count"@[2] == 'u',
        "admin"@.len() == 5 && "admin"@[0] == 'a' && "admin"@[1] == 'd' && "admin"@[2] == 'm',
        "value"@.len() == 5 && "value"@[0] == 'v' && "value"@[1] == 'a' && "value"@[2] == 'l',
        "right"@.len() == 5 && "right"@[0] == 'r' && "right"@[1] == 'i' && "right"@[2] == 'g',
        "jitter"@.len() == 6 && "jitter"@[0] == 'j' && "jitter"@[1] == 'i' && "jitter"@[2] == 't',
        "target"@.len() == 6 && "target"@[0] == 't' && "target"@[1] == 'a' && "target"@[2] == 'r',
        "height"@.len() == 6 && "height"@[0] == 'h' && "height"@[1] == 'e' && "height"@[2] == 'i',
        "store_x"@.len() == 7 && "store_x"@[0] == 's' && "store_x"@[1] == 't' && "store_x"@[2] == 'o' && "store_x"@[6] == 'x',
        "store_y"@.len() == 7 && "store_y"@[0] == 's' && "store_y"@[1] == 't' && "store_y"@[2] == 'o' && "store_y"@[6] == 'y',
        "store_w"@.len() == 7 && "store_w"@[0] == 's' && "store_w"@[1] == 't' && "store_w"@[2] == 'o' && "store_w"@[6] == 'w',
        "store_h"@.len() == 7 && "store_h"@[0] == 's' && "store_h"@[1] == 't' && "store_h"@[2] == 'o' && "store_h"@[6] == 'h',
        "not_found"@.len() == 9 && "not_found"@[0] == 'n' && "not_found"@[1] == 'o' && "not_found"@[2] == 't' && "not_found"@[6] == 'u',
        "min_width"@.len() == 9 && "min_width"@[0] == 'm' && "min_width"@[1] == 'i' && "min_width"@[2] == 'n' && "min_width"@[6] == 'd',
        "min_height"@.len() == 10 && "min_height"@[0] == 'm' && "min_height"@[1] == 'i' && "min_height"@[2] == 'n' && "min_height"@[6] == 'i',
        "duration_ms"@.len() == 11 && "duration_ms"@[0] == 'd' && "duration_ms"@[1] == 'u' && "duration_ms"@[2] == 'r' && "duration_ms"@[6] == 'o',
        "hold_time_ms"@.len() == 12 && "hold_time_ms"@[0] == 'h' && "hold_time_ms"@[1] == 'o' && "hold_time_ms"@[2] == 'l' && "hold_time_ms"@[6] == 'i',
{
    reveal_strlit("x");
    reveal_strlit("y");
    reveal_strlit("r");
    reveal_strlit("g");
    reveal_strlit("b");
    reveal_strlit("us");
    reveal_strlit("dx");
    reveal_strlit("dy");
    reveal_strlit("op");
    reveal_strlit("ms");
    reveal_strlit("pos");
    reveal_strlit("btn");
    reveal_strlit("key");
    reveal_strlit("tol");
    reveal_strlit("top");
    reveal_strlit("hold");
    reveal_strlit("code");
    reveal_strlit("move");
    reveal_strlit("left");
    reveal_strlit("path");
    reveal_strlit("name");
    reveal_strlit("text");
    reveal_strlit("args");
    reveal_strlit("expr");
    reveal_strlit("width");
    reveal_strlit("color");
    reveal_strlit("count");
    reveal_strlit("admin");
    reveal_strlit("value");
    reveal_strlit("right");
    reveal_strlit("jitter");
    reveal_strlit("target");
    reveal_strlit("height");
    reveal_strlit("store_x");
    reveal_strlit("store_y");
    reveal_strlit("store_w");
    reveal_strlit("store_h");
    reveal_strlit("not_found");
    reveal_strlit("min_width");
    reveal_strlit("min_height");
    reveal_strlit("duration_ms");
    reveal_strlit("hold_time_ms");
}

/// Lengths and first characters of the bare words and comparison symbols.
pub proof fn lemma_value_literals()
    ensures
        "true"@.len() == 4 && "true"@[0] == 't' && "true"@[1] == 'r',
        "false"@.len() == 5 && "false"@[0] == 'f' && "false"@[1] == 'a',
        "current"@.len() == 7 && "current"@[0] == 'c' && "current"@[1] == 'u',
        "Left"@.len() == 4 && "Left"@[0] == 'L' && "Left"@[1] == 'e',
        "Right"@.len() == 5 && "Right"@[0] == 'R' && "Right"@[1] == 'i',
        "Middle"@.len() == 6 && "Middle"@[0] == 'M' && "Middle"@[1] == 'i',
        "=="@.len() == 2 && "=="@[0] == '=' && "=="@[1] == '=',
        "!="@.len() == 2 && "!="@[0] == '!' && "!="@[1] == '=',
        "<"@.len() == 1 && "<"@[0] == '<',
        "<="@.len() == 2 && "<="@[0] == '<' && "<="@[1] == '=',
        ">"@.len() == 1 && ">"@[0] == '>',
        ">="@.len() == 2 && ">="@[0] == '>' && ">="@[1] == '=',
        "contains"@.len() == 8 && "contains"@[0] == 'c' && "contains"@[1] == 'o',
{
    reveal_strlit("true");
    reveal_strlit("false");
    reveal_strlit("current");
    reveal_strlit("Left");
    reveal_strlit("Right");
    reveal_strlit("Middle");
    reveal_strlit("==");
    reveal_strlit("!=");
    reveal_strlit("<");
    reveal_strlit("<=");
    reveal_strlit(">");
    reveal_strlit(">=");
    reveal_strlit("contains");
}

proof fn lemma_key_by_end(k: Seq<char>)
    requires
        k.len() > 0,
        key_end(k, 0) == k.len(),
    ensures
        key_ok(k),
{
    lemma_key_end(k, 0);
}

proof fn lemma_no_ws_by_end(s: Seq<char>)
    requires
        token_end(s, 0) == s.len(),
    ensures
        no_ws(s),
{
    lemma_token_end(s, 0);
}

proof fn lemma_no_newline_by_find(s: Seq<char>)
    requires
        find_char(s, '\n', 0) == s.len(),
    ensures
        no_newline(s),
{
    lemma_find_char(s, '\n', 0);
}

/// Every field key is read whole.
pub proof fn lemma_keys_ok()
    ensures
        key_ok("x"@),
        key_ok("y"@),
        key_ok("r"@),
        key_ok("g"@),
        key_ok("b"@),
        key_ok("us"@),
        key_ok("dx"@),
        key_ok("dy"@),
        key_ok("op"@),
        key_ok("ms"@),
        key_ok("pos"@),
        key_ok("btn"@),
        key_ok("key"@),
        key_ok("tol"@),
        key_ok("top"@),
        key_ok("hold"@),
        key_ok("code"@),
        key_ok("move"@),
        key_ok("left"@),
        key_ok("path"@),
        key_ok("name"@),
        key_ok("text"@),
        key_ok("args"@),
        key_ok("expr"@),
        key_ok("width"@),
        key_ok("color"@),
        key_ok("count"@),
        key_ok("admin"@),
        key_ok("value"@),
        key_ok("right"@),
        key_ok("jitter"@),
        key_ok("target"@),
        key_ok("height"@),
        key_ok("store_x"@),
        key_ok("store_y"@),
        key_ok("store_w"@),
        key_ok("store_h"@),
        key_ok("not_found"@),
        key_ok("min_width"@),
        key_ok("min_height"@),
        key_ok("duration_ms"@),
        key_ok("hold_time_ms"@),
{
    reveal_with_fuel(key_end, 13);
    reveal_strlit("x");
    lemma_key_by_end("x"@);
    reveal_strlit("y");
    lemma_key_by_end("y"@);
    reveal_strlit("r");
    lemma_key_by_end("r"@);
    reveal_strlit("g");
    lemma_key_by_end("g"@);
    reveal_strlit("b");
    lemma_key_by_end("b"@);
    reveal_strlit("us");
    lemma_key_by_end("us"@);
    reveal_strlit("dx");
    lemma_key_by_end("dx"@);
    reveal_strlit("dy");
    lemma_key_by_end("dy"@);
    reveal_strlit("op");
    lemma_key_by_end("op"@);
    reveal_strlit("ms");
    lemma_key_by_end("ms"@);
    reveal_strlit("pos");
    lemma_key_by_end("pos"@);
    reveal_strlit("btn");
    lemma_key_by_end("btn"@);
    reveal_strlit("key");
    lemma_key_by_end("key"@);
    reveal_strlit("tol");
    lemma_key_by_end("tol"@);
    reveal_strlit("top");
    lemma_key_by_end("top"@);
    reveal_strlit("hold");
    lemma_key_by_end("hold"@);
    reveal_strlit("code");
    lemma_key_by_end("code"@);
    reveal_strlit("move");
    lemma_key_by_end("move"@);
    reveal_strlit("left");
    lemma_key_by_end("left"@);
    reveal_strlit("path");
    lemma_key_by_end("path"@);
    reveal_strlit("name");
    lemma_key_by_end("name"@);
    reveal_strlit("text");
    lemma_key_by_end("text"@);
    reveal_strlit("args");
    lemma_key_by_end("args"@);
    reveal_strlit("expr");
    lemma_key_by_end("expr"@);
    reveal_strlit("width");
    lemma_key_by_end("width"@);
    reveal_strlit("color");
    lemma_key_by_end("color"@);
    reveal_strlit("count");
    lemma_key_by_end("count"@);
    reveal_strlit("admin");
    lemma_key_by_end("admin"@);
    reveal_strlit("value");
    lemma_key_by_end("value"@);
    reveal_strlit("right");
    lemma_key_by_end("right"@);
    reveal_strlit("jitter");
    lemma_key_by_end("jitter"@);
    reveal_strlit("target");
    lemma_key_by_end("target"@);
    reveal_strlit("height");
    lemma_key_by_end("height"@);
    reveal_strlit("store_x");
    lemma_key_by_end("store_x"@);
    reveal_strlit("store_y");
    lemma_key_by_end("store_y"@);
    reveal_strlit("store_w");
    lemma_key_by_end("store_w"@);
    reveal_strlit("store_h");
    lemma_key_by_end("store_h"@);
    reveal_strlit("not_found");
    lemma_key_by_end("not_found"@);
    reveal_strlit("min_width");
    lemma_key_by_end("min_width"@);
    reveal_strlit("min_height");
    lemma_key_by_end("min_height"@);
    reveal_strlit("duration_ms");
    lemma_key_by_end("duration_ms"@);
    reveal_strlit("hold_time_ms");
    lemma_key_by_end("hold_time_ms"@);
}

/// Command names and bare words hold no white space; symbols hold no line break.
pub proof fn lemma_words_plain()
    ensures
        no_ws("Delay"@),
        no_ws("MouseMove"@),
        no_ws("Click"@),
        no_ws("MouseDown"@),
        no_ws("MouseUp"@),
        no_ws("Scroll"@),
        no_ws("KeyDown"@),
        no_ws("KeyUp"@),
        no_ws("KeyPress"@),
        no_ws("IfPixelColor"@),
        no_ws("IfImageFound"@),
        no_ws("IfColorFound"@),
        no_ws("EndIf"@),
        no_ws("Loop"@),
        no_ws("Else"@),
        no_ws("EndLoop"@),
        no_ws("PlayMacro"@),
        no_ws("Label"@),
        no_ws("Goto"@),
        no_ws("TypeText"@),
        no_ws("OpenFile"@),
        no_ws("SetVariable"@),
        no_ws("Calculate"@),
        no_ws("IfCompare"@),
        no_ws("SetClipboard"@),
        no_ws("GetClipboard"@),
        no_ws("Comment"@),
        no_ws("version"@),
        no_ws("name"@),
        no_ws("true"@),
        no_ws("false"@),
        no_ws("current"@),
        no_ws("Left"@),
        no_ws("Right"@),
        no_ws("Middle"@),
        no_newline("=="@),
        no_newline("!="@),
        no_newline("<"@),
        no_newline("<="@),
        no_newline(">"@),
        no_newline(">="@),
        no_newline("contains"@),
{
    reveal_with_fuel(token_end, 13);
    reveal_with_fuel(find_char, 9);
    reveal_strlit("Delay");
    lemma_no_ws_by_end("Delay"@);
    reveal_strlit("MouseMove");
    lemma_no_ws_by_end("MouseMove"@);
    reveal_strlit("Click");
    lemma_no_ws_by_end("Click"@);
    reveal_strlit("MouseDown");
    lemma_no_ws_by_end("MouseDown"@);
    reveal_strlit("MouseUp");
    lemma_no_ws_by_end("MouseUp"@);
    reveal_strlit("Scroll");
    lemma_no_ws_by_end("Scroll"@);
    reveal_strlit("KeyDown");
    lemma_no_ws_by_end("KeyDown"@);
    reveal_strlit("KeyUp");
    lemma_no_ws_by_end("KeyUp"@);
    reveal_strlit("KeyPress");
    lemma_no_ws_by_end("KeyPress"@);
    reveal_strlit("IfPixelColor");
    lemma_no_ws_by_end("IfPixelColor"@);
    reveal_strlit("IfImageFound");
    lemma_no_ws_by_end("IfImageFound"@);
    reveal_strlit("IfColorFound");
    lemma_no_ws_by_end("IfColorFound"@);
    reveal_strlit("EndIf");
    lemma_no_ws_by_end("EndIf"@);
    reveal_strlit("Loop");
    lemma_no_ws_by_end("Loop"@);
    reveal_strlit("Else");
    lemma_no_ws_by_end("Else"@);
    reveal_strlit("EndLoop");
    lemma_no_ws_by_end("EndLoop"@);
    reveal_strlit("PlayMacro");
    lemma_no_ws_by_end("PlayMacro"@);
    reveal_strlit("Label");
    lemma_no_ws_by_end("Label"@);
    reveal_strlit("Goto");
    lemma_no_ws_by_end("Goto"@);
    reveal_strlit("TypeText");
    lemma_no_ws_by_end("TypeText"@);
    reveal_strlit("OpenFile");
    lemma_no_ws_by_end("OpenFile"@);
    reveal_strlit("SetVariable");
    lemma_no_ws_by_end("SetVariable"@);
    reveal_strlit("Calculate");
    lemma_no_ws_by_end("Calculate"@);
    reveal_strlit("IfCompare");
    lemma_no_ws_by_end("IfCompare"@);
    reveal_strlit("SetClipboard");
    lemma_no_ws_by_end("SetClipboard"@);
    reveal_strlit("GetClipboard");
    lemma_no_ws_by_end("GetClipboard"@);
    reveal_strlit("Comment");
    lemma_no_ws_by_end("Comment"@);
    reveal_strlit("version");
    lemma_no_ws_by_end("version"@);
    reveal_strlit("name");
    lemma_no_ws_by_end("name"@);
    reveal_strlit("true");
    lemma_no_ws_by_end("true"@);
    reveal_strlit("false");
    lemma_no_ws_by_end("false"@);
    reveal_strlit("current");
    lemma_no_ws_by_end("current"@);
    reveal_strlit("Left");
    lemma_no_ws_by_end("Left"@);
    reveal_strlit("Right");
    lemma_no_ws_by_end("Right"@);
    reveal_strlit("Middle");
    lemma_no_ws_by_end("Middle"@);
    reveal_strlit("==");
    lemma_no_newline_by_find("=="@);
    reveal_strlit("!=");
    lemma_no_newline_by_find("!="@);
    reveal_strlit("<");
    lemma_no_newline_by_find("<"@);
    reveal_strlit("<=");
    lemma_no_newline_by_find("<="@);
    reveal_strlit(">");
    lemma_no_newline_by_find(">"@);
    reveal_strlit(">=");
    lemma_no_newline_by_find(">="@);
    reveal_strlit("contains");
    lemma_no_newline_by_find("contains"@);
}

} // verus!
