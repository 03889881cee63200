//! Reading back what the writer wrote gives the macro back.
use vstd::prelude::*;
use crate::text::{is_ws, skip_ws, skip_ws_back, trim, lemma_skip_ws_bounds};
use crate::script_read::{
    ArgV, ParsedLineV, find_char, key_end, token_end, quoted_val, quoted_end, parse_args_from,
    parse_line, arg_get, arg_quoted,
};
use crate::writer::{esc, esc_char, quoted, render_field, render_fields, render_line};

verus! {

// ---------------------------------------------------------------------------
// well-formed fields
// ---------------------------------------------------------------------------
pub open spec fn no_ws(s: Seq<char>) -> bool {
    forall|i: int| 0 <= i < s.len() ==> !is_ws(#[trigger] s[i])
}

pub open spec fn no_newline(s: Seq<char>) -> bool {
    forall|i: int| 0 <= i < s.len() ==> #[trigger] s[i] != '\n'
}

/// A key that the reader finds whole: not empty, no `=` and no white space.
pub open spec fn key_ok(k: Seq<char>) -> bool {
    &&& k.len() > 0
    &&& forall|i: int| 0 <= i < k.len() ==> #[trigger] k[i] != '=' && !is_ws(k[i])
}

/// A bare value that the reader takes as written: no white space, and no
/// leading quote that would make it read as quoted text.
pub open spec fn bare_ok(v: Seq<char>) -> bool {
    &&& no_ws(v)
    &&& v.len() > 0 ==> v[0] != '"' && v[0] != '\''
}

/// A field whose rendering the reader takes back unchanged.
pub open spec fn field_ok(f: ArgV) -> bool {
    &&& key_ok(f.key)
    &&& !f.quoted ==> bare_ok(f.val)
    &&& f.quoted ==> no_newline(f.val)
}

pub open spec fn fields_ok(fs: Seq<ArgV>) -> bool {
    forall|i: int| 0 <= i < fs.len() ==> field_ok(#[trigger] fs[i])
}

// ---------------------------------------------------------------------------
// the tokenizer on rendered fields
// ---------------------------------------------------------------------------
proof fn lemma_key_end_run(s: Seq<char>, i: int, n: int)
    requires
        0 <= i,
        0 <= n,
        i + n <= s.len(),
        forall|k: int| i <= k < i + n ==> #[trigger] s[k] != '=' && !is_ws(s[k]),
    ensures
        key_end(s, i) == key_end(s, i + n),
    decreases n,
{
    if n > 0 {
        lemma_key_end_run(s, i + 1, n - 1);
    }
}

proof fn lemma_token_end_run(s: Seq<char>, i: int, n: int)
    requires
        0 <= i,
        0 <= n,
        i + n <= s.len(),
        forall|k: int| i <= k < i + n ==> !is_ws(#[trigger] s[k]),
    ensures
        token_end(s, i) == token_end(s, i + n),
    decreases n,
{
    if n > 0 {
        lemma_token_end_run(s, i + 1, n - 1);
    }
}

proof fn lemma_esc_skip(x: Seq<char>)
    requires
        x.len() > 0,
    ensures
        esc(x) == esc_char(x[0]) + esc(x.skip(1)),
{
}

/// Reading a quoted value that was written escaped gives the value back.
proof fn lemma_quoted_read(s: Seq<char>, p: int, x: Seq<char>)
    requires
        0 <= p,
        p + esc(x).len() + 1 <= s.len(),
        s.subrange(p, p + esc(x).len()) == esc(x),
        s[p + esc(x).len()] == '"',
        p + esc(x).len() + 1 == s.len() || s[p + esc(x).len() + 1] != '"',
    ensures
        quoted_val(s, '"', p) == x,
        quoted_end(s, '"', p) == p + esc(x).len() + 1,
    decreases x.len(),
{
    if x.len() == 0 {
        assert(esc(x).len() == 0);
    } else {
        let c = x[0];
        let rest = x.skip(1);
        lemma_esc_skip(x);
        let ec = esc_char(c);
        assert(s.subrange(p, p + ec.len()) == ec) by {
            assert forall|k: int| 0 <= k < ec.len() implies s[p + k] == ec[k] by {
                assert(s.subrange(p, p + esc(x).len())[k] == esc(x)[k]);
            }
        }
        assert(s.subrange(p + ec.len(), p + ec.len() + esc(rest).len()) == esc(rest)) by {
            assert forall|k: int| 0 <= k < esc(rest).len() implies s[p + ec.len() + k] == esc(
                rest,
            )[k] by {
                assert(s.subrange(p, p + esc(x).len())[ec.len() + k] == esc(x)[ec.len() + k]);
            }
        }
        if c == '"' {
            assert(s[p] == '"');
            assert(s[p + 1] == '"');
            lemma_quoted_read(s, p + 2, rest);
            assert(quoted_val(s, '"', p) == seq!['"'] + quoted_val(s, '"', p + 2));
            assert(x =~= seq![c] + rest);
        } else {
            assert(s.subrange(p, p + ec.len())[0] == ec[0]);
            assert(s[p] == c);
            lemma_quoted_read(s, p + 1, rest);
            assert(x =~= seq![c] + rest);
        }
    }
}

/// `parse_args_from` depends only on where the white space before the next token ends.
proof fn lemma_args_same_start(s: Seq<char>, p: int, q: int)
    requires
        0 <= p <= s.len(),
        0 <= q <= s.len(),
        skip_ws(s, p) == skip_ws(s, q),
    ensures
        parse_args_from(s, p) == parse_args_from(s, q),
{
}

/// One rendered field at position `i`, followed by white space or the end.
proof fn lemma_field_read(s: Seq<char>, i: int, f: ArgV)
    requires
        0 <= i,
        field_ok(f),
        i + render_field(f).len() <= s.len(),
        s.subrange(i, i + render_field(f).len()) == render_field(f),
        i + render_field(f).len() == s.len() || is_ws(s[i + render_field(f).len()]),
    ensures
        parse_args_from(s, i) == seq![f] + parse_args_from(s, i + render_field(f).len()),
{
    let r = render_field(f);
    let kl = f.key.len() as int;
    let e = i + r.len();
    assert forall|k: int| 0 <= k < r.len() implies s[i + k] == r[k] by {
        assert(s.subrange(i, e)[k] == r[k]);
    }
    assert(r[0] == f.key[0]);
    assert(s[i] == r[0]);
    lemma_skip_ws_bounds(s, i);
    assert(skip_ws(s, i) == i);
    assert forall|k: int| i <= k < i + kl implies #[trigger] s[k] != '=' && !is_ws(s[k]) by {
        assert(s[k] == r[k - i]);
        assert(r[k - i] == f.key[k - i]);
    }
    lemma_key_end_run(s, i, kl);
    assert(r[kl] == '=');
    assert(s[i + kl] == r[kl]);
    assert(key_end(s, i + kl) == i + kl);
    assert(s.subrange(i, i + kl) =~= f.key) by {
        assert forall|k: int| 0 <= k < kl implies s.subrange(i, i + kl)[k] == f.key[k] by {
            assert(s[i + k] == r[k]);
        }
    }
    let v = i + kl + 1;
    if f.quoted {
        let ev = esc(f.val);
        assert(r == f.key + seq!['='] + (seq!['"'] + ev + seq!['"']));
        assert(r[kl + 1] == '"');
        assert(s[v] == r[kl + 1]);
        assert(s.subrange(v + 1, v + 1 + ev.len()) == ev) by {
            assert forall|k: int| 0 <= k < ev.len() implies s[v + 1 + k] == ev[k] by {
                assert(s[v + 1 + k] == r[kl + 2 + k]);
            }
        }
        assert(s[v + 1 + ev.len()] == r[kl + 2 + ev.len()]);
        assert(e == v + 1 + ev.len() + 1);
        lemma_quoted_read(s, v + 1, f.val);
    } else {
        assert(r == f.key + seq!['='] + f.val);
        assert forall|k: int| v <= k < v + f.val.len() implies !is_ws(#[trigger] s[k]) by {
            assert(s[k] == r[k - i]);
            assert(r[k - i] == f.val[k - v]);
        }
        lemma_token_end_run(s, v, f.val.len() as int);
        assert(e == v + f.val.len());
        if f.val.len() > 0 {
            assert(r[kl + 1] == f.val[0]);
            assert(s[v] == r[kl + 1]);
        }
        assert(s.subrange(v, e) =~= f.val) by {
            assert forall|k: int| 0 <= k < f.val.len() implies s.subrange(v, e)[k] == f.val[k] by {
                assert(s[v + k] == r[kl + 1 + k]);
            }
        }
    }
}

pub proof fn lemma_render_fields_len(fs: Seq<ArgV>)
    requires
        fs.len() > 1,
    ensures
        render_fields(fs) == render_field(fs[0]) + seq![' '] + render_fields(fs.skip(1)),
{
}

/// Rendered fields read back as the same fields.
pub proof fn lemma_fields_read(s: Seq<char>, i: int, fs: Seq<ArgV>)
    requires
        0 <= i,
        fields_ok(fs),
        i + render_fields(fs).len() == s.len(),
        s.subrange(i, s.len() as int) == render_fields(fs),
    ensures
        parse_args_from(s, i) == fs,
    decreases fs.len(),
{
    if fs.len() == 0 {
        assert(i == s.len());
        lemma_skip_ws_bounds(s, i);
    } else {
        let f = fs[0];
        let r = render_field(f);
        assert(field_ok(f));
        if fs.len() == 1 {
            assert(render_fields(fs) == r);
            lemma_field_read(s, i, f);
            lemma_skip_ws_bounds(s, s.len() as int);
            assert(fs =~= seq![f]);
        } else {
            let rest = fs.skip(1);
            let rr = render_fields(rest);
            assert(render_fields(fs) == r + seq![' '] + rr);
            let m = i + r.len();
            assert(s[m] == ' ') by {
                assert(s.subrange(i, s.len() as int)[r.len() as int] == (r + seq![' '] + rr)[r.len() as int]);
            }
            assert(s.subrange(i, m) =~= r) by {
                assert forall|k: int| 0 <= k < r.len() implies s.subrange(i, m)[k] == r[k] by {
                    assert(s.subrange(i, s.len() as int)[k] == (r + seq![' '] + rr)[k]);
                }
            }
            lemma_field_read(s, i, f);
            assert(s.subrange(m + 1, s.len() as int) =~= rr) by {
                assert forall|k: int| 0 <= k < rr.len() implies s.subrange(m + 1, s.len() as int)[k] == rr[k] by {
                    assert(s.subrange(i, s.len() as int)[r.len() + 1 + k] == (r + seq![' '] + rr)[r.len() + 1 + k]);
                }
            }
            assert forall|j: int| 0 <= j < rest.len() implies field_ok(#[trigger] rest[j]) by {
                assert(rest[j] == fs[j + 1]);
            }
            lemma_fields_read(s, m + 1, rest);
            // the next key starts right after the single space
            assert(rest[0] == fs[1]);
            assert(field_ok(rest[0]));
            let r1 = render_field(rest[0]);
            if rest.len() == 1 {
                assert(rr == r1);
            } else {
                lemma_render_fields_len(rest);
            }
            assert(rr[0] == r1[0]);
            assert(s[m + 1] == rr[0]) by {
                assert(s.subrange(m + 1, s.len() as int)[0] == rr[0]);
            }
            assert(r1[0] == rest[0].key[0]);
            lemma_skip_ws_bounds(s, m);
            lemma_skip_ws_bounds(s, m + 1);
            assert(skip_ws(s, m) == skip_ws(s, m + 1));
            lemma_args_same_start(s, m, m + 1);
            assert(fs =~= seq![f] + rest);
        }
    }
}

// ---------------------------------------------------------------------------
// one written line
// ---------------------------------------------------------------------------
/// A command name as the reader finds it: not empty, no white space, and not
/// starting a comment.
pub open spec fn name_ok(n: Seq<char>) -> bool {
    &&& n.len() > 0
    &&& no_ws(n)
    &&& n[0] != '#'
}

/// A line as written, without its line break.
pub open spec fn line_body(name: Seq<char>, fs: Seq<ArgV>) -> Seq<char> {
    name + (if fs.len() == 0 {
        Seq::empty()
    } else {
        seq![' '] + render_fields(fs)
    })
}

proof fn lemma_esc_plain(x: Seq<char>)
    requires
        no_newline(x),
    ensures
        no_newline(esc(x)),
    decreases x.len(),
{
    if x.len() > 0 {
        let rest = x.skip(1);
        assert forall|i: int| 0 <= i < rest.len() implies #[trigger] rest[i] != '\n' by {
            assert(rest[i] == x[i + 1]);
        }
        lemma_esc_plain(rest);
        lemma_esc_skip(x);
        let e = esc(x);
        let ec = esc_char(x[0]);
        assert forall|i: int| 0 <= i < e.len() implies #[trigger] e[i] != '\n' by {
            if i < ec.len() {
                assert(e[i] == ec[i]);
            } else {
                assert(e[i] == esc(rest)[i - ec.len()]);
            }
        }
    }
}

proof fn lemma_render_field_shape(f: ArgV)
    requires
        field_ok(f),
    ensures
        render_field(f).len() > 0,
        !is_ws(render_field(f)[0]),
        !is_ws(render_field(f).last()),
        no_newline(render_field(f)),
{
    let r = render_field(f);
    let kl = f.key.len() as int;
    assert(r[0] == f.key[0]);
    if f.quoted {
        lemma_esc_plain(f.val);
        let q = quoted(f.val);
        assert(r == f.key + seq!['='] + q);
        assert(r.last() == '"');
        assert forall|i: int| 0 <= i < r.len() implies #[trigger] r[i] != '\n' by {
            if i < kl {
                assert(r[i] == f.key[i]);
            } else if i > kl + 1 && i < r.len() - 1 {
                assert(r[i] == esc(f.val)[i - kl - 2]);
            }
        }
    } else {
        assert(r == f.key + seq!['='] + f.val);
        if f.val.len() > 0 {
            assert(r.last() == f.val.last());
        } else {
            assert(r.last() == '=');
        }
        assert forall|i: int| 0 <= i < r.len() implies #[trigger] r[i] != '\n' by {
            if i < kl {
                assert(r[i] == f.key[i]);
            } else if i > kl {
                assert(r[i] == f.val[i - kl - 1]);
            }
        }
    }
}

proof fn lemma_render_fields_shape(fs: Seq<ArgV>)
    requires
        fields_ok(fs),
        fs.len() > 0,
    ensures
        render_fields(fs).len() > 0,
        !is_ws(render_fields(fs)[0]),
        !is_ws(render_fields(fs).last()),
        no_newline(render_fields(fs)),
    decreases fs.len(),
{
    assert(field_ok(fs[0]));
    lemma_render_field_shape(fs[0]);
    if fs.len() > 1 {
        let rest = fs.skip(1);
        assert forall|j: int| 0 <= j < rest.len() implies field_ok(#[trigger] rest[j]) by {
            assert(rest[j] == fs[j + 1]);
        }
        lemma_render_fields_shape(rest);
        let r0 = render_field(fs[0]);
        let rr = render_fields(rest);
        let r = render_fields(fs);
        assert(r == r0 + seq![' '] + rr);
        assert(r[0] == r0[0]);
        assert(r.last() == rr.last());
        assert forall|i: int| 0 <= i < r.len() implies #[trigger] r[i] != '\n' by {
            if i < r0.len() {
                assert(r[i] == r0[i]);
            } else if i > r0.len() {
                assert(r[i] == rr[i - r0.len() - 1]);
            }
        }
    }
}

proof fn lemma_trim_plain(s: Seq<char>)
    requires
        s.len() > 0,
        !is_ws(s[0]),
        !is_ws(s.last()),
    ensures
        trim(s) == s,
{
    assert(skip_ws(s, 0) == 0);
    assert(skip_ws_back(s, 0, s.len() as int) == s.len());
    assert(s.subrange(0, s.len() as int) =~= s);
}

proof fn lemma_find_char_run(s: Seq<char>, c: char, i: int, n: int)
    requires
        0 <= i,
        0 <= n,
        i + n <= s.len(),
        forall|k: int| i <= k < i + n ==> #[trigger] s[k] != c,
    ensures
        find_char(s, c, i) == find_char(s, c, i + n),
    decreases n,
{
    if n > 0 {
        lemma_find_char_run(s, c, i + 1, n - 1);
    }
}

/// A written line reads back as its name and its fields.
pub proof fn lemma_line_read(name: Seq<char>, fs: Seq<ArgV>)
    requires
        name_ok(name),
        fields_ok(fs),
    ensures
        no_newline(line_body(name, fs)),
        render_line(name, fs) == line_body(name, fs) + seq!['\n'],
        parse_line(line_body(name, fs)) == Some(
            ParsedLineV {
                raw: line_body(name, fs),
                cmd: name,
                rest: if fs.len() == 0 {
                    Seq::empty()
                } else {
                    render_fields(fs)
                },
                args: fs,
            },
        ),
{
    let b = line_body(name, fs);
    let n = name.len() as int;
    assert(b[0] == name[0]);
    assert forall|k: int| 0 <= k < 0 + n implies #[trigger] b[k] != ' ' by {
        assert(b[k] == name[k]);
    }
    lemma_find_char_run(b, ' ', 0, n);
    if fs.len() == 0 {
        assert(b =~= name);
        assert(b.last() == name.last());
        lemma_trim_plain(b);
        assert(find_char(b, ' ', n) == n);
        assert(b.subrange(0, n) =~= name);
        lemma_skip_ws_bounds(Seq::<char>::empty(), 0);
        assert(parse_args_from(Seq::<char>::empty(), 0) =~= Seq::<ArgV>::empty());
        assert(fs =~= Seq::<ArgV>::empty());
        assert(trim(b) == b);
        assert(find_char(b, ' ', 0) == b.len());
        assert(b.len() > 0 && b[0] != '#');
        assert(parse_line(b) == Some(
            ParsedLineV { raw: b, cmd: name, rest: Seq::<char>::empty(), args: fs },
        ));
    } else {
        let r = render_fields(fs);
        lemma_render_fields_shape(fs);
        assert(b == name + seq![' '] + r);
        assert(b.last() == r.last());
        lemma_trim_plain(b);
        assert(b[n] == ' ');
        assert(find_char(b, ' ', n) == n);
        assert(b.subrange(0, n) =~= name);
        assert(b.subrange(n + 1, b.len() as int) =~= r);
        assert(r.subrange(0, r.len() as int) =~= r);
        lemma_fields_read(r, 0, fs);
        assert(trim(b) == b);
        assert(find_char(b, ' ', 0) == n);
        assert(parse_args_from(b.subrange(n + 1, b.len() as int), 0) == fs);
        assert(b.len() > 0 && b[0] != '#');
        assert(parse_line(b) == Some(ParsedLineV { raw: b, cmd: name, rest: r, args: fs }));
        assert forall|i: int| 0 <= i < b.len() implies #[trigger] b[i] != '\n' by {
            if i < n {
                assert(b[i] == name[i]);
            } else if i > n {
                assert(b[i] == r[i - n - 1]);
            }
        }
    }
}

// ---------------------------------------------------------------------------
// looking up keys in written fields
// ---------------------------------------------------------------------------
pub broadcast proof fn lemma_arg_get_push(s: Seq<ArgV>, f: ArgV, k: Seq<char>)
    ensures
        #[trigger] arg_get(s.push(f), k) == (if f.key == k {
            Some(f.val)
        } else {
            arg_get(s, k)
        }),
{
    assert(s.push(f).drop_last() =~= s);
}

pub broadcast proof fn lemma_arg_quoted_push(s: Seq<ArgV>, f: ArgV, k: Seq<char>)
    ensures
        #[trigger] arg_quoted(s.push(f), k) == ((f.key == k && f.quoted) || arg_quoted(s, k)),
{
    assert(s.push(f).drop_last() =~= s);
}

proof fn lemma_arg_concat_rec(a: Seq<ArgV>, b: Seq<ArgV>, k: Seq<char>)
    ensures
        arg_get(a + b, k) == (match arg_get(b, k) {
            Some(v) => Some(v),
            None => arg_get(a, k),
        }),
        arg_quoted(a + b, k) == (arg_quoted(a, k) || arg_quoted(b, k)),
    decreases b.len(),
{
    if b.len() == 0 {
        assert(a + b =~= a);
    } else {
        let b0 = b.drop_last();
        let x = b.last();
        lemma_arg_concat_rec(a, b0, k);
        assert(a + b =~= (a + b0).push(x));
        assert(b =~= b0.push(x));
        lemma_arg_get_push(a + b0, x, k);
        lemma_arg_get_push(b0, x, k);
        lemma_arg_quoted_push(a + b0, x, k);
        lemma_arg_quoted_push(b0, x, k);
    }
}

pub broadcast proof fn lemma_arg_get_concat(a: Seq<ArgV>, b: Seq<ArgV>, k: Seq<char>)
    ensures
        #[trigger] arg_get(a + b, k) == (match arg_get(b, k) {
            Some(v) => Some(v),
            None => arg_get(a, k),
        }),
{
    lemma_arg_concat_rec(a, b, k);
}

pub broadcast proof fn lemma_arg_quoted_concat(a: Seq<ArgV>, b: Seq<ArgV>, k: Seq<char>)
    ensures
        #[trigger] arg_quoted(a + b, k) == (arg_quoted(a, k) || arg_quoted(b, k)),
{
    lemma_arg_concat_rec(a, b, k);
}

pub broadcast proof fn lemma_fields_ok_push(s: Seq<ArgV>, f: ArgV)
    ensures
        fields_ok(s) && field_ok(f) ==> #[trigger] fields_ok(s.push(f)),
{
    if fields_ok(s) && field_ok(f) {
        assert forall|i: int| 0 <= i < s.push(f).len() implies field_ok(#[trigger] s.push(f)[i]) by {
            if i < s.len() {
                assert(s.push(f)[i] == s[i]);
            }
        }
    }
}

pub broadcast proof fn lemma_fields_ok_concat(a: Seq<ArgV>, b: Seq<ArgV>)
    ensures
        fields_ok(a) && fields_ok(b) ==> #[trigger] fields_ok(a + b),
{
    if fields_ok(a) && fields_ok(b) {
        assert forall|i: int| 0 <= i < (a + b).len() implies field_ok(#[trigger] (a + b)[i]) by {
            if i < a.len() {
                assert((a + b)[i] == a[i]);
            } else {
                assert((a + b)[i] == b[i - a.len()]);
            }
        }
    }
}

pub broadcast group group_fields {
    lemma_arg_get_push,
    lemma_arg_quoted_push,
    lemma_arg_get_concat,
    lemma_arg_quoted_concat,
    lemma_fields_ok_push,
    lemma_fields_ok_concat,
}

} // verus!
