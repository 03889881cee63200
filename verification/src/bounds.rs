//! The screen size as display tools report it: the `current` size in the
//! output of `xrandr --query`, and the largest mode listed by the kernel's
//! DRM connectors (the `modes` files under `/sys/class/drm`).
use vstd::prelude::*;
use crate::text::{is_ws, is_whitespace, trim, trim_chars, parse_int, parse_int_chars, chars_of};
use crate::daemon::max_i32;

verus! {

// ---------------------------------------------------------------------------
// lines and words
// ---------------------------------------------------------------------------
/// `s` cut at every `c`; there is always at least one piece.
pub open spec fn split_char(s: Seq<char>, c: char) -> Seq<Seq<char>>
    decreases s.len(),
{
    if s.len() == 0 {
        seq![Seq::empty()]
    } else {
        let prev = split_char(s.drop_last(), c);
        if s.last() == c {
            prev.push(Seq::empty())
        } else {
            prev.update(prev.len() - 1, prev.last().push(s.last()))
        }
    }
}

pub proof fn lemma_split_char_len(s: Seq<char>, c: char)
    ensures
        split_char(s, c).len() >= 1,
    decreases s.len(),
{
    if s.len() > 0 {
        lemma_split_char_len(s.drop_last(), c);
    }
}

/// Pieces put back together, each after the previous one and a separator.
pub open spec fn join_back(parts: Seq<Seq<char>>, sep: char) -> Seq<char>
    decreases parts.len(),
{
    if parts.len() == 0 {
        Seq::empty()
    } else if parts.len() == 1 {
        parts[0]
    } else {
        join_back(parts.drop_last(), sep).push(sep) + parts.last()
    }
}

/// Cutting at a character loses nothing and keeps nothing of the cuts: no
/// piece holds the character, and the pieces joined again with it between
/// them give back the text.
pub proof fn lemma_split_char_rejoins(s: Seq<char>, c: char)
    ensures
        join_back(split_char(s, c), c) == s,
        forall|k: int, i: int|
            0 <= k < split_char(s, c).len() && 0 <= i < split_char(s, c)[k].len() ==> #[trigger] split_char(s, c)[k][i]
                != c,
    decreases s.len(),
{
    if s.len() > 0 {
        let prev = split_char(s.drop_last(), c);
        lemma_split_char_rejoins(s.drop_last(), c);
        lemma_split_char_len(s.drop_last(), c);
        let cur = split_char(s, c);
        if s.last() == c {
            assert(cur.drop_last() =~= prev);
            assert(s =~= s.drop_last().push(c) + Seq::<char>::empty());
            assert forall|k: int, i: int| 0 <= k < cur.len() && 0 <= i < cur[k].len() implies #[trigger] cur[k][i] != c by {
                if k < prev.len() {
                    assert(cur[k] == prev[k]);
                }
            }
        } else {
            let n = prev.len() - 1;
            assert(cur[n] == prev[n].push(s.last()));
            if prev.len() == 1 {
                assert(s =~= prev[0].push(s.last()));
            } else {
                assert(cur.drop_last() =~= prev.drop_last());
                assert(join_back(cur, c) =~= join_back(prev, c).push(s.last()));
            }
            assert(s =~= s.drop_last().push(s.last()));
            assert forall|k: int, i: int| 0 <= k < cur.len() && 0 <= i < cur[k].len() implies #[trigger] cur[k][i] != c by {
                if k < n {
                    assert(cur[k] == prev[k]);
                } else if i < prev[n].len() {
                    assert(cur[k][i] == prev[n][i]);
                }
            }
        }
    }
}

/// The pieces of `s` between the `c`s.
pub fn split_at_char(s: &Vec<char>, c: char) -> (r: Vec<Vec<char>>)
    ensures
        r@.map_values(|p: Vec<char>| p@) == split_char(s@, c),
{
    let mut parts: Vec<Vec<char>> = Vec::new();
    let mut cur: Vec<char> = Vec::new();
    let mut i: usize = 0;
    while i < s.len()
        invariant
            i <= s@.len(),
            parts@.map_values(|p: Vec<char>| p@).push(cur@) == split_char(s@.take(i as int), c),
        decreases s@.len() - i,
    {
        proof {
            assert(s@.take(i + 1).drop_last() =~= s@.take(i as int));
            lemma_split_char_len(s@.take(i as int), c);
        }
        let ghost before = parts@.map_values(|p: Vec<char>| p@);
        let ghost cur0 = cur@;
        if s[i] == c {
            let done = cur;
            parts.push(done);
            cur = Vec::new();
            proof {
                assert(parts@.map_values(|p: Vec<char>| p@) =~= before.push(cur0));
                assert(parts@.map_values(|p: Vec<char>| p@).push(cur@) =~= before.push(cur0).push(Seq::empty()));
            }
        } else {
            cur.push(s[i]);
            proof {
                assert(parts@.map_values(|p: Vec<char>| p@) =~= before);
                assert(parts@.map_values(|p: Vec<char>| p@).push(cur@) =~= before.push(cur0).update(
                    before.len() as int,
                    cur0.push(s@[i as int]),
                ));
            }
        }
        i = i + 1;
    }
    proof {
        assert(s@.take(s@.len() as int) =~= s@);
    }
    let ghost before = parts@.map_values(|p: Vec<char>| p@);
    parts.push(cur);
    proof {
        assert(parts@.map_values(|p: Vec<char>| p@) =~= before.push(cur@));
    }
    parts
}

/// The words of `s`: its maximal runs of characters that are not white
/// space, as `str::split_whitespace` yields them.
pub open spec fn words(s: Seq<char>) -> Seq<Seq<char>>
    decreases s.len(),
{
    if s.len() == 0 {
        Seq::empty()
    } else {
        let prev = words(s.drop_last());
        if is_ws(s.last()) {
            prev
        } else if s.len() >= 2 && !is_ws(s[s.len() - 2]) {
            prev.update(prev.len() - 1, prev.last().push(s.last()))
        } else {
            prev.push(seq![s.last()])
        }
    }
}

proof fn lemma_words_nonempty(s: Seq<char>)
    requires
        s.len() > 0,
        !is_ws(s.last()),
    ensures
        words(s).len() > 0,
    decreases s.len(),
{
    if s.len() >= 2 && !is_ws(s[s.len() - 2]) {
        assert(s.drop_last().last() == s[s.len() - 2]);
        lemma_words_nonempty(s.drop_last());
    }
}

/// Every word is a non-empty run of characters none of which is white
/// space, and a text without white space is one word (or none when empty).
pub proof fn lemma_words_shape(s: Seq<char>)
    ensures
        forall|k: int| 0 <= k < words(s).len() ==> #[trigger] words(s)[k].len() > 0,
        forall|k: int, i: int| 0 <= k < words(s).len() && 0 <= i < words(s)[k].len() ==> !is_ws(#[trigger] words(s)[k][i]),
        (forall|i: int| 0 <= i < s.len() ==> !is_ws(#[trigger] s[i])) ==> words(s) == (if s.len() == 0 {
            Seq::<Seq<char>>::empty()
        } else {
            seq![s]
        }),
    decreases s.len(),
{
    if s.len() > 0 {
        let prev = words(s.drop_last());
        lemma_words_shape(s.drop_last());
        let cur = words(s);
        if is_ws(s.last()) {
        } else if s.len() >= 2 && !is_ws(s[s.len() - 2]) {
            assert(s.drop_last().last() == s[s.len() - 2]);
            lemma_words_nonempty(s.drop_last());
            let n = prev.len() - 1;
            assert forall|k: int| 0 <= k < cur.len() implies #[trigger] cur[k].len() > 0 by {
                if k < n {
                    assert(cur[k] == prev[k]);
                }
            }
            assert forall|k: int, i: int| 0 <= k < cur.len() && 0 <= i < cur[k].len() implies !is_ws(#[trigger] cur[k][i]) by {
                if k < n {
                    assert(cur[k] == prev[k]);
                } else if i < prev[n].len() {
                    assert(cur[k][i] == prev[n][i]);
                }
            }
            if forall|i: int| 0 <= i < s.len() ==> !is_ws(#[trigger] s[i]) {
                assert forall|i: int| 0 <= i < s.drop_last().len() implies !is_ws(#[trigger] s.drop_last()[i]) by {
                    assert(s.drop_last()[i] == s[i]);
                }
                assert(cur[0] =~= s);
                assert(cur =~= seq![s]);
            }
        } else {
            assert forall|k: int| 0 <= k < cur.len() implies #[trigger] cur[k].len() > 0 by {
                if k < prev.len() {
                    assert(cur[k] == prev[k]);
                }
            }
            assert forall|k: int, i: int| 0 <= k < cur.len() && 0 <= i < cur[k].len() implies !is_ws(#[trigger] cur[k][i]) by {
                if k < prev.len() {
                    assert(cur[k] == prev[k]);
                }
            }
            if forall|i: int| 0 <= i < s.len() ==> !is_ws(#[trigger] s[i]) {
                if s.len() >= 2 {
                    assert(!is_ws(s[s.len() - 2]));
                }
                assert(s.drop_last().len() == 0);
                assert(prev =~= Seq::<Seq<char>>::empty());
                assert(seq![s.last()] =~= s);
                assert(cur =~= seq![s]);
            }
        }
    }
}

/// Splits `s` into its words.
pub fn split_words(s: &Vec<char>) -> (r: Vec<Vec<char>>)
    ensures
        r@.map_values(|p: Vec<char>| p@) == words(s@),
{
    let mut out: Vec<Vec<char>> = Vec::new();
    let mut cur: Vec<char> = Vec::new();
    let mut in_word = false;
    let mut i: usize = 0;
    while i < s.len()
        invariant
            i <= s@.len(),
            in_word == (i > 0 && !is_ws(s@[i - 1])),
            in_word ==> out@.map_values(|p: Vec<char>| p@).push(cur@) == words(s@.take(i as int)),
            !in_word ==> out@.map_values(|p: Vec<char>| p@) == words(s@.take(i as int)),
        decreases s@.len() - i,
    {
        let ghost t = s@.take(i as int);
        let ghost t1 = s@.take(i + 1);
        let ghost before = out@.map_values(|p: Vec<char>| p@);
        let ghost cur0 = cur@;
        proof {
            assert(t1.drop_last() =~= t);
            assert(t1.last() == s@[i as int]);
            if i > 0 {
                assert(t1[t1.len() - 2] == s@[i - 1]);
            }
        }
        if is_whitespace(s[i]) {
            if in_word {
                let done = cur;
                out.push(done);
                cur = Vec::new();
                proof {
                    assert(out@.map_values(|p: Vec<char>| p@) =~= before.push(cur0));
                }
            }
            in_word = false;
        } else {
            if in_word {
                cur.push(s[i]);
                proof {
                    lemma_words_nonempty(t);
                    assert(out@.map_values(|p: Vec<char>| p@) =~= before);
                    assert(out@.map_values(|p: Vec<char>| p@).push(cur@) =~= before.push(cur0).update(
                        before.len() as int,
                        cur0.push(s@[i as int]),
                    ));
                }
            } else {
                cur = Vec::new();
                cur.push(s[i]);
                proof {
                    assert(cur@ =~= seq![s@[i as int]]);
                }
            }
            in_word = true;
        }
        i = i + 1;
    }
    proof {
        assert(s@.take(s@.len() as int) =~= s@);
    }
    if in_word {
        let ghost before = out@.map_values(|p: Vec<char>| p@);
        out.push(cur);
        proof {
            assert(out@.map_values(|p: Vec<char>| p@) =~= before.push(cur@));
        }
    }
    out
}

/// `s` without the commas at its end, as `trim_end_matches(',')` gives it.
pub open spec fn strip_commas(s: Seq<char>) -> Seq<char>
    decreases s.len(),
{
    if s.len() > 0 && s.last() == ',' {
        strip_commas(s.drop_last())
    } else {
        s
    }
}

fn strip_commas_exec(s: &Vec<char>) -> (r: Vec<char>)
    ensures
        r@ == strip_commas(s@),
{
    let mut n = s.len();
    assert(s@.take(n as int) =~= s@);
    while n > 0 && s[n - 1] == ','
        invariant
            n <= s@.len(),
            strip_commas(s@) == strip_commas(s@.take(n as int)),
        decreases n,
    {
        assert(s@.take(n as int).drop_last() =~= s@.take(n - 1));
        n = n - 1;
    }
    let mut r: Vec<char> = Vec::new();
    let mut i: usize = 0;
    while i < n
        invariant
            i <= n <= s@.len(),
            r@ == s@.take(i as int),
        decreases n - i,
    {
        r.push(s[i]);
        assert(r@ =~= s@.take(i + 1));
        i = i + 1;
    }
    r
}

/// Reading a decimal `i32` the way `str::parse::<i32>` does.
pub open spec fn parse_i32(s: Seq<char>) -> Option<i32> {
    match parse_int(s, true, i32::MIN as int, i32::MAX as int) {
        Some(v) => Some(v as i32),
        None => None,
    }
}

/// Reads a decimal `i32` as `str::parse::<i32>` does.
pub fn parse_i32_chars(s: &Vec<char>) -> (r: Option<i32>)
    ensures
        r == parse_i32(s@),
{
    match parse_int_chars(s, true, i32::MIN as i128, i32::MAX as i128) {
        Some(v) => Some(v as i32),
        None => None,
    }
}

// ---------------------------------------------------------------------------
// xrandr
// ---------------------------------------------------------------------------
/// The position of the first word equal to `w`.
pub open spec fn first_word(ws: Seq<Seq<char>>, w: Seq<char>, i: int) -> Option<int>
    decreases ws.len() - i,
{
    if i < 0 || i >= ws.len() {
        None
    } else if ws[i] == w {
        Some(i)
    } else {
        first_word(ws, w, i + 1)
    }
}

/// What one line of `xrandr --query` output says: `None` when it does not
/// give the current size (no word `current` with three words after it);
/// else the size read from the words after `current`
/// (`current 1920 x 1080,`), `Some(None)` when they are not numbers.
pub open spec fn xrandr_line(line: Seq<char>) -> Option<Option<(i32, i32)>> {
    let parts = words(line);
    match first_word(parts, "current"@, 0) {
        Some(pos) if parts.len() > pos + 3 => match (parse_i32(parts[pos + 1]), parse_i32(strip_commas(parts[pos + 3]))) {
            (Some(w), Some(h)) => Some(Some((w, h))),
            _ => Some(None),
        },
        _ => None,
    }
}

/// The size given by the first line, from `i` on, that gives one.
pub open spec fn xrandr_scan(lines: Seq<Seq<char>>, i: int) -> Option<(i32, i32)>
    decreases lines.len() - i,
{
    if i < 0 || i >= lines.len() {
        None
    } else {
        match xrandr_line(lines[i]) {
            Some(r) => r,
            None => xrandr_scan(lines, i + 1),
        }
    }
}

/// The screen size from the output of `xrandr --query`: the numbers after
/// the word `current` on the first line that has it followed by three more
/// words; `None` when no line does, or when that line's numbers do not read.
pub fn xrandr_bounds(text: &str) -> (r: Option<(i32, i32)>)
    ensures
        r == xrandr_scan(split_char(text@, '\n'), 0),
{
    let s = chars_of(text);
    let lines = split_at_char(&s, '\n');
    let ghost ls = lines@.map_values(|p: Vec<char>| p@);
    let current: Vec<char> = chars_of("current");
    proof {
        reveal_strlit("current");
    }
    let mut i: usize = 0;
    while i < lines.len()
        invariant
            i <= lines@.len(),
            ls == lines@.map_values(|p: Vec<char>| p@),
            ls == split_char(s@, '\n'),
            s@ == text@,
            current@ == "current"@,
            xrandr_scan(ls, 0) == xrandr_scan(ls, i as int),
        decreases lines@.len() - i,
    {
        let parts = split_words(&lines[i]);
        let ghost ps = parts@.map_values(|p: Vec<char>| p@);
        assert(ps == words(ls[i as int]));
        let mut pos: usize = 0;
        let mut found = false;
        while pos < parts.len() && !found
            invariant
                pos <= parts@.len(),
                ps == parts@.map_values(|p: Vec<char>| p@),
                current@ == "current"@,
                found ==> pos < parts@.len() && first_word(ps, "current"@, 0) == Some(pos as int),
                !found ==> first_word(ps, "current"@, 0) == first_word(ps, "current"@, pos as int),
            decreases (parts@.len() - pos) * 2 + (if found { 0int } else { 1int }),
        {
            let mut eq = parts[pos].len() == current.len();
            let mut k: usize = 0;
            while eq && k < current.len()
                invariant
                    pos < parts@.len(),
                    k <= current@.len(),
                    eq ==> parts@[pos as int]@.len() == current@.len(),
                    eq ==> parts@[pos as int]@.take(k as int) == current@.take(k as int),
                    !eq ==> parts@[pos as int]@ != current@,
                decreases (current@.len() - k) * 2 + (if eq { 1int } else { 0int }),
            {
                if parts[pos][k] != current[k] {
                    eq = false;
                } else {
                    assert(parts@[pos as int]@.take(k + 1) =~= parts@[pos as int]@.take(k as int).push(current@[k as int]));
                    assert(current@.take(k + 1) =~= current@.take(k as int).push(current@[k as int]));
                    k = k + 1;
                }
            }
            if eq {
                assert(parts@[pos as int]@ =~= parts@[pos as int]@.take(k as int));
                assert(current@ =~= current@.take(k as int));
                found = true;
            } else {
                pos = pos + 1;
            }
        }
        if found && parts.len() - pos > 3 {
            let w = parse_i32_chars(&parts[pos + 1]);
            let stripped = strip_commas_exec(&parts[pos + 3]);
            let h = parse_i32_chars(&stripped);
            match (w, h) {
                (Some(w), Some(h)) => {
                    return Some((w, h));
                },
                _ => {
                    return None;
                },
            }
        }
        proof {
            if !found {
                assert(first_word(ps, "current"@, pos as int) is None);
            }
        }
        i = i + 1;
    }
    None
}

// ---------------------------------------------------------------------------
// DRM connector modes
// ---------------------------------------------------------------------------
/// The first position of `c` in `s`.
pub open spec fn first_char(s: Seq<char>, c: char, i: int) -> Option<int>
    decreases s.len() - i,
{
    if i < 0 || i >= s.len() {
        None
    } else if s[i] == c {
        Some(i)
    } else {
        first_char(s, c, i + 1)
    }
}

/// The mode a line of a connector's `modes` file names: `WxH`, once
/// trimmed, cut at its first `x`, both sides read as `i32`.
pub open spec fn mode_of(line: Seq<char>) -> Option<(i32, i32)> {
    let t = trim(line);
    match first_char(t, 'x', 0) {
        Some(p) => match (parse_i32(t.subrange(0, p)), parse_i32(t.subrange(p + 1, t.len() as int))) {
            (Some(w), Some(h)) => Some((w, h)),
            _ => None,
        },
        None => None,
    }
}

/// The largest width and height over the lines that name a mode, from `(0, 0)`.
pub open spec fn widest_modes(lines: Seq<Seq<char>>) -> (i32, i32)
    decreases lines.len(),
{
    if lines.len() == 0 {
        (0, 0)
    } else {
        let (mx, my) = widest_modes(lines.drop_last());
        match mode_of(lines.last()) {
            Some((w, h)) => (max_i32(mx, w), max_i32(my, h)),
            None => (mx, my),
        }
    }
}

/// The size found is the largest width and the largest height among the
/// lines that name a mode: no mode is wider or taller, and each of the two
/// is zero or is some mode's.
pub proof fn lemma_widest_modes_is_largest(lines: Seq<Seq<char>>)
    ensures
        widest_modes(lines).0 >= 0 && widest_modes(lines).1 >= 0,
        forall|k: int|
            0 <= k < lines.len() ==> match mode_of(#[trigger] lines[k]) {
                Some((w, h)) => w <= widest_modes(lines).0 && h <= widest_modes(lines).1,
                None => true,
            },
        widest_modes(lines).0 == 0 || exists|k: int|
            0 <= k < lines.len() && (#[trigger] mode_of(lines[k]) matches Some((w, _)) && w == widest_modes(lines).0),
        widest_modes(lines).1 == 0 || exists|k: int|
            0 <= k < lines.len() && (#[trigger] mode_of(lines[k]) matches Some((_, h)) && h == widest_modes(lines).1),
    decreases lines.len(),
{
    if lines.len() > 0 {
        let prev = lines.drop_last();
        lemma_widest_modes_is_largest(prev);
        assert forall|k: int| 0 <= k < prev.len() implies #[trigger] lines[k] == prev[k] by {}
        if widest_modes(lines).0 != 0 && widest_modes(lines).0 == widest_modes(prev).0 && widest_modes(prev).0 != 0 {
            let k = choose|k: int|
                0 <= k < prev.len() && (#[trigger] mode_of(prev[k]) matches Some((w, _)) && w == widest_modes(prev).0);
            assert(lines[k] == prev[k]);
        }
        if widest_modes(lines).1 != 0 && widest_modes(lines).1 == widest_modes(prev).1 && widest_modes(prev).1 != 0 {
            let k = choose|k: int|
                0 <= k < prev.len() && (#[trigger] mode_of(prev[k]) matches Some((_, h)) && h == widest_modes(prev).1);
            assert(lines[k] == prev[k]);
        }
        assert(lines[lines.len() - 1] == lines.last());
    }
}

/// The largest width and height over the modes of all the files, from `(0, 0)`.
pub open spec fn widest_files(files: Seq<Seq<char>>) -> (i32, i32)
    decreases files.len(),
{
    if files.len() == 0 {
        (0, 0)
    } else {
        let (mx, my) = widest_files(files.drop_last());
        let (fx, fy) = widest_modes(split_char(files.last(), '\n'));
        (max_i32(mx, fx), max_i32(my, fy))
    }
}

/// `t` cut at its first `c`: the part before and the part after, as
/// `str::split_once` gives them.
pub fn split_once_char(t: &Vec<char>, c: char) -> (r: Option<(Vec<char>, Vec<char>)>)
    ensures
        match first_char(t@, c, 0) {
            Some(p) => r matches Some((a, b)) && a@ == t@.subrange(0, p) && b@ == t@.subrange(p + 1, t@.len() as int),
            None => r is None,
        },
{
    let mut p: usize = 0;
    while p < t.len() && t[p] != c
        invariant
            p <= t@.len(),
            first_char(t@, c, 0) == first_char(t@, c, p as int),
        decreases t@.len() - p,
    {
        p = p + 1;
    }
    if p == t.len() {
        return None;
    }
    let mut a: Vec<char> = Vec::new();
    let mut k: usize = 0;
    while k < p
        invariant
            k <= p < t@.len(),
            a@ == t@.subrange(0, k as int),
        decreases p - k,
    {
        a.push(t[k]);
        assert(a@ =~= t@.subrange(0, k + 1));
        k = k + 1;
    }
    let mut b: Vec<char> = Vec::new();
    let mut k: usize = p + 1;
    while k < t.len()
        invariant
            p + 1 <= k <= t@.len(),
            b@ == t@.subrange(p + 1, k as int),
        decreases t@.len() - k,
    {
        b.push(t[k]);
        assert(b@ =~= t@.subrange(p + 1, k + 1));
        k = k + 1;
    }
    Some((a, b))
}

fn mode_of_exec(line: &Vec<char>) -> (r: Option<(i32, i32)>)
    ensures
        r == mode_of(line@),
{
    let t = trim_chars(line);
    match split_once_char(&t, 'x') {
        Some((a, b)) => match (parse_i32_chars(&a), parse_i32_chars(&b)) {
            (Some(w), Some(h)) => Some((w, h)),
            _ => None,
        },
        None => None,
    }
}

/// The largest width and height over the modes that one `modes` file lists.
pub fn widest_mode(content: &str) -> (r: (i32, i32))
    ensures
        r == widest_modes(split_char(content@, '\n')),
{
    let s = chars_of(content);
    let lines = split_at_char(&s, '\n');
    let ghost ls = lines@.map_values(|p: Vec<char>| p@);
    let mut mx: i32 = 0;
    let mut my: i32 = 0;
    let mut i: usize = 0;
    while i < lines.len()
        invariant
            i <= lines@.len(),
            ls == lines@.map_values(|p: Vec<char>| p@),
            (mx, my) == widest_modes(ls.take(i as int)),
        decreases lines@.len() - i,
    {
        proof {
            assert(ls.take(i + 1).drop_last() =~= ls.take(i as int));
            assert(ls.take(i + 1).last() == ls[i as int]);
        }
        match mode_of_exec(&lines[i]) {
            Some((w, h)) => {
                if w > mx {
                    mx = w;
                }
                if h > my {
                    my = h;
                }
            },
            None => {},
        }
        i = i + 1;
    }
    proof {
        assert(ls.take(lines@.len() as int) =~= ls);
    }
    (mx, my)
}

/// The screen size from the kernel's DRM connectors: the largest width and
/// height over the modes listed in the given `modes` files, when both are
/// positive.
pub fn drm_modes_bounds(files: &Vec<String>) -> (r: Option<(i32, i32)>)
    ensures
        ({
            let (mx, my) = widest_files(files@.map_values(|f: String| f@));
            r == (if mx > 0 && my > 0 {
                Some((mx, my))
            } else {
                None
            })
        }),
{
    let ghost fs = files@.map_values(|f: String| f@);
    let mut mx: i32 = 0;
    let mut my: i32 = 0;
    let mut i: usize = 0;
    while i < files.len()
        invariant
            i <= files@.len(),
            fs == files@.map_values(|f: String| f@),
            (mx, my) == widest_files(fs.take(i as int)),
        decreases files@.len() - i,
    {
        proof {
            assert(fs.take(i + 1).drop_last() =~= fs.take(i as int));
            assert(fs.take(i + 1).last() == fs[i as int]);
        }
        let (w, h) = widest_mode(files[i].as_str());
        if w > mx {
            mx = w;
        }
        if h > my {
            my = h;
        }
        i = i + 1;
    }
    proof {
        assert(fs.take(files@.len() as int) =~= fs);
    }
    if mx > 0 && my > 0 {
        Some((mx, my))
    } else {
        None
    }
}

} // verus!
