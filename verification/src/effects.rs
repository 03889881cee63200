//! The argument line of `OpenFile`: words split on blanks, quotes grouping.
use vstd::prelude::*;
use crate::text::{chars_of, string_of};

verus! {

/// The split so far: finished words, the word being read, and whether (and
/// with which quote) a quoted part is open.
pub struct SplitState {
    pub args: Seq<Seq<char>>,
    pub current: Seq<char>,
    pub in_quotes: bool,
    pub quote: char,
}

pub open spec fn split_start() -> SplitState {
    SplitState { args: Seq::empty(), current: Seq::empty(), in_quotes: false, quote: '"' }
}

/// One character of the argument line: an opening quote starts a quoted
/// part, its matching quote ends it, a blank outside quotes ends the word,
/// anything else belongs to the word.
pub open spec fn split_step(st: SplitState, ch: char) -> SplitState {
    if (ch == '"' || ch == '\'') && !st.in_quotes {
        SplitState { in_quotes: true, quote: ch, ..st }
    } else if st.in_quotes && ch == st.quote {
        SplitState { in_quotes: false, ..st }
    } else if (ch == ' ' || ch == '\t') && !st.in_quotes {
        if st.current.len() > 0 {
            SplitState { args: st.args.push(st.current), current: Seq::empty(), ..st }
        } else {
            st
        }
    } else {
        SplitState { current: st.current.push(ch), ..st }
    }
}

pub open spec fn split_prefix(s: Seq<char>) -> SplitState
    decreases s.len(),
{
    if s.len() == 0 {
        split_start()
    } else {
        split_step(split_prefix(s.drop_last()), s.last())
    }
}

/// The words of an argument line.
pub open spec fn spec_parse_args(s: Seq<char>) -> Seq<Seq<char>> {
    let st = split_prefix(s);
    if st.current.len() > 0 {
        st.args.push(st.current)
    } else {
        st.args
    }
}

/// Whether a character separates words outside quotes.
pub open spec fn is_blank(c: char) -> bool {
    c == ' ' || c == '\t'
}

proof fn lemma_split_words_nonempty(s: Seq<char>)
    ensures
        forall|k: int| 0 <= k < split_prefix(s).args.len() ==> #[trigger] split_prefix(s).args[k].len() > 0,
    decreases s.len(),
{
    if s.len() > 0 {
        lemma_split_words_nonempty(s.drop_last());
        let prev = split_prefix(s.drop_last());
        let st = split_prefix(s);
        assert forall|k: int| 0 <= k < st.args.len() implies #[trigger] st.args[k].len() > 0 by {
            if k < prev.args.len() {
                assert(prev.args[k].len() > 0);
            }
        }
    }
}

proof fn lemma_split_plain(w: Seq<char>, k: int)
    requires
        0 <= k <= w.len(),
        forall|i: int| 0 <= i < w.len() ==> !is_blank(#[trigger] w[i]) && w[i] != '"' && w[i] != '\'',
    ensures
        split_prefix(w.take(k)) == (SplitState { args: Seq::empty(), current: w.take(k), in_quotes: false, quote: '"' }),
    decreases k,
{
    if k > 0 {
        assert(w.take(k).drop_last() =~= w.take(k - 1));
        lemma_split_plain(w, k - 1);
        assert(w.take(k - 1).push(w[k - 1]) =~= w.take(k));
    } else {
        assert(w.take(0) =~= Seq::<char>::empty());
    }
}

proof fn lemma_split_quoted(w: Seq<char>, q: char, k: int)
    requires
        0 <= k <= w.len(),
        q == '"' || q == '\'',
        forall|i: int| 0 <= i < w.len() ==> #[trigger] w[i] != q,
    ensures
        split_prefix(seq![q] + w.take(k)) == (SplitState { args: Seq::empty(), current: w.take(k), in_quotes: true, quote: q }),
    decreases k,
{
    let s = seq![q] + w.take(k);
    if k > 0 {
        assert(s.drop_last() =~= seq![q] + w.take(k - 1));
        assert(s.last() == w[k - 1]);
        lemma_split_quoted(w, q, k - 1);
        assert(w.take(k - 1).push(w[k - 1]) =~= w.take(k));
    } else {
        assert(s.drop_last() =~= Seq::<char>::empty());
        assert(s.last() == q);
        assert(w.take(0) =~= Seq::<char>::empty());
        assert(split_prefix(s.drop_last()) == split_start());
    }
}

/// Splitting never yields an empty word. A word without blanks or quotes is
/// itself the only word, and a line of blanks has none; quotes group what
/// they enclose into one word, blanks included, and are dropped themselves.
pub proof fn lemma_parse_args_laws(w: Seq<char>, q: char, n: nat)
    ensures
        forall|k: int| 0 <= k < spec_parse_args(w).len() ==> #[trigger] spec_parse_args(w)[k].len() > 0,
        (forall|i: int| 0 <= i < w.len() ==> !is_blank(#[trigger] w[i]) && w[i] != '"' && w[i] != '\'') ==> spec_parse_args(w)
            == (if w.len() > 0 { seq![w] } else { Seq::empty() }),
        (q == '"' || q == '\'') && (forall|i: int| 0 <= i < w.len() ==> #[trigger] w[i] != q) ==> spec_parse_args(
            seq![q] + w + seq![q],
        ) == (if w.len() > 0 { seq![w] } else { Seq::empty() }),
        spec_parse_args(Seq::new(n, |i: int| ' ')).len() == 0,
{
    lemma_split_words_nonempty(w);
    if forall|i: int| 0 <= i < w.len() ==> !is_blank(#[trigger] w[i]) && w[i] != '"' && w[i] != '\'' {
        lemma_split_plain(w, w.len() as int);
        assert(w.take(w.len() as int) =~= w);
    }
    if (q == '"' || q == '\'') && (forall|i: int| 0 <= i < w.len() ==> #[trigger] w[i] != q) {
        lemma_split_quoted(w, q, w.len() as int);
        assert(w.take(w.len() as int) =~= w);
        assert((seq![q] + w + seq![q]).drop_last() =~= seq![q] + w.take(w.len() as int));
    }
    lemma_blank_line(n);
}

proof fn lemma_blank_line(n: nat)
    ensures
        split_prefix(Seq::new(n, |i: int| ' ')) == split_start(),
    decreases n,
{
    if n > 0 {
        assert(Seq::new(n, |i: int| ' ').drop_last() =~= Seq::new((n - 1) as nat, |i: int| ' '));
        lemma_blank_line((n - 1) as nat);
    }
}

pub open spec fn strings_view(v: Seq<String>) -> Seq<Seq<char>> {
    v.map_values(|s: String| s@)
}

/// Splits an argument line into words: blanks separate words outside
/// quotes, and single or double quotes group a part (the quotes themselves
/// are dropped).
pub fn parse_args(raw: &str) -> (args: Vec<String>)
    ensures
        strings_view(args@) == spec_parse_args(raw@),
{
    let s = chars_of(raw);
    let mut args: Vec<String> = Vec::new();
    let mut current: Vec<char> = Vec::new();
    let mut in_quotes = false;
    let mut quote_char = '"';
    let mut i: usize = 0;
    while i < s.len()
        invariant
            i <= s.len(),
            s@ == raw@,
            ({
                let st = split_prefix(s@.take(i as int));
                &&& st.args == strings_view(args@)
                &&& st.current == current@
                &&& st.in_quotes == in_quotes
                &&& st.quote == quote_char
            }),
        decreases s.len() - i,
    {
        let ch = s[i];
        assert(s@.take(i + 1).drop_last() =~= s@.take(i as int));
        let ghost before = strings_view(args@);
        if (ch == '"' || ch == '\'') && !in_quotes {
            in_quotes = true;
            quote_char = ch;
        } else if in_quotes && ch == quote_char {
            in_quotes = false;
        } else if (ch == ' ' || ch == '\t') && !in_quotes {
            if current.len() > 0 {
                let word = string_of(&current);
                args.push(word);
                assert(strings_view(args@) =~= before.push(current@));
                current = Vec::new();
            }
        } else {
            current.push(ch);
        }
        i = i + 1;
    }
    assert(s@.take(s.len() as int) =~= s@);
    if current.len() > 0 {
        let ghost before = strings_view(args@);
        args.push(string_of(&current));
        assert(strings_view(args@) =~= before.push(current@));
    }
    args
}

} // verus!
