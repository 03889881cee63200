//! Tokens of `Calculate` expressions.
use vstd::prelude::*;
use crate::text::{is_ws, is_whitespace, chars_of, string_of, push_str};
use crate::types::CompareOp;
use crate::script_read::find_char;
use crate::values::{is_name_char, name_run, lemma_name_run_bounds, char_is_alphanumeric};

verus! {

/// A binary operator of an expression.
#[derive(Debug, Clone, Copy, PartialEq, Eq, Structural)]
pub enum BinOp {
    Add,
    Sub,
    Mul,
    Div,
    Mod,
    Concat,
    Eq,
    Ne,
    Lt,
    Le,
    Gt,
    Ge,
}

impl BinOp {
    pub open spec fn spec_symbol(self) -> Seq<char> {
        match self {
            BinOp::Add => "+"@,
            BinOp::Sub => "-"@,
            BinOp::Mul => "*"@,
            BinOp::Div => "/"@,
            BinOp::Mod => "%"@,
            BinOp::Concat => "."@,
            BinOp::Eq => "=="@,
            BinOp::Ne => "!="@,
            BinOp::Lt => "<"@,
            BinOp::Le => "<="@,
            BinOp::Gt => ">"@,
            BinOp::Ge => ">="@,
        }
    }

    pub open spec fn spec_to_compare_op(self) -> Option<CompareOp> {
        match self {
            BinOp::Eq => Some(CompareOp::Eq),
            BinOp::Ne => Some(CompareOp::Ne),
            BinOp::Lt => Some(CompareOp::Lt),
            BinOp::Le => Some(CompareOp::Le),
            BinOp::Gt => Some(CompareOp::Gt),
            BinOp::Ge => Some(CompareOp::Ge),
            _ => None,
        }
    }

    /// The operator as written.
    pub fn symbol(&self) -> (s: &'static str)
        ensures
            s@ == self.spec_symbol(),
    {
        match self {
            BinOp::Add => "+",
            BinOp::Sub => "-",
            BinOp::Mul => "*",
            BinOp::Div => "/",
            BinOp::Mod => "%",
            BinOp::Concat => ".",
            BinOp::Eq => "==",
            BinOp::Ne => "!=",
            BinOp::Lt => "<",
            BinOp::Le => "<=",
            BinOp::Gt => ">",
            BinOp::Ge => ">=",
        }
    }

    /// The comparison an operator stands for, if it is one.
    pub fn to_compare_op(&self) -> (r: Option<CompareOp>)
        ensures
            r == self.spec_to_compare_op(),
    {
        match self {
            BinOp::Eq => Some(CompareOp::Eq),
            BinOp::Ne => Some(CompareOp::Ne),
            BinOp::Lt => Some(CompareOp::Lt),
            BinOp::Le => Some(CompareOp::Le),
            BinOp::Gt => Some(CompareOp::Gt),
            BinOp::Ge => Some(CompareOp::Ge),
            _ => None,
        }
    }
}

/// A token of an expression. A number keeps the digits as written
/// (`12`, `3.5`, `7.`); its value is read where expressions are evaluated.
#[derive(Debug, Clone, PartialEq, Eq)]
pub enum Token {
    Number(String),
    String(String),
    Var(String),
    Ident(String),
    Op(BinOp),
    Question,
    Colon,
    LParen,
    RParen,
    Comma,
}

pub enum TokenV {
    Number(Seq<char>),
    Str(Seq<char>),
    Var(Seq<char>),
    Ident(Seq<char>),
    Op(BinOp),
    Question,
    Colon,
    LParen,
    RParen,
    Comma,
}

impl View for Token {
    type V = TokenV;

    open spec fn view(&self) -> TokenV {
        match self {
            Token::Number(s) => TokenV::Number(s@),
            Token::String(s) => TokenV::Str(s@),
            Token::Var(s) => TokenV::Var(s@),
            Token::Ident(s) => TokenV::Ident(s@),
            Token::Op(op) => TokenV::Op(*op),
            Token::Question => TokenV::Question,
            Token::Colon => TokenV::Colon,
            Token::LParen => TokenV::LParen,
            Token::RParen => TokenV::RParen,
            Token::Comma => TokenV::Comma,
        }
    }
}

pub open spec fn tokens_view(ts: Seq<Token>) -> Seq<TokenV> {
    ts.map_values(|t: Token| t@)
}

/// The text of a token as written in an expression.
pub open spec fn spec_token_text(t: TokenV) -> Seq<char> {
    match t {
        TokenV::Number(s) => s,
        TokenV::Str(s) => seq!['"'] + s + seq!['"'],
        TokenV::Var(n) => seq!['$'] + n,
        TokenV::Ident(n) => n,
        TokenV::Op(op) => op.spec_symbol(),
        TokenV::Question => "?"@,
        TokenV::Colon => ":"@,
        TokenV::LParen => "("@,
        TokenV::RParen => ")"@,
        TokenV::Comma => ","@,
    }
}

impl Token {
    /// The token as written, for messages.
    pub fn text(&self) -> (r: String)
        ensures
            r@ == spec_token_text(self@),
    {
        match self {
            Token::Number(s) => string_of(&chars_of(s.as_str())),
            Token::String(s) => {
                let mut v: Vec<char> = Vec::new();
                v.push('"');
                push_str(&mut v, s.as_str());
                v.push('"');
                string_of(&v)
            },
            Token::Var(n) => {
                let mut v: Vec<char> = Vec::new();
                v.push('$');
                push_str(&mut v, n.as_str());
                string_of(&v)
            },
            Token::Ident(n) => string_of(&chars_of(n.as_str())),
            Token::Op(op) => string_of(&chars_of(op.symbol())),
            Token::Question => string_of(&chars_of("?")),
            Token::Colon => string_of(&chars_of(":")),
            Token::LParen => string_of(&chars_of("(")),
            Token::RParen => string_of(&chars_of(")")),
            Token::Comma => string_of(&chars_of(",")),
        }
    }
}

// ---------------------------------------------------------------------------
// model of the tokenizer
// ---------------------------------------------------------------------------
/// The one-character tokens.
pub open spec fn spec_single_token(c: char) -> Option<TokenV> {
    if c == '+' {
        Some(TokenV::Op(BinOp::Add))
    } else if c == '-' {
        Some(TokenV::Op(BinOp::Sub))
    } else if c == '*' {
        Some(TokenV::Op(BinOp::Mul))
    } else if c == '/' {
        Some(TokenV::Op(BinOp::Div))
    } else if c == '%' {
        Some(TokenV::Op(BinOp::Mod))
    } else if c == '.' {
        Some(TokenV::Op(BinOp::Concat))
    } else if c == '(' {
        Some(TokenV::LParen)
    } else if c == ')' {
        Some(TokenV::RParen)
    } else if c == ',' {
        Some(TokenV::Comma)
    } else if c == '?' {
        Some(TokenV::Question)
    } else if c == ':' {
        Some(TokenV::Colon)
    } else {
        None
    }
}

/// The characters that stand for a token on their own.
pub open spec fn is_single_token_char(c: char) -> bool {
    c == '+' || c == '-' || c == '*' || c == '/' || c == '%' || c == '.' || c == '(' || c == ')' || c == ','
        || c == '?' || c == ':'
}

/// Each one-character token is the token written as that character: its text
/// is the character it was read from, so `/` reads as division, `%` as the
/// remainder, and so on; exactly the operator and punctuation characters
/// make such a token.
pub proof fn lemma_single_token_text(c: char)
    ensures
        spec_single_token(c) is Some <==> is_single_token_char(c),
        match spec_single_token(c) {
            Some(t) => spec_token_text(t) == seq![c],
            None => true,
        },
{
    reveal_strlit("+");
    reveal_strlit("-");
    reveal_strlit("*");
    reveal_strlit("/");
    reveal_strlit("%");
    reveal_strlit(".");
    reveal_strlit("(");
    reveal_strlit(")");
    reveal_strlit(",");
    reveal_strlit("?");
    reveal_strlit(":");
    if let Some(t) = spec_single_token(c) {
        assert(spec_token_text(t) =~= seq![c]);
    }
}

pub open spec fn is_ascii_digit(c: char) -> bool {
    '0' <= c && c <= '9'
}

/// End of the run of ASCII digits starting at `i`.
pub open spec fn digit_end(s: Seq<char>, i: int) -> int
    decreases s.len() - i,
{
    if i < 0 || i >= s.len() || !is_ascii_digit(s[i]) {
        i
    } else {
        digit_end(s, i + 1)
    }
}

/// End of a number starting at `i`: digits, then optionally `.` and more digits.
pub open spec fn number_end(s: Seq<char>, i: int) -> int {
    let e = digit_end(s, i);
    if 0 <= e < s.len() && s[e] == '.' {
        digit_end(s, e + 1)
    } else {
        e
    }
}

pub proof fn lemma_digit_end(s: Seq<char>, i: int)
    requires
        0 <= i <= s.len(),
    ensures
        i <= digit_end(s, i) <= s.len(),
        forall|k: int| i <= k < digit_end(s, i) ==> is_ascii_digit(#[trigger] s[k]),
        digit_end(s, i) < s.len() ==> !is_ascii_digit(s[digit_end(s, i)]),
    decreases s.len() - i,
{
    if i < s.len() && is_ascii_digit(s[i]) {
        lemma_digit_end(s, i + 1);
    }
}

pub proof fn lemma_number_end(s: Seq<char>, i: int)
    requires
        0 <= i < s.len(),
        is_ascii_digit(s[i]),
    ensures
        i < number_end(s, i) <= s.len(),
{
    lemma_digit_end(s, i);
    let e = digit_end(s, i);
    if e < s.len() && s[e] == '.' {
        lemma_digit_end(s, e + 1);
    }
}

pub open spec fn cons(t: TokenV, rest: Result<Seq<TokenV>, Seq<char>>) -> Result<Seq<TokenV>, Seq<char>> {
    match rest {
        Ok(ts) => Ok(seq![t] + ts),
        Err(e) => Err(e),
    }
}

/// The tokens of `s` from position `i`, or the message of the first error.
pub open spec fn lex(s: Seq<char>, i: int) -> Result<Seq<TokenV>, Seq<char>>
    decreases s.len() - i,
{
    if i < 0 || i >= s.len() {
        Ok(Seq::empty())
    } else {
        let c = s[i];
        if is_ws(c) {
            lex(s, i + 1)
        } else if spec_single_token(c) is Some {
            cons(spec_single_token(c)->0, lex(s, i + 1))
        } else if is_ascii_digit(c) {
            proof {
                lemma_number_end(s, i);
            }
            let e = number_end(s, i);
            cons(TokenV::Number(s.subrange(i, e)), lex(s, e))
        } else if c == '"' || c == '\'' {
            proof {
                crate::script_read::lemma_find_char(s, c, i + 1);
            }
            let close = find_char(s, c, i + 1);
            if close >= s.len() {
                Err("unterminated string literal"@)
            } else {
                cons(TokenV::Str(s.subrange(i + 1, close)), lex(s, close + 1))
            }
        } else if c == '$' {
            proof {
                lemma_name_run_bounds(s, i + 1);
            }
            let n = name_run(s, i + 1);
            if n <= 0 {
                Err("expected a variable name after '$'"@)
            } else {
                cons(TokenV::Var(s.subrange(i + 1, i + 1 + n)), lex(s, i + 1 + n))
            }
        } else if ('a' <= c && c <= 'z') || ('A' <= c && c <= 'Z') || c == '_' {
            proof {
                lemma_name_run_bounds(s, i + 1);
            }
            let n = name_run(s, i + 1);
            cons(TokenV::Ident(s.subrange(i, i + 1 + n)), lex(s, i + 1 + n))
        } else if c == '=' {
            if i + 1 < s.len() && s[i + 1] == '=' {
                cons(TokenV::Op(BinOp::Eq), lex(s, i + 2))
            } else {
                Err("expected '=' after '=' (use '==' to compare)"@)
            }
        } else if c == '!' {
            if i + 1 < s.len() && s[i + 1] == '=' {
                cons(TokenV::Op(BinOp::Ne), lex(s, i + 2))
            } else {
                Err("expected '=' after '!' (use '!=' to compare)"@)
            }
        } else if c == '<' {
            if i + 1 < s.len() && s[i + 1] == '=' {
                cons(TokenV::Op(BinOp::Le), lex(s, i + 2))
            } else {
                cons(TokenV::Op(BinOp::Lt), lex(s, i + 1))
            }
        } else if c == '>' {
            if i + 1 < s.len() && s[i + 1] == '=' {
                cons(TokenV::Op(BinOp::Ge), lex(s, i + 2))
            } else {
                cons(TokenV::Op(BinOp::Gt), lex(s, i + 1))
            }
        } else {
            Err("unexpected character '"@ + seq![c] + "'"@)
        }
    }
}

proof fn lemma_cons_step(prefix: Seq<TokenV>, t: TokenV, rest: Result<Seq<TokenV>, Seq<char>>)
    ensures
        (match cons(t, rest) {
            Ok(ts) => Ok(prefix + ts),
            Err(m) => Err(m),
        }) == (match rest {
            Ok(ts) => Ok(prefix.push(t) + ts),
            Err(m) => Err::<Seq<TokenV>, Seq<char>>(m),
        }),
{
    if let Ok(ts) = rest {
        assert(prefix + (seq![t] + ts) =~= prefix.push(t) + ts);
    }
}

/// The token read at a non-blank position is spelled by the characters
/// there: an operator (one character or two), a parenthesis, a comma, a
/// number or a name is its own text, a variable is `$` and its name, and a
/// string is what stands between two equal quotes.
pub proof fn lemma_lex_token_spelled_at(s: Seq<char>, i: int)
    requires
        0 <= i < s.len(),
        !is_ws(s[i]),
    ensures
        match lex(s, i) {
            Ok(ts) => ts.len() > 0 && match ts[0] {
                TokenV::Str(v) => (s[i] == '"' || s[i] == '\'') && i + 1 + v.len() < s.len() && s.subrange(
                    i + 1,
                    i + 1 + v.len(),
                ) == v && s[i + 1 + v.len()] == s[i],
                t => i + spec_token_text(t).len() <= s.len() && s.subrange(i, i + spec_token_text(t).len())
                    == spec_token_text(t),
            },
            Err(_) => true,
        },
{
    let c = s[i];
    reveal_strlit("==");
    reveal_strlit("!=");
    reveal_strlit("<=");
    reveal_strlit(">=");
    reveal_strlit("<");
    reveal_strlit(">");
    lemma_single_token_text(c);
    if spec_single_token(c) is Some {
        assert(s.subrange(i, i + 1) =~= seq![c]);
    } else if is_ascii_digit(c) {
        lemma_number_end(s, i);
    } else if c == '"' || c == '\'' {
        crate::script_read::lemma_find_char(s, c, i + 1);
    } else if c == '$' {
        lemma_name_run_bounds(s, i + 1);
        let n = name_run(s, i + 1);
        if n > 0 {
            assert(s.subrange(i, i + 1 + n) =~= seq!['$'] + s.subrange(i + 1, i + 1 + n));
        }
    } else if ('a' <= c && c <= 'z') || ('A' <= c && c <= 'Z') || c == '_' {
        lemma_name_run_bounds(s, i + 1);
    } else if i + 1 < s.len() && s[i + 1] == '=' {
        assert(s.subrange(i, i + 2) =~= seq![c, '=']);
    } else {
        assert(s.subrange(i, i + 1) =~= seq![c]);
    }
}

// ---------------------------------------------------------------------------
// executable tokenizer
// ---------------------------------------------------------------------------
/// The token a character stands for on its own, if any.
pub fn single_token(c: char) -> (r: Option<Token>)
    ensures
        match spec_single_token(c) {
            Some(t) => r matches Some(x) && x@ == t,
            None => r is None,
        },
        r is Some <==> is_single_token_char(c),
        match r {
            Some(t) => spec_token_text(t@) == seq![c],
            None => true,
        },
{
    proof {
        lemma_single_token_text(c);
    }
    if c == '+' {
        Some(Token::Op(BinOp::Add))
    } else if c == '-' {
        Some(Token::Op(BinOp::Sub))
    } else if c == '*' {
        Some(Token::Op(BinOp::Mul))
    } else if c == '/' {
        Some(Token::Op(BinOp::Div))
    } else if c == '%' {
        Some(Token::Op(BinOp::Mod))
    } else if c == '.' {
        Some(Token::Op(BinOp::Concat))
    } else if c == '(' {
        Some(Token::LParen)
    } else if c == ')' {
        Some(Token::RParen)
    } else if c == ',' {
        Some(Token::Comma)
    } else if c == '?' {
        Some(Token::Question)
    } else if c == ':' {
        Some(Token::Colon)
    } else {
        None
    }
}

/// End of the name (letters, digits, `_`) starting at `i`.
pub fn take_name(s: &Vec<char>, i: usize) -> (end: usize)
    requires
        i <= s.len(),
    ensures
        end == i + name_run(s@, i as int),
{
    proof {
        lemma_name_run_bounds(s@, i as int);
    }
    let mut j = i;
    while j < s.len() && (char_is_alphanumeric(s[j]) || s[j] == '_')
        invariant
            i <= j <= s.len(),
            name_run(s@, i as int) == (j - i) + name_run(s@, j as int),
        decreases s.len() - j,
    {
        j = j + 1;
    }
    j
}

fn digits_from(s: &Vec<char>, i: usize) -> (end: usize)
    requires
        i <= s.len(),
    ensures
        end == digit_end(s@, i as int),
{
    let mut j = i;
    while j < s.len() && '0' <= s[j] && s[j] <= '9'
        invariant
            i <= j <= s.len(),
            digit_end(s@, i as int) == digit_end(s@, j as int),
        decreases s.len() - j,
    {
        j = j + 1;
    }
    j
}

/// The string literal opened by the quote at `i`: its content and the
/// position after the closing quote.
pub fn parse_string(s: &Vec<char>, i: usize) -> (r: Result<(Vec<char>, usize), String>)
    requires
        i < s.len(),
    ensures
        ({
            let close = find_char(s@, s@[i as int], i + 1);
            match r {
                Ok((v, e)) => close < s@.len() && v@ == s@.subrange(i + 1, close) && e == close + 1,
                Err(m) => close >= s@.len() && m@ == "unterminated string literal"@,
            }
        }),
{
    let q = s[i];
    let mut j = i + 1;
    proof {
        crate::script_read::lemma_find_char(s@, q, i + 1);
    }
    while j < s.len() && s[j] != q
        invariant
            i < j <= s.len(),
            q == s@[i as int],
            find_char(s@, q, i + 1) == find_char(s@, q, j as int),
        decreases s.len() - j,
    {
        j = j + 1;
    }
    if j >= s.len() {
        return Err(string_of(&chars_of("unterminated string literal")));
    }
    let mut v: Vec<char> = Vec::new();
    let mut k = i + 1;
    while k < j
        invariant
            i < k <= j < s.len(),
            v@ == s@.subrange(i + 1, k as int),
        decreases j - k,
    {
        v.push(s[k]);
        k = k + 1;
    }
    Ok((v, j + 1))
}

fn message(m: &str) -> (r: String)
    ensures
        r@ == m@,
{
    string_of(&chars_of(m))
}

/// The tokens of an expression, or the message of the first error.
pub fn tokenize(src: &str) -> (r: Result<Vec<Token>, String>)
    ensures
        match lex(src@, 0) {
            Ok(ts) => r matches Ok(v) && tokens_view(v@) == ts,
            Err(m) => r matches Err(e) && e@ == m,
        },
{
    let s = chars_of(src);
    let mut tokens: Vec<Token> = Vec::new();
    let mut i: usize = 0;
    while i < s.len()
        invariant
            i <= s.len(),
            s@ == src@,
            lex(s@, 0) == (match lex(s@, i as int) {
                Ok(ts) => Ok(tokens_view(tokens@) + ts),
                Err(m) => Err(m),
            }),
        decreases s.len() - i,
    {
        let ghost before = tokens_view(tokens@);
        let c = s[i];
        if is_whitespace(c) {
            i = i + 1;
            continue;
        }
        match single_token(c) {
            Some(t) => {
                proof {
                    lemma_cons_step(before, t@, lex(s@, i + 1));
                }
                tokens.push(t);
                assert(tokens_view(tokens@) =~= before.push(spec_single_token(c)->0));
                i = i + 1;
                continue;
            },
            None => {},
        }
        if '0' <= c && c <= '9' {
            proof {
                lemma_number_end(s@, i as int);
            }
            let e1 = digits_from(&s, i);
            let e = if e1 < s.len() && s[e1] == '.' {
                digits_from(&s, e1 + 1)
            } else {
                e1
            };
            let mut v: Vec<char> = Vec::new();
            let mut k = i;
            while k < e
                invariant
                    i <= k <= e <= s.len(),
                    v@ == s@.subrange(i as int, k as int),
                decreases e - k,
            {
                v.push(s[k]);
                k = k + 1;
            }
            proof {
                lemma_cons_step(before, TokenV::Number(v@), lex(s@, e as int));
            }
            tokens.push(Token::Number(string_of(&v)));
            assert(tokens_view(tokens@) =~= before.push(TokenV::Number(s@.subrange(i as int, e as int))));
            i = e;
        } else if c == '"' || c == '\'' {
            proof {
                crate::script_read::lemma_find_char(s@, c, i + 1);
            }
            match parse_string(&s, i) {
                Ok((v, e)) => {
                    proof {
                        lemma_cons_step(before, TokenV::Str(v@), lex(s@, e as int));
                    }
                    tokens.push(Token::String(string_of(&v)));
                    assert(tokens_view(tokens@) =~= before.push(TokenV::Str(v@)));
                    i = e;
                },
                Err(m) => {
                    return Err(m);
                },
            }
        } else if c == '$' {
            proof {
                lemma_name_run_bounds(s@, i + 1);
            }
            let e = take_name(&s, i + 1);
            if e == i + 1 {
                return Err(message("expected a variable name after '$'"));
            }
            let mut v: Vec<char> = Vec::new();
            let mut k = i + 1;
            while k < e
                invariant
                    i + 1 <= k <= e <= s.len(),
                    v@ == s@.subrange(i + 1, k as int),
                decreases e - k,
            {
                v.push(s[k]);
                k = k + 1;
            }
            proof {
                lemma_cons_step(before, TokenV::Var(v@), lex(s@, e as int));
            }
            tokens.push(Token::Var(string_of(&v)));
            assert(tokens_view(tokens@) =~= before.push(TokenV::Var(v@)));
            i = e;
        } else if ('a' <= c && c <= 'z') || ('A' <= c && c <= 'Z') || c == '_' {
            proof {
                lemma_name_run_bounds(s@, i + 1);
            }
            let e = take_name(&s, i + 1);
            let mut v: Vec<char> = Vec::new();
            let mut k = i;
            while k < e
                invariant
                    i <= k <= e <= s.len(),
                    v@ == s@.subrange(i as int, k as int),
                decreases e - k,
            {
                v.push(s[k]);
                k = k + 1;
            }
            proof {
                lemma_cons_step(before, TokenV::Ident(v@), lex(s@, e as int));
            }
            tokens.push(Token::Ident(string_of(&v)));
            assert(tokens_view(tokens@) =~= before.push(TokenV::Ident(v@)));
            i = e;
        } else if c == '=' || c == '!' {
            if i + 1 < s.len() && s[i + 1] == '=' {
                let op = if c == '=' {
                    BinOp::Eq
                } else {
                    BinOp::Ne
                };
                proof {
                    lemma_cons_step(before, TokenV::Op(op), lex(s@, i + 2));
                }
                tokens.push(Token::Op(op));
                assert(tokens_view(tokens@) =~= before.push(TokenV::Op(op)));
                i = i + 2;
            } else if c == '=' {
                return Err(message("expected '=' after '=' (use '==' to compare)"));
            } else {
                return Err(message("expected '=' after '!' (use '!=' to compare)"));
            }
        } else if c == '<' || c == '>' {
            let with_eq = i + 1 < s.len() && s[i + 1] == '=';
            let op = if c == '<' {
                if with_eq {
                    BinOp::Le
                } else {
                    BinOp::Lt
                }
            } else if with_eq {
                BinOp::Ge
            } else {
                BinOp::Gt
            };
            proof {
                lemma_cons_step(before, TokenV::Op(op), lex(s@, if with_eq { i + 2 } else { i + 1 }));
            }
            tokens.push(Token::Op(op));
            assert(tokens_view(tokens@) =~= before.push(TokenV::Op(op)));
            i = if with_eq {
                i + 2
            } else {
                i + 1
            };
        } else {
            let mut m: Vec<char> = Vec::new();
            push_str(&mut m, "unexpected character '");
            m.push(c);
            push_str(&mut m, "'");
            return Err(string_of(&m));
        }
    }
    assert(tokens_view(tokens@) + Seq::<TokenV>::empty() =~= tokens_view(tokens@));
    Ok(tokens)
}

} // verus!
