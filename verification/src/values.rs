//! Values at playback time: their text and number forms, comparisons,
//! `$name` interpolation and quoted literals.
use vstd::prelude::*;
use crate::text::{
    trim, trim_chars, chars_of, string_of, parse_int, parse_int_chars, dec_int, fmt_i64, chars_eq,
    push_all,
};
use crate::types::{Value, ValueV, CompareOp, Operand, OperandV};

verus! {

// ---------------------------------------------------------------------------
// number and text forms of a value
// ---------------------------------------------------------------------------
/// Text read as a whole number the way `i64::from_str` reads it after trimming.
pub open spec fn text_as_i64(s: Seq<char>) -> Option<i64> {
    match parse_int(trim(s), true, i64::MIN as int, i64::MAX as int) {
        Some(n) => Some(n as i64),
        None => None,
    }
}

pub open spec fn spec_as_i64_opt(v: ValueV) -> Option<i64> {
    match v {
        ValueV::Number(n) => Some(n),
        ValueV::Text(s) => text_as_i64(s),
    }
}

pub open spec fn spec_as_text(v: ValueV) -> Seq<char> {
    match v {
        ValueV::Number(n) => dec_int(n as int),
        ValueV::Text(s) => s,
    }
}

/// Reads text as a whole number, ignoring surrounding white space.
pub fn text_to_i64(s: &Vec<char>) -> (r: Option<i64>)
    ensures
        r == text_as_i64(s@),
{
    let t = trim_chars(s);
    match parse_int_chars(&t, true, i64::MIN as i128, i64::MAX as i128) {
        Some(v) => Some(v as i64),
        None => None,
    }
}

impl Value {
    /// The value as a whole number when it is one, or fully numeric text.
    pub fn as_i64_opt(&self) -> (r: Option<i64>)
        ensures
            r == spec_as_i64_opt(self@),
    {
        match self {
            Value::Number(n) => Some(*n),
            Value::Text(s) => text_to_i64(&chars_of(s.as_str())),
        }
    }

    /// The value as a whole number; unparseable text reads as 0.
    pub fn as_i64(&self) -> (r: i64)
        ensures
            r == (match spec_as_i64_opt(self@) {
                Some(n) => n,
                None => 0,
            }),
    {
        match self.as_i64_opt() {
            Some(n) => n,
            None => 0,
        }
    }

    /// The value as text: numbers in decimal, text as it is.
    pub fn as_text(&self) -> (r: String)
        ensures
            r@ == spec_as_text(self@),
    {
        match self {
            Value::Number(n) => string_of(&fmt_i64(*n)),
            Value::Text(s) => string_of(&chars_of(s.as_str())),
        }
    }
}

/// An operand as a whole number: a literal by [`spec_as_i64_opt`] (0 when it
/// is not one), a variable by its whole-number value in `nums` (0 when unset).
pub open spec fn spec_resolve_num(op: OperandV, nums: Seq<(Seq<char>, i64)>) -> i64 {
    match op {
        OperandV::Literal(v) => match spec_as_i64_opt(v) {
            Some(n) => n,
            None => 0,
        },
        OperandV::Var(name) => match lookup(nums, name) {
            Some(n) => n,
            None => 0,
        },
    }
}

pub open spec fn num_entries(nums: Seq<(String, i64)>) -> Seq<(Seq<char>, i64)> {
    nums.map_values(|e: (String, i64)| (e.0@, e.1))
}

pub(crate) fn lookup_i64(nums: &Vec<(String, i64)>, name: &Vec<char>) -> (r: Option<i64>)
    ensures
        r == lookup(num_entries(nums@), name@),
{
    let mut k: usize = nums.len();
    assert(nums@.take(k as int) =~= nums@);
    while k > 0
        invariant
            k <= nums.len(),
            lookup(num_entries(nums@), name@) == lookup(num_entries(nums@.take(k as int)), name@),
        decreases k,
    {
        let ghost vv = num_entries(nums@.take(k as int));
        assert(vv.drop_last() =~= num_entries(nums@.take(k - 1)));
        assert(vv.last() == (nums@[k - 1].0@, nums@[k - 1].1));
        let key = chars_of(nums[k - 1].0.as_str());
        if chars_eq(&key, name) {
            return Some(nums[k - 1].1);
        }
        k = k - 1;
    }
    assert(num_entries(nums@.take(0)) =~= Seq::<(Seq<char>, i64)>::empty());
    None
}

/// Resolves an operand to a whole number; `nums` pairs each variable name
/// with its whole-number value.
pub fn resolve_num(op: &Operand, nums: &Vec<(String, i64)>) -> (n: i64)
    ensures
        n == spec_resolve_num(op@, num_entries(nums@)),
{
    match op {
        Operand::Literal(v) => v.as_i64(),
        Operand::Var(name) => match lookup_i64(nums, &chars_of(name.as_str())) {
            Some(n) => n,
            None => 0,
        },
    }
}

// ---------------------------------------------------------------------------
// comparisons
// ---------------------------------------------------------------------------
/// The order of two values.
#[derive(Debug, Clone, Copy, PartialEq, Eq, Structural)]
pub enum Order {
    Less,
    Equal,
    Greater,
}

/// How two values compare as numbers: they are not both numbers, they are
/// but do not compare (a NaN is involved), or their order.
#[derive(Debug, Clone, Copy, PartialEq, Eq, Structural)]
pub enum NumericOrder {
    NotNumbers,
    Unordered,
    Less,
    Equal,
    Greater,
}

/// Lexicographic order of two texts by code point, which is the byte order of
/// their UTF-8 forms (the order of `str`).
pub open spec fn lex_order(a: Seq<char>, b: Seq<char>) -> Order
    decreases a.len(),
{
    if a.len() == 0 && b.len() == 0 {
        Order::Equal
    } else if a.len() == 0 {
        Order::Less
    } else if b.len() == 0 {
        Order::Greater
    } else if a[0] < b[0] {
        Order::Less
    } else if a[0] > b[0] {
        Order::Greater
    } else {
        lex_order(a.skip(1), b.skip(1))
    }
}

/// Whether `needle` occurs in `hay`.
pub open spec fn contains_seq(hay: Seq<char>, needle: Seq<char>) -> bool {
    exists|i: int| 0 <= i <= hay.len() - needle.len() && #[trigger] hay.subrange(i, i + needle.len()) == needle
}

pub open spec fn order_holds(o: Order, op: CompareOp) -> bool {
    match op {
        CompareOp::Lt => o == Order::Less,
        CompareOp::Le => o != Order::Greater,
        CompareOp::Gt => o == Order::Greater,
        CompareOp::Ge => o != Order::Less,
        _ => false,
    }
}

/// `==`, `!=` and `contains` compare the text forms; the ordering operators
/// compare numerically when both sides are numbers (never true when they do
/// not compare), lexicographically otherwise.
pub open spec fn spec_compare(left: Seq<char>, op: CompareOp, right: Seq<char>, numeric: NumericOrder) -> bool {
    match op {
        CompareOp::Eq => left == right,
        CompareOp::Ne => left != right,
        CompareOp::Contains => contains_seq(left, right),
        _ => match numeric {
            NumericOrder::NotNumbers => order_holds(lex_order(left, right), op),
            NumericOrder::Unordered => false,
            NumericOrder::Less => order_holds(Order::Less, op),
            NumericOrder::Equal => order_holds(Order::Equal, op),
            NumericOrder::Greater => order_holds(Order::Greater, op),
        },
    }
}

/// Lexicographic order of two texts.
pub fn lex_compare(a: &Vec<char>, b: &Vec<char>) -> (o: Order)
    ensures
        o == lex_order(a@, b@),
{
    let mut i: usize = 0;
    assert(a@.skip(0) =~= a@);
    assert(b@.skip(0) =~= b@);
    while i < a.len() && i < b.len() && a[i] == b[i]
        invariant
            i <= a.len(),
            i <= b.len(),
            lex_order(a@, b@) == lex_order(a@.skip(i as int), b@.skip(i as int)),
        decreases a.len() - i,
    {
        assert(a@.skip(i as int).skip(1) =~= a@.skip(i + 1));
        assert(b@.skip(i as int).skip(1) =~= b@.skip(i + 1));
        i = i + 1;
    }
    if i == a.len() && i == b.len() {
        Order::Equal
    } else if i == a.len() {
        Order::Less
    } else if i == b.len() {
        Order::Greater
    } else if a[i] < b[i] {
        Order::Less
    } else {
        Order::Greater
    }
}

/// Whether `needle` occurs in `hay`.
pub fn contains_chars(hay: &Vec<char>, needle: &Vec<char>) -> (r: bool)
    ensures
        r == contains_seq(hay@, needle@),
{
    if needle.len() > hay.len() {
        return false;
    }
    let last = hay.len() - needle.len();
    let mut i: usize = 0;
    while i <= last
        invariant
            last == hay.len() - needle.len(),
            i <= last + 1,
            forall|k: int| 0 <= k < i ==> #[trigger] hay@.subrange(k, k + needle@.len()) != needle@,
        decreases last + 1 - i,
    {
        let mut j: usize = 0;
        while j < needle.len() && hay[i + j] == needle[j]
            invariant
                i <= last,
                last == hay.len() - needle.len(),
                j <= needle.len(),
                forall|k: int| 0 <= k < j ==> hay@[i + k] == needle@[k],
            decreases needle.len() - j,
        {
            j = j + 1;
        }
        if j == needle.len() {
            assert(hay@.subrange(i as int, i + needle@.len()) =~= needle@);
            return true;
        }
        assert(hay@.subrange(i as int, i + needle@.len())[j as int] != needle@[j as int]);
        i = i + 1;
    }
    false
}

/// Compares two values by their text forms, given how they compare as numbers.
pub fn compare_values(left: &str, op: CompareOp, right: &str, numeric: NumericOrder) -> (r: bool)
    ensures
        r == spec_compare(left@, op, right@, numeric),
        numeric == NumericOrder::Equal || (numeric == NumericOrder::NotNumbers && left@ == right@) ==> (
        (op == CompareOp::Ge || op == CompareOp::Le) ==> r) && ((op == CompareOp::Gt || op == CompareOp::Lt) ==> !r),
{
    proof {
        lemma_lex_order_equal(left@, right@);
    }
    let a = chars_of(left);
    let b = chars_of(right);
    match op {
        CompareOp::Eq => chars_eq(&a, &b),
        CompareOp::Ne => !chars_eq(&a, &b),
        CompareOp::Contains => contains_chars(&a, &b),
        _ => {
            let o = match numeric {
                NumericOrder::NotNumbers => lex_compare(&a, &b),
                NumericOrder::Unordered => {
                    return false;
                },
                NumericOrder::Less => Order::Less,
                NumericOrder::Equal => Order::Equal,
                NumericOrder::Greater => Order::Greater,
            };
            ordering(o, op)
        },
    }
}

/// Whether order `o` satisfies an ordering operator.
pub fn ordering(o: Order, op: CompareOp) -> (r: bool)
    ensures
        op == CompareOp::Lt ==> (r <==> o == Order::Less),
        op == CompareOp::Gt ==> (r <==> o == Order::Greater),
        op == CompareOp::Le ==> (r <==> (o == Order::Less || o == Order::Equal)),
        op == CompareOp::Ge ==> (r <==> (o == Order::Greater || o == Order::Equal)),
        r == order_holds(o, op),
{
    match op {
        CompareOp::Lt => o == Order::Less,
        CompareOp::Le => o != Order::Greater,
        CompareOp::Gt => o == Order::Greater,
        CompareOp::Ge => o != Order::Less,
        _ => false,
    }
}

/// The order seen from the other side.
pub open spec fn flip_order(o: Order) -> Order {
    match o {
        Order::Less => Order::Greater,
        Order::Equal => Order::Equal,
        Order::Greater => Order::Less,
    }
}

/// How the right value compares with the left, given how the left compares
/// with the right.
pub open spec fn flip_numeric(n: NumericOrder) -> NumericOrder {
    match n {
        NumericOrder::Less => NumericOrder::Greater,
        NumericOrder::Greater => NumericOrder::Less,
        _ => n,
    }
}

/// Comparing two texts the other way round flips their order.
pub proof fn lemma_lex_order_flips(a: Seq<char>, b: Seq<char>)
    ensures
        lex_order(b, a) == flip_order(lex_order(a, b)),
    decreases a.len(),
{
    if a.len() > 0 && b.len() > 0 && a[0] == b[0] {
        lemma_lex_order_flips(a.skip(1), b.skip(1));
    }
}

/// Two texts are equal in lexicographic order exactly when they are the same text.
pub proof fn lemma_lex_order_equal(a: Seq<char>, b: Seq<char>)
    ensures
        (lex_order(a, b) == Order::Equal) <==> a == b,
    decreases a.len(),
{
    if a.len() > 0 && b.len() > 0 && a[0] == b[0] {
        lemma_lex_order_equal(a.skip(1), b.skip(1));
        if a.skip(1) == b.skip(1) {
            assert(a =~= seq![a[0]] + a.skip(1));
            assert(b =~= seq![b[0]] + b.skip(1));
        }
        if a == b {
            assert(a.skip(1) =~= b.skip(1));
        }
    } else if a.len() > 0 && b.len() > 0 {
        assert(a[0] != b[0]);
    } else if a.len() != b.len() {
        assert(a != b);
    } else {
        assert(a =~= b);
    }
}

/// Texts are ordered as `str` orders them: a text comes before every longer
/// text it begins, and two texts that agree up to a character are ordered by
/// that character's code point. `!=` is the negation of `==`, and every text
/// contains itself, the empty text and each of its pieces.
pub proof fn lemma_text_order_and_contains(a: Seq<char>, b: Seq<char>, x: char, y: char, p: Seq<char>)
    ensures
        b.len() > 0 ==> lex_order(a, a + b) == Order::Less,
        x < y ==> lex_order(p + seq![x] + a, p + seq![y] + b) == Order::Less,
        spec_compare(a, CompareOp::Ne, b, NumericOrder::NotNumbers) == !spec_compare(
            a,
            CompareOp::Eq,
            b,
            NumericOrder::NotNumbers,
        ),
        spec_compare(a, CompareOp::Contains, a, NumericOrder::NotNumbers),
        spec_compare(a, CompareOp::Contains, Seq::empty(), NumericOrder::NotNumbers),
        spec_compare(p + b + a, CompareOp::Contains, b, NumericOrder::NotNumbers),
{
    if b.len() > 0 {
        lemma_lex_prefix_less(a, b);
    }
    if x < y {
        lemma_lex_first_difference(p, x, y, a, b);
    }
    lemma_contains_pieces(a, b, p);
}

proof fn lemma_contains_pieces(a: Seq<char>, b: Seq<char>, p: Seq<char>)
    ensures
        contains_seq(a, a),
        contains_seq(a, Seq::empty()),
        contains_seq(p + b + a, b),
{
    assert(contains_seq(a, a)) by {
        assert(a.subrange(0, 0 + a.len() as int) =~= a);
    }
    assert(contains_seq(a, Seq::empty())) by {
        let e = Seq::<char>::empty();
        assert(a.subrange(0, 0 + e.len() as int) =~= e);
    }
    assert(contains_seq(p + b + a, b)) by {
        let h = p + b + a;
        assert(h.subrange(p.len() as int, p.len() + b.len() as int) =~= b);
    }
}

proof fn lemma_lex_prefix_less(a: Seq<char>, b: Seq<char>)
    requires
        b.len() > 0,
    ensures
        lex_order(a, a + b) == Order::Less,
    decreases a.len(),
{
    if a.len() > 0 {
        assert((a + b).skip(1) =~= a.skip(1) + b);
        assert((a + b)[0] == a[0]);
        lemma_lex_prefix_less(a.skip(1), b);
    }
}

proof fn lemma_lex_first_difference(p: Seq<char>, x: char, y: char, a: Seq<char>, b: Seq<char>)
    requires
        x < y,
    ensures
        lex_order(p + seq![x] + a, p + seq![y] + b) == Order::Less,
    decreases p.len(),
{
    let l = p + seq![x] + a;
    let r = p + seq![y] + b;
    if p.len() > 0 {
        assert(l.skip(1) =~= p.skip(1) + seq![x] + a);
        assert(r.skip(1) =~= p.skip(1) + seq![y] + b);
        assert(l[0] == p[0] && r[0] == p[0]);
        lemma_lex_first_difference(p.skip(1), x, y, a, b);
    } else {
        assert(l[0] == x && r[0] == y);
    }
}

/// The ordering operators of a comparison agree with one another, for texts
/// and for numbers alike: `>=` holds exactly when `>` holds or the values are
/// equal (for texts, when `==` holds), and exactly when `<` does not; `<=`
/// likewise with `<`; `<` and `<=` are `>` and `>=` with the sides swapped;
/// values that do not compare satisfy none of them.
pub proof fn lemma_ordering_operators(left: Seq<char>, right: Seq<char>, numeric: NumericOrder)
    ensures
        numeric != NumericOrder::Unordered ==> spec_compare(left, CompareOp::Ge, right, numeric)
            == !spec_compare(left, CompareOp::Lt, right, numeric),
        numeric != NumericOrder::Unordered ==> spec_compare(left, CompareOp::Le, right, numeric)
            == !spec_compare(left, CompareOp::Gt, right, numeric),
        numeric == NumericOrder::NotNumbers ==> spec_compare(left, CompareOp::Ge, right, numeric) == (
        spec_compare(left, CompareOp::Gt, right, numeric) || spec_compare(left, CompareOp::Eq, right, numeric)),
        numeric == NumericOrder::NotNumbers ==> spec_compare(left, CompareOp::Le, right, numeric) == (
        spec_compare(left, CompareOp::Lt, right, numeric) || spec_compare(left, CompareOp::Eq, right, numeric)),
        numeric != NumericOrder::NotNumbers && numeric != NumericOrder::Unordered ==> spec_compare(
            left,
            CompareOp::Ge,
            right,
            numeric,
        ) == (spec_compare(left, CompareOp::Gt, right, numeric) || numeric == NumericOrder::Equal),
        numeric != NumericOrder::NotNumbers && numeric != NumericOrder::Unordered ==> spec_compare(
            left,
            CompareOp::Le,
            right,
            numeric,
        ) == (spec_compare(left, CompareOp::Lt, right, numeric) || numeric == NumericOrder::Equal),
        spec_compare(left, CompareOp::Lt, right, numeric) == spec_compare(
            right,
            CompareOp::Gt,
            left,
            flip_numeric(numeric),
        ),
        spec_compare(left, CompareOp::Le, right, numeric) == spec_compare(
            right,
            CompareOp::Ge,
            left,
            flip_numeric(numeric),
        ),
        numeric == NumericOrder::Unordered ==> !spec_compare(left, CompareOp::Lt, right, numeric)
            && !spec_compare(left, CompareOp::Le, right, numeric) && !spec_compare(left, CompareOp::Gt, right, numeric)
            && !spec_compare(left, CompareOp::Ge, right, numeric),
{
    lemma_lex_order_flips(left, right);
    lemma_lex_order_equal(left, right);
}

/// A value is `<=` and `>=` itself and neither `<` nor `>` it: as a text,
/// and as a number that compares equal.
pub proof fn lemma_ordering_reflexive(value: Seq<char>, numeric: NumericOrder)
    requires
        numeric == NumericOrder::NotNumbers || numeric == NumericOrder::Equal,
    ensures
        spec_compare(value, CompareOp::Le, value, numeric),
        spec_compare(value, CompareOp::Ge, value, numeric),
        !spec_compare(value, CompareOp::Lt, value, numeric),
        !spec_compare(value, CompareOp::Gt, value, numeric),
{
    lemma_lex_order_equal(value, value);
}

// ---------------------------------------------------------------------------
// interpolation
// ---------------------------------------------------------------------------
/// `char::is_alphanumeric`: the Unicode alphabetic or numeric property.
pub uninterp spec fn is_alphanumeric(c: char) -> bool;

/// Whether `c` is alphanumeric (`char::is_alphanumeric`). Among ASCII
/// characters exactly the letters and the digits are.
#[verifier::external_body]
pub(crate) fn char_is_alphanumeric(c: char) -> (r: bool)
    ensures
        r == is_alphanumeric(c),
        c < '\u{80}' ==> r == (('a' <= c && c <= 'z') || ('A' <= c && c <= 'Z') || ('0' <= c && c <= '9')),
{
    c.is_alphanumeric()
}

pub open spec fn is_name_char(c: char) -> bool {
    is_alphanumeric(c) || c == '_'
}

/// Length of the run of name characters starting at `i`.
pub open spec fn name_run(s: Seq<char>, i: int) -> int
    decreases s.len() - i,
{
    if i < 0 || i >= s.len() || !is_name_char(s[i]) {
        0
    } else {
        1 + name_run(s, i + 1)
    }
}

/// The value of the last entry named `name` in a list of names and values.
pub open spec fn lookup<V>(vars: Seq<(Seq<char>, V)>, name: Seq<char>) -> Option<V>
    decreases vars.len(),
{
    if vars.len() == 0 {
        None
    } else if vars.last().0 == name {
        Some(vars.last().1)
    } else {
        lookup(vars.drop_last(), name)
    }
}

/// `$name` replaced by the variable's text, `$$` by `$`; a lone `$` and an
/// unknown name are kept as written.
pub open spec fn interp(s: Seq<char>, vars: Seq<(Seq<char>, Seq<char>)>) -> Seq<char>
    decreases s.len(),
{
    if s.len() == 0 {
        Seq::empty()
    } else if s[0] != '$' {
        seq![s[0]] + interp(s.skip(1), vars)
    } else if s.len() > 1 && s[1] == '$' {
        seq!['$'] + interp(s.skip(2), vars)
    } else {
        proof {
            lemma_name_run_bounds(s, 1);
        }
        let n = name_run(s, 1);
        if n <= 0 {
            seq!['$'] + interp(s.skip(1), vars)
        } else {
            let name = s.subrange(1, 1 + n);
            match lookup(vars, name) {
                Some(v) => v + interp(s.skip(1 + n), vars),
                None => seq!['$'] + name + interp(s.skip(1 + n), vars),
            }
        }
    }
}

/// Text with variables interpolated; text without `$` is unchanged.
pub open spec fn spec_interpolate(s: Seq<char>, vars: Seq<(Seq<char>, Seq<char>)>) -> Seq<char> {
    if !s.contains('$') {
        s
    } else {
        interp(s, vars)
    }
}

proof fn lemma_name_run_whole(s: Seq<char>, i: int)
    requires
        0 <= i <= s.len(),
        forall|k: int| i <= k < s.len() ==> is_name_char(#[trigger] s[k]),
    ensures
        name_run(s, i) == s.len() - i,
    decreases s.len() - i,
{
    if i < s.len() {
        lemma_name_run_whole(s, i + 1);
    }
}

/// Interpolation: `$$` stands for a `$`; `$name` for a variable that is set
/// is that variable's text, and for one that is not is kept as written;
/// text before a `$` is kept as it is. (A name is made of name characters,
/// which `$` is not.)
pub proof fn lemma_interpolation_laws(
    name: Seq<char>,
    rest: Seq<char>,
    c: char,
    vars: Seq<(Seq<char>, Seq<char>)>,
)
    requires
        name.len() > 0,
        name[0] != '$',
        forall|k: int| 0 <= k < name.len() ==> is_name_char(#[trigger] name[k]),
    ensures
        interp(seq!['$', '$'] + rest, vars) == seq!['$'] + interp(rest, vars),
        c != '$' ==> interp(seq![c] + rest, vars) == seq![c] + interp(rest, vars),
        interp(seq!['$'] + name, vars) == (match lookup(vars, name) {
            Some(v) => v,
            None => seq!['$'] + name,
        }),
{
    let a = seq!['$', '$'] + rest;
    assert(a.skip(2) =~= rest);
    assert(a[0] == '$' && a[1] == '$');
    let b = seq![c] + rest;
    assert(b.skip(1) =~= rest);
    let t = seq!['$'] + name;
    lemma_name_run_whole(t, 1);
    assert(t[1] == name[0]);
    assert(t.subrange(1, 1 + name.len() as int) =~= name);
    assert(t.skip(1 + name.len() as int) =~= Seq::<char>::empty());
    assert(interp(Seq::<char>::empty(), vars) == Seq::<char>::empty());
    assert(seq!['$'] + name + Seq::<char>::empty() =~= seq!['$'] + name);
    if let Some(v) = lookup(vars, name) {
        assert(v + Seq::<char>::empty() =~= v);
    }
}

pub open spec fn vars_view(vars: Seq<(String, String)>) -> Seq<(Seq<char>, Seq<char>)> {
    vars.map_values(|e: (String, String)| (e.0@, e.1@))
}

pub proof fn lemma_name_run_bounds(s: Seq<char>, i: int)
    requires
        0 <= i <= s.len(),
    ensures
        0 <= name_run(s, i) <= s.len() - i,
        forall|k: int| i <= k < i + name_run(s, i) ==> is_name_char(#[trigger] s[k]),
        i + name_run(s, i) < s.len() ==> !is_name_char(s[i + name_run(s, i)]),
    decreases s.len() - i,
{
    if i < s.len() && is_name_char(s[i]) {
        lemma_name_run_bounds(s, i + 1);
    }
}

proof fn lemma_no_dollar_interp(s: Seq<char>, vars: Seq<(Seq<char>, Seq<char>)>)
    requires
        !s.contains('$'),
    ensures
        interp(s, vars) == s,
    decreases s.len(),
{
    if s.len() > 0 {
        assert(s[0] != '$');
        let t = s.skip(1);
        assert(!t.contains('$')) by {
            if t.contains('$') {
                let k = choose|k: int| 0 <= k < t.len() && t[k] == '$';
                assert(s[k + 1] == '$');
            }
        }
        lemma_no_dollar_interp(t, vars);
        assert(s =~= seq![s[0]] + t);
    }
}

/// Looks up a variable's text form; the last entry with the name wins.
fn lookup_var(vars: &Vec<(String, String)>, name: &Vec<char>) -> (r: Option<Vec<char>>)
    ensures
        match lookup(vars_view(vars@), name@) {
            Some(v) => r matches Some(x) && x@ == v,
            None => r is None,
        },
{
    let mut k: usize = vars.len();
    assert(vars@.take(k as int) =~= vars@);
    while k > 0
        invariant
            k <= vars.len(),
            lookup(vars_view(vars@), name@) == lookup(vars_view(vars@.take(k as int)), name@),
        decreases k,
    {
        let ghost vv = vars_view(vars@.take(k as int));
        assert(vv.drop_last() =~= vars_view(vars@.take(k - 1)));
        assert(vv.last() == (vars@[k - 1].0@, vars@[k - 1].1@));
        let key = chars_of(vars[k - 1].0.as_str());
        if chars_eq(&key, name) {
            return Some(chars_of(vars[k - 1].1.as_str()));
        }
        k = k - 1;
    }
    assert(vars_view(vars@.take(0)) =~= Seq::<(Seq<char>, Seq<char>)>::empty());
    None
}

/// Replaces `$name` with the variable's text form and `$$` with `$`; a lone
/// `$` and unknown names stay as written. `vars` pairs each variable name
/// with its text form.
pub fn interpolate_variables(text: &str, vars: &Vec<(String, String)>) -> (r: String)
    ensures
        r@ == spec_interpolate(text@, vars_view(vars@)),
{
    let s = chars_of(text);
    let mut has_dollar = false;
    let mut p: usize = 0;
    while p < s.len()
        invariant
            p <= s.len(),
            has_dollar == (exists|k: int| 0 <= k < p && s@[k] == '$'),
        decreases s.len() - p,
    {
        if s[p] == '$' {
            has_dollar = true;
        }
        p = p + 1;
    }
    if !has_dollar {
        return string_of(&s);
    }
    let ghost vs = vars_view(vars@);
    let mut out: Vec<char> = Vec::new();
    let mut i: usize = 0;
    assert(s@.skip(0) =~= s@);
    assert(out@ + interp(s@.skip(0), vs) =~= interp(s@, vs));
    while i < s.len()
        invariant
            i <= s.len(),
            vs == vars_view(vars@),
            out@ + interp(s@.skip(i as int), vs) == interp(s@, vs),
        decreases s.len() - i,
    {
        let ghost rest = s@.skip(i as int);
        let c = s[i];
        if c != '$' {
            out.push(c);
            assert(rest.skip(1) =~= s@.skip(i + 1));
            i = i + 1;
            assert(out@ + interp(s@.skip(i as int), vs) =~= interp(s@, vs));
        } else if i + 1 < s.len() && s[i + 1] == '$' {
            out.push('$');
            assert(rest.skip(2) =~= s@.skip(i + 2));
            i = i + 2;
            assert(out@ + interp(s@.skip(i as int), vs) =~= interp(s@, vs));
        } else {
            let mut j: usize = i + 1;
            proof {
                lemma_name_run_bounds(rest, 1);
            }
            while j < s.len() && (char_is_alphanumeric(s[j]) || s[j] == '_')
                invariant
                    i < j <= s.len(),
                    rest == s@.skip(i as int),
                    name_run(rest, 1) == (j - i - 1) + name_run(rest, j - i),
                decreases s.len() - j,
            {
                j = j + 1;
            }
            let ghost n = name_run(rest, 1);
            assert(n == j - i - 1);
            if j == i + 1 {
                out.push('$');
                assert(rest.skip(1) =~= s@.skip(i + 1));
                i = i + 1;
                assert(out@ + interp(s@.skip(i as int), vs) =~= interp(s@, vs));
            } else {
                let mut name: Vec<char> = Vec::new();
                let mut q: usize = i + 1;
                while q < j
                    invariant
                        i < q <= j <= s.len(),
                        name@ == s@.subrange(i + 1, q as int),
                    decreases j - q,
                {
                    name.push(s[q]);
                    q = q + 1;
                }
                assert(name@ =~= rest.subrange(1, 1 + n));
                assert(rest.skip(1 + n) =~= s@.skip(j as int));
                match lookup_var(vars, &name) {
                    Some(v) => {
                        push_all(&mut out, &v);
                    },
                    None => {
                        out.push('$');
                        push_all(&mut out, &name);
                    },
                }
                i = j;
                assert(out@ + interp(s@.skip(i as int), vs) =~= interp(s@, vs));
            }
        }
    }
    assert(s@.skip(s.len() as int) =~= Seq::<char>::empty());
    assert(out@ =~= interp(s@, vs));
    proof {
        assert(s@.contains('$') == has_dollar);
    }
    string_of(&out)
}

// ---------------------------------------------------------------------------
// quoted literals
// ---------------------------------------------------------------------------
/// `s` with each doubled `q` collapsed into one, read left to right.
pub open spec fn undouble(s: Seq<char>, q: char) -> Seq<char>
    decreases s.len(),
{
    if s.len() == 0 {
        Seq::empty()
    } else if s[0] == q && s.len() > 1 && s[1] == q {
        seq![q] + undouble(s.skip(2), q)
    } else {
        seq![s[0]] + undouble(s.skip(1), q)
    }
}

/// The content of a literal in matching double or single quotes, doubled
/// quotes collapsed; `None` when `s` is not such a literal.
pub open spec fn spec_strip_quotes(s: Seq<char>) -> Option<Seq<char>> {
    if s.len() < 2 || (s[0] != '"' && s[0] != '\'') || s.last() != s[0] {
        None
    } else {
        Some(undouble(s.subrange(1, s.len() - 1), s[0]))
    }
}

/// `t` with every `q` written twice, as a quoted literal holds it.
pub open spec fn double_quotes(t: Seq<char>, q: char) -> Seq<char>
    decreases t.len(),
{
    if t.len() == 0 {
        Seq::empty()
    } else if t[0] == q {
        seq![q, q] + double_quotes(t.skip(1), q)
    } else {
        seq![t[0]] + double_quotes(t.skip(1), q)
    }
}

proof fn lemma_undouble_double(t: Seq<char>, q: char)
    ensures
        undouble(double_quotes(t, q), q) == t,
    decreases t.len(),
{
    if t.len() > 0 {
        let d = double_quotes(t, q);
        let rest = double_quotes(t.skip(1), q);
        lemma_undouble_double(t.skip(1), q);
        if t[0] == q {
            assert(d.skip(2) =~= rest);
        } else {
            assert(d.skip(1) =~= rest);
        }
        assert(t =~= seq![t[0]] + t.skip(1));
    }
}

/// Quoting undone: any text written between a pair of double or single
/// quotes, with that quote doubled inside, reads back as the text itself.
pub proof fn lemma_strip_quotes_undoes_quoting(t: Seq<char>, q: char)
    requires
        q == '"' || q == '\'',
    ensures
        spec_strip_quotes(seq![q] + double_quotes(t, q) + seq![q]) == Some(t),
{
    let s = seq![q] + double_quotes(t, q) + seq![q];
    assert(s.subrange(1, s.len() - 1) =~= double_quotes(t, q));
    lemma_undouble_double(t, q);
}

/// Strips a matching pair of double or single quotes, collapsing doubled quotes inside.
pub fn strip_quotes(s: &str) -> (r: Option<String>)
    ensures
        r matches Some(v) ==> spec_strip_quotes(s@) == Some(v@),
        r is None ==> spec_strip_quotes(s@) is None,
{
    let c = chars_of(s);
    let n = c.len();
    if n < 2 || (c[0] != '"' && c[0] != '\'') || c[n - 1] != c[0] {
        return None;
    }
    let q = c[0];
    let ghost inner = c@.subrange(1, n - 1);
    let mut out: Vec<char> = Vec::new();
    let mut i: usize = 1;
    while i < n - 1
        invariant
            n == c.len(),
            2 <= n,
            1 <= i <= n,
            q == c@[0],
            inner == c@.subrange(1, n - 1),
            i <= n - 1 ==> out@ + undouble(c@.subrange(i as int, n - 1), q) == undouble(inner, q),
            i > n - 1 ==> out@ == undouble(inner, q),
        decreases n - i,
    {
        let ghost rest = c@.subrange(i as int, n - 1);
        let ch = c[i];
        out.push(ch);
        if ch == q && i + 1 < n - 1 && c[i + 1] == q {
            assert(rest.skip(2) =~= c@.subrange(i + 2, n - 1));
            i = i + 2;
        } else {
            assert(rest.skip(1) =~= c@.subrange(i + 1, n - 1));
            i = i + 1;
        }
    }
    proof {
        if i == n - 1 {
            assert(c@.subrange(i as int, n - 1) =~= Seq::<char>::empty());
        }
    }
    Some(string_of(&out))
}

} // verus!
