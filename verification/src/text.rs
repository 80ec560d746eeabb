//! Character-level helpers on strings: conversion to and from character
//! vectors, trimming, case folding, substring search, ordering and decimal
//! rendering.
use vstd::prelude::*;

verus! {

broadcast use vstd::string::group_string_axioms;

/// The result of comparing two values.
#[derive(Debug, Clone, Copy, PartialEq, Eq, Structural)]
pub enum Order {
    Less,
    Equal,
    Greater,
}

impl Order {
    pub open spec fn flipped(self) -> Order {
        match self {
            Order::Less => Order::Greater,
            Order::Equal => Order::Equal,
            Order::Greater => Order::Less,
        }
    }

    /// The opposite comparison (`Less` and `Greater` swapped).
    pub fn reverse(self) -> (res: Order)
        ensures
            res == self.flipped(),
    {
        match self {
            Order::Less => Order::Greater,
            Order::Equal => Order::Equal,
            Order::Greater => Order::Less,
        }
    }
}

/// Collects the characters of `s`, in order.
pub fn chars_of(s: &str) -> (res: Vec<char>)
    ensures
        res@ == s@,
{
    let mut res: Vec<char> = Vec::new();
    for c in it: s.chars()
        invariant
            res@ == it.seq().take(it.index() as int),
    {
        res.push(c);
    }
    res
}

/// Appends one character to `s` (std's `String::push`).
#[verifier::external_body]
pub(crate) fn push_char(s: &mut String, c: char)
    ensures
        final(s)@ == old(s)@.push(c),
{
    s.push(c);
}

/// Builds a string from a sequence of characters.
pub fn string_of(cs: &[char]) -> (res: String)
    ensures
        res@ == cs@,
{
    let mut res = String::new();
    let n = cs.len();
    for i in 0..n
        invariant
            n == cs@.len(),
            res@ == cs@.take(i as int),
    {
        push_char(&mut res, cs[i]);
        assert(cs@.take(i + 1) =~= cs@.take(i as int).push(cs@[i as int]));
    }
    assert(cs@.take(n as int) =~= cs@);
    res
}

/// A string holding exactly the characters of `s`.
pub fn text(s: &str) -> (res: String)
    ensures
        res@ == s@,
{
    s.to_owned()
}

/// Whether two strings hold the same characters.
pub(crate) fn same_text(a: &str, b: &str) -> (res: bool)
    ensures
        res == (a@ == b@),
{
    let x = chars_of(a);
    let y = chars_of(b);
    if x.len() != y.len() {
        return false;
    }
    let n = x.len();
    for i in 0..n
        invariant
            n == x@.len(),
            n == y@.len(),
            x@ == a@,
            y@ == b@,
            forall|j: int| 0 <= j < i ==> x@[j] == y@[j],
    {
        if x[i] != y[i] {
            return false;
        }
    }
    assert(x@ =~= y@);
    true
}

/// The Unicode `White_Space` property, which `char::is_whitespace` tests.
pub open spec fn is_white_space(c: char) -> bool {
    let u = c as u32;
    ||| 0x09 <= u <= 0x0d
    ||| u == 0x20
    ||| u == 0x85
    ||| u == 0xa0
    ||| u == 0x1680
    ||| 0x2000 <= u <= 0x200a
    ||| u == 0x2028
    ||| u == 0x2029
    ||| u == 0x202f
    ||| u == 0x205f
    ||| u == 0x3000
}

/// `s` without its leading white space.
pub open spec fn trim_left(s: Seq<char>) -> Seq<char>
    decreases s.len(),
{
    if s.len() > 0 && is_white_space(s[0]) {
        trim_left(s.drop_first())
    } else {
        s
    }
}

/// `s` without its trailing white space.
pub open spec fn trim_right(s: Seq<char>) -> Seq<char>
    decreases s.len(),
{
    if s.len() > 0 && is_white_space(s.last()) {
        trim_right(s.drop_last())
    } else {
        s
    }
}

/// `s` without leading and trailing white space.
pub open spec fn trimmed(s: Seq<char>) -> Seq<char> {
    trim_right(trim_left(s))
}

/// Whether `c` has the Unicode `White_Space` property.
fn white_space(c: char) -> (res: bool)
    ensures
        res == is_white_space(c),
{
    let u = c as u32;
    (0x09 <= u && u <= 0x0d) || u == 0x20 || u == 0x85 || u == 0xa0 || u == 0x1680 || (0x2000 <= u
        && u <= 0x200a) || u == 0x2028 || u == 0x2029 || u == 0x202f || u == 0x205f || u == 0x3000
}

proof fn lemma_trim_left(s: Seq<char>, i: int)
    requires
        0 <= i <= s.len(),
        forall|j: int| 0 <= j < i ==> is_white_space(#[trigger] s[j]),
        i < s.len() ==> !is_white_space(s[i]),
    ensures
        trim_left(s) == s.skip(i),
    decreases i,
{
    if i > 0 {
        assert(is_white_space(s[0]));
        assert forall|j: int| 0 <= j < i - 1 implies is_white_space(#[trigger] s.drop_first()[j]) by {
            assert(s.drop_first()[j] == s[j + 1]);
        }
        if i < s.len() {
            assert(s.drop_first()[i - 1] == s[i]);
        }
        lemma_trim_left(s.drop_first(), i - 1);
        assert(s.drop_first().skip(i - 1) =~= s.skip(i));
    } else {
        assert(s.skip(0) =~= s);
    }
}

proof fn lemma_trim_right(t: Seq<char>, j: int)
    requires
        0 <= j <= t.len(),
        forall|k: int| j <= k < t.len() ==> is_white_space(#[trigger] t[k]),
        j > 0 ==> !is_white_space(t[j - 1]),
    ensures
        trim_right(t) == t.take(j),
    decreases t.len() - j,
{
    if j < t.len() {
        assert(is_white_space(t.last()));
        assert forall|k: int| j <= k < t.len() - 1 implies is_white_space(#[trigger] t.drop_last()[k]) by {
            assert(t.drop_last()[k] == t[k]);
        }
        if j > 0 {
            assert(t.drop_last()[j - 1] == t[j - 1]);
        }
        lemma_trim_right(t.drop_last(), j);
        assert(t.drop_last().take(j) =~= t.take(j));
    } else {
        assert(t.take(j) =~= t);
    }
}

/// `s` without leading and trailing characters that have the Unicode
/// `White_Space` property, as std's `str::trim` removes them.
pub(crate) fn trim(s: &str) -> (res: String)
    ensures
        res@ == trimmed(s@),
{
    let x = chars_of(s);
    let n = x.len();
    let mut i: usize = 0;
    while i < n && white_space(x[i])
        invariant
            n == x@.len(),
            i <= n,
            forall|j: int| 0 <= j < i ==> is_white_space(#[trigger] x@[j]),
        decreases n - i,
    {
        i = i + 1;
    }
    proof {
        lemma_trim_left(x@, i as int);
    }
    let mut e: usize = n;
    while e > i && white_space(x[e - 1])
        invariant
            n == x@.len(),
            i <= e <= n,
            forall|k: int| e <= k < n ==> is_white_space(#[trigger] x@[k]),
        decreases e,
    {
        e = e - 1;
    }
    let ghost t = x@.skip(i as int);
    proof {
        assert forall|k: int| e - i <= k < t.len() implies is_white_space(#[trigger] t[k]) by {
            assert(t[k] == x@[k + i]);
        }
        if e > i {
            assert(t[e - i - 1] == x@[e - 1]);
        }
        lemma_trim_right(t, e - i);
    }
    let mut res = String::new();
    let mut k: usize = i;
    while k < e
        invariant
            n == x@.len(),
            i <= k <= e <= n,
            res@ == x@.subrange(i as int, k as int),
        decreases e - k,
    {
        push_char(&mut res, x[k]);
        assert(x@.subrange(i as int, k + 1) =~= x@.subrange(i as int, k as int).push(x@[k as int]));
        k = k + 1;
    }
    assert(res@ =~= t.take(e - i));
    res
}

/// What std's `str::to_lowercase` returns for a string (Unicode lower-case
/// mapping, character by character with context rules).
pub uninterp spec fn lowercase(s: Seq<char>) -> Seq<char>;

/// Whether the lower-case mapping of `c` is given by `simple_lower`: ASCII,
/// Latin-1, the Greek capitals and small letters other than capital sigma
/// (whose lower case depends on its place in a word), and the basic
/// Cyrillic capitals and small letters.
pub open spec fn known_case(c: char) -> bool {
    let u = c as u32;
    ||| u < 0x100
    ||| 0x391 <= u <= 0x3a1
    ||| 0x3a4 <= u <= 0x3a9
    ||| 0x3b1 <= u <= 0x3c9
    ||| 0x400 <= u <= 0x45f
}

/// The Unicode lower-case mapping of a character of `known_case`: capitals
/// map to their small letters, every other such character to itself.
pub open spec fn simple_lower(c: char) -> char {
    let u = c as u32;
    if 0x41 <= u <= 0x5a || (0xc0 <= u <= 0xde && u != 0xd7) || 0x391 <= u <= 0x3a1 || 0x3a4 <= u
        <= 0x3a9 || 0x410 <= u <= 0x42f {
        (u + 0x20) as char
    } else if 0x400 <= u <= 0x40f {
        (u + 0x50) as char
    } else {
        c
    }
}

/// The lower case of one character, outside a word context.
pub open spec fn char_lower(c: char) -> Seq<char> {
    if known_case(c) {
        seq![simple_lower(c)]
    } else {
        lowercase(seq![c])
    }
}

/// The lower cases of the characters of `s`, one after the other.
pub open spec fn lower_chars(s: Seq<char>) -> Seq<char>
    decreases s.len(),
{
    if s.len() == 0 {
        Seq::empty()
    } else {
        lower_chars(s.drop_last()) + char_lower(s.last())
    }
}

/// The lower case of a text, as std's `str::to_lowercase` gives it: the
/// lower case of each character in turn, where the text holds no capital
/// sigma (whose lower case depends on the letters around it).
pub open spec fn text_lowercase(s: Seq<char>) -> Seq<char> {
    if s.contains('\u{3a3}') {
        lowercase(s)
    } else {
        lower_chars(s)
    }
}

/// std's `str::to_lowercase`; its result is named by `lowercase`. Without a
/// capital sigma, it is the lower case of each character in turn, by the
/// Unicode mappings, which `simple_lower` gives for the characters of
/// `known_case`.
#[verifier::external_body]
pub(crate) fn to_lowercase(s: &str) -> (res: String)
    ensures
        res@ == lowercase(s@),
        !s@.contains('\u{3a3}') ==> res@ == lower_chars(s@),
{
    s.to_lowercase()
}

/// The lower-case mapping of a character of `known_case`.
fn lower_known(c: char) -> (res: char)
    requires
        known_case(c),
    ensures
        res == simple_lower(c),
{
    let u = c as u32;
    if u < 0x100 {
        if (0x41 <= u && u <= 0x5a) || (0xc0 <= u && u <= 0xde && u != 0xd7) {
            let b = (u + 0x20) as u8;
            return b as char;
        }
        return c;
    }
    match c {
        '\u{391}' => '\u{3b1}',
        '\u{392}' => '\u{3b2}',
        '\u{393}' => '\u{3b3}',
        '\u{394}' => '\u{3b4}',
        '\u{395}' => '\u{3b5}',
        '\u{396}' => '\u{3b6}',
        '\u{397}' => '\u{3b7}',
        '\u{398}' => '\u{3b8}',
        '\u{399}' => '\u{3b9}',
        '\u{39a}' => '\u{3ba}',
        '\u{39b}' => '\u{3bb}',
        '\u{39c}' => '\u{3bc}',
        '\u{39d}' => '\u{3bd}',
        '\u{39e}' => '\u{3be}',
        '\u{39f}' => '\u{3bf}',
        '\u{3a0}' => '\u{3c0}',
        '\u{3a1}' => '\u{3c1}',
        '\u{3a4}' => '\u{3c4}',
        '\u{3a5}' => '\u{3c5}',
        '\u{3a6}' => '\u{3c6}',
        '\u{3a7}' => '\u{3c7}',
        '\u{3a8}' => '\u{3c8}',
        '\u{3a9}' => '\u{3c9}',
        '\u{410}' => '\u{430}',
        '\u{411}' => '\u{431}',
        '\u{412}' => '\u{432}',
        '\u{413}' => '\u{433}',
        '\u{414}' => '\u{434}',
        '\u{415}' => '\u{435}',
        '\u{416}' => '\u{436}',
        '\u{417}' => '\u{437}',
        '\u{418}' => '\u{438}',
        '\u{419}' => '\u{439}',
        '\u{41a}' => '\u{43a}',
        '\u{41b}' => '\u{43b}',
        '\u{41c}' => '\u{43c}',
        '\u{41d}' => '\u{43d}',
        '\u{41e}' => '\u{43e}',
        '\u{41f}' => '\u{43f}',
        '\u{420}' => '\u{440}',
        '\u{421}' => '\u{441}',
        '\u{422}' => '\u{442}',
        '\u{423}' => '\u{443}',
        '\u{424}' => '\u{444}',
        '\u{425}' => '\u{445}',
        '\u{426}' => '\u{446}',
        '\u{427}' => '\u{447}',
        '\u{428}' => '\u{448}',
        '\u{429}' => '\u{449}',
        '\u{42a}' => '\u{44a}',
        '\u{42b}' => '\u{44b}',
        '\u{42c}' => '\u{44c}',
        '\u{42d}' => '\u{44d}',
        '\u{42e}' => '\u{44e}',
        '\u{42f}' => '\u{44f}',
        '\u{400}' => '\u{450}',
        '\u{401}' => '\u{451}',
        '\u{402}' => '\u{452}',
        '\u{403}' => '\u{453}',
        '\u{404}' => '\u{454}',
        '\u{405}' => '\u{455}',
        '\u{406}' => '\u{456}',
        '\u{407}' => '\u{457}',
        '\u{408}' => '\u{458}',
        '\u{409}' => '\u{459}',
        '\u{40a}' => '\u{45a}',
        '\u{40b}' => '\u{45b}',
        '\u{40c}' => '\u{45c}',
        '\u{40d}' => '\u{45d}',
        '\u{40e}' => '\u{45e}',
        '\u{40f}' => '\u{45f}',
        _ => c,
    }
}

fn is_known_case(c: char) -> (res: bool)
    ensures
        res == known_case(c),
{
    let u = c as u32;
    u < 0x100 || (0x391 <= u && u <= 0x3a1) || (0x3a4 <= u && u <= 0x3a9) || (0x3b1 <= u && u <= 0x3c9)
        || (0x400 <= u && u <= 0x45f)
}

/// The lower case of a text (see `text_lowercase`): the characters of
/// `known_case` are mapped here, any other through std's `to_lowercase`.
pub fn lowercase_text(s: &str) -> (res: String)
    ensures
        res@ == text_lowercase(s@),
{
    let x = chars_of(s);
    let n = x.len();
    let mut sigma = false;
    for i in 0..n
        invariant
            n == x@.len(),
            x@ == s@,
            sigma == (exists|j: int| 0 <= j < i && x@[j] == '\u{3a3}'),
    {
        if x[i] == '\u{3a3}' {
            sigma = true;
        }
    }
    if sigma {
        return to_lowercase(s);
    }
    assert(!s@.contains('\u{3a3}'));
    let mut res = String::new();
    for i in 0..n
        invariant
            n == x@.len(),
            x@ == s@,
            res@ == lower_chars(x@.take(i as int)),
    {
        let c = x[i];
        assert(x@.take(i + 1).drop_last() =~= x@.take(i as int));
        assert(x@.take(i + 1).last() == c);
        if is_known_case(c) {
            push_char(&mut res, lower_known(c));
        } else {
            let mut one = String::new();
            push_char(&mut one, c);
            assert(one@ =~= seq![c]);
            let low = to_lowercase(one.as_str());
            res.append(low.as_str());
        }
    }
    assert(x@.take(n as int) =~= x@);
    res
}

/// Whether `p` occurs in `s` as a contiguous run of characters.
pub open spec fn occurs_in(p: Seq<char>, s: Seq<char>) -> bool {
    exists|i: int| 0 <= i && i + p.len() <= s.len() && #[trigger] s.subrange(i, i + p.len()) == p
}

/// Whether `p` occurs in `s` as a contiguous run of characters, as std's
/// `str::contains` with a string pattern tells.
pub(crate) fn contains_text(s: &str, p: &str) -> (res: bool)
    ensures
        res == occurs_in(p@, s@),
{
    let x = chars_of(s);
    let y = chars_of(p);
    let m = y.len();
    if m > x.len() {
        return false;
    }
    let len = x.len();
    let last = len - m;
    let mut i: usize = 0;
    while i <= last
        invariant
            len == x@.len(),
            x@ == s@,
            y@ == p@,
            m == y@.len(),
            last + m == x@.len(),
            forall|q: int| 0 <= q < i ==> #[trigger] x@.subrange(q, q + m) != y@,
        decreases last + 1 - i,
    {
        let mut k: usize = 0;
        while k < m && x[i + k] == y[k]
            invariant
                len == x@.len(),
                x@ == s@,
                y@ == p@,
                m == y@.len(),
                last + m == x@.len(),
                i <= last,
                k <= m,
                forall|r: int| 0 <= r < k ==> x@[i + r] == y@[r],
            decreases m - k,
        {
            k = k + 1;
        }
        if k == m {
            assert(x@.subrange(i as int, i + m) =~= y@);
            return true;
        }
        assert(x@.subrange(i as int, i + m)[k as int] != y@[k as int]);
        i = i + 1;
    }
    proof {
        if occurs_in(p@, s@) {
            let q = choose|q: int| 0 <= q && q + p@.len() <= s@.len() && #[trigger] s@.subrange(q, q + p@.len()) == p@;
            assert(x@.subrange(q, q + m) != y@);
        }
    }
    false
}

/// Lexicographic order on character sequences, which is the order of
/// std's `Ord` on strings (UTF-8 byte order agrees with code point order).
pub open spec fn lex_order(a: Seq<char>, b: Seq<char>) -> Order
    decreases a.len(),
{
    if a.len() == 0 {
        if b.len() == 0 {
            Order::Equal
        } else {
            Order::Less
        }
    } else if b.len() == 0 {
        Order::Greater
    } else if a[0] < b[0] {
        Order::Less
    } else if a[0] > b[0] {
        Order::Greater
    } else {
        lex_order(a.drop_first(), b.drop_first())
    }
}

/// Swapping the arguments of `lex_order` flips the result.
pub proof fn lemma_lex_order_flip(a: Seq<char>, b: Seq<char>)
    ensures
        lex_order(b, a) == lex_order(a, b).flipped(),
    decreases a.len(),
{
    if a.len() > 0 && b.len() > 0 && a[0] == b[0] {
        lemma_lex_order_flip(a.drop_first(), b.drop_first());
    }
}

proof fn lemma_lex_order_skip(a: Seq<char>, b: Seq<char>, i: int)
    requires
        0 <= i <= a.len(),
        i <= b.len(),
        a.take(i) == b.take(i),
    ensures
        lex_order(a, b) == lex_order(a.skip(i), b.skip(i)),
    decreases i,
{
    if i > 0 {
        assert(a[0] == a.take(i)[0]);
        assert(b[0] == b.take(i)[0]);
        assert(a.drop_first().take(i - 1) =~= a.take(i).drop_first());
        assert(b.drop_first().take(i - 1) =~= b.take(i).drop_first());
        lemma_lex_order_skip(a.drop_first(), b.drop_first(), i - 1);
        assert(a.drop_first().skip(i - 1) =~= a.skip(i));
        assert(b.drop_first().skip(i - 1) =~= b.skip(i));
    } else {
        assert(a.skip(0) =~= a);
        assert(b.skip(0) =~= b);
    }
}

/// Compares two strings lexicographically by character.
pub fn compare_text(a: &str, b: &str) -> (res: Order)
    ensures
        res == lex_order(a@, b@),
{
    let x = chars_of(a);
    let y = chars_of(b);
    let mut i: usize = 0;
    while i < x.len() && i < y.len()
        invariant
            x@ == a@,
            y@ == b@,
            i <= x.len(),
            i <= y.len(),
            x@.take(i as int) == y@.take(i as int),
        decreases x.len() - i,
    {
        let c = x[i];
        let d = y[i];
        if c < d {
            proof {
                lemma_lex_order_skip(x@, y@, i as int);
            }
            return Order::Less;
        }
        if c > d {
            proof {
                lemma_lex_order_skip(x@, y@, i as int);
            }
            return Order::Greater;
        }
        assert(c == d);
        assert(x@.take(i + 1) =~= x@.take(i as int).push(c));
        assert(y@.take(i + 1) =~= y@.take(i as int).push(d));
        i = i + 1;
    }
    proof {
        lemma_lex_order_skip(x@, y@, i as int);
    }
    if i < x.len() {
        Order::Greater
    } else if i < y.len() {
        Order::Less
    } else {
        Order::Equal
    }
}

/// The decimal digits of `n`, most significant first, without leading zeros
/// (a single `0` for zero).
pub open spec fn decimal(n: nat) -> Seq<char>
    decreases n,
{
    if n < 10 {
        seq![digit_char(n)]
    } else {
        decimal(n / 10).push(digit_char(n % 10))
    }
}

pub open spec fn digit_char(d: nat) -> char {
    if d == 0 { '0' }
    else if d == 1 { '1' }
    else if d == 2 { '2' }
    else if d == 3 { '3' }
    else if d == 4 { '4' }
    else if d == 5 { '5' }
    else if d == 6 { '6' }
    else if d == 7 { '7' }
    else if d == 8 { '8' }
    else { '9' }
}

fn digit(d: usize) -> (c: char)
    requires
        d < 10,
    ensures
        c == digit_char(d as nat),
{
    if d == 0 { '0' }
    else if d == 1 { '1' }
    else if d == 2 { '2' }
    else if d == 3 { '3' }
    else if d == 4 { '4' }
    else if d == 5 { '5' }
    else if d == 6 { '6' }
    else if d == 7 { '7' }
    else if d == 8 { '8' }
    else { '9' }
}

fn decimal_chars(n: usize) -> (res: Vec<char>)
    ensures
        res@ == decimal(n as nat),
    decreases n,
{
    if n < 10 {
        let mut v: Vec<char> = Vec::new();
        v.push(digit(n));
        assert(v@ =~= seq![digit_char(n as nat)]);
        v
    } else {
        let mut v = decimal_chars(n / 10);
        v.push(digit(n % 10));
        v
    }
}

/// Renders `n` in decimal, as `format!("{}", n)` does.
pub fn decimal_text(n: usize) -> (res: String)
    ensures
        res@ == decimal(n as nat),
{
    let v = decimal_chars(n);
    string_of(v.as_slice())
}

} // verus!
