//! Lexical analysis: turns text into the ordered sequence of tokens.
use vstd::prelude::*;
use vstd::string::*;
use crate::error::Error;

verus! {

/// One lexical unit. A numeral carries its text, normalised so that a
/// leading `.` gets a `0` in front of it (`.35` becomes `0.35`).
#[derive(Debug, PartialEq)]
pub enum Token {
    LParen,
    RParen,
    Plus,
    Minus,
    Star,
    Slash,
    Caret,
    Percent,
    Numeral(String),
    EOF,
}

/// The mathematical value of a token.
pub enum Lexeme {
    LParen,
    RParen,
    Plus,
    Minus,
    Star,
    Slash,
    Caret,
    Percent,
    Numeral(Seq<char>),
    EOF,
}

impl View for Token {
    type V = Lexeme;

    open spec fn view(&self) -> Lexeme {
        match self {
            Token::LParen => Lexeme::LParen,
            Token::RParen => Lexeme::RParen,
            Token::Plus => Lexeme::Plus,
            Token::Minus => Lexeme::Minus,
            Token::Star => Lexeme::Star,
            Token::Slash => Lexeme::Slash,
            Token::Caret => Lexeme::Caret,
            Token::Percent => Lexeme::Percent,
            Token::Numeral(t) => Lexeme::Numeral(t@),
            Token::EOF => Lexeme::EOF,
        }
    }
}

pub open spec fn lexemes(ts: Seq<Token>) -> Seq<Lexeme> {
    ts.map_values(|t: Token| t@)
}

pub open spec fn is_digit(c: char) -> bool {
    '0' <= c && c <= '9'
}

pub open spec fn is_operator(c: char) -> bool {
    c == '(' || c == ')' || c == '+' || c == '-' || c == '*' || c == '/' || c == '^' || c == '%'
}

/// The characters that `char::is_whitespace` accepts: Unicode's White_Space.
pub open spec fn is_whitespace(c: char) -> bool {
    ('\u{9}' <= c && c <= '\u{d}') || c == ' ' || c == '\u{85}' || c == '\u{a0}' || c
        == '\u{1680}' || ('\u{2000}' <= c && c <= '\u{200a}') || c == '\u{2028}' || c == '\u{2029}'
        || c == '\u{202f}' || c == '\u{205f}' || c == '\u{3000}'
}

/// The characters that may stand in an expression.
pub open spec fn in_alphabet(c: char) -> bool {
    is_digit(c) || c == '.' || is_operator(c) || is_whitespace(c)
}

pub open spec fn operator_lexeme(c: char) -> Lexeme {
    if c == '(' {
        Lexeme::LParen
    } else if c == ')' {
        Lexeme::RParen
    } else if c == '+' {
        Lexeme::Plus
    } else if c == '-' {
        Lexeme::Minus
    } else if c == '*' {
        Lexeme::Star
    } else if c == '/' {
        Lexeme::Slash
    } else if c == '^' {
        Lexeme::Caret
    } else {
        Lexeme::Percent
    }
}

/// Number of digits at the front of `s`.
pub open spec fn digit_run(s: Seq<char>) -> nat
    decreases s.len(),
{
    if s.len() > 0 && is_digit(s[0]) {
        1 + digit_run(s.drop_first())
    } else {
        0
    }
}

/// Length of the numeral at the front of `s` (0 if none): digits, optionally
/// followed by `.` and at least one digit, or `.` and at least one digit.
pub open spec fn numeral_len(s: Seq<char>) -> nat {
    let d = digit_run(s) as int;
    if d + 1 < s.len() && s[d] == '.' && is_digit(s[d + 1]) {
        (d + 1 + digit_run(s.skip(d + 1))) as nat
    } else {
        d as nat
    }
}

/// The text a numeral token carries for the numeral `m`.
pub open spec fn normalized(m: Seq<char>) -> Seq<char> {
    if m.len() > 0 && m[0] == '.' {
        seq!['0'] + m
    } else {
        m
    }
}

/// Left-to-right scan: the tokens found, and the characters that belong to none.
pub open spec fn scan(s: Seq<char>) -> (Seq<Lexeme>, Seq<char>)
    decreases s.len(),
    via scan_decreases
{
    if s.len() == 0 {
        (seq![], seq![])
    } else if is_operator(s[0]) {
        let r = scan(s.drop_first());
        (seq![operator_lexeme(s[0])] + r.0, r.1)
    } else if numeral_len(s) > 0 {
        let n = numeral_len(s);
        let r = scan(s.skip(n as int));
        (seq![Lexeme::Numeral(normalized(s.take(n as int)))] + r.0, r.1)
    } else {
        let r = scan(s.drop_first());
        (r.0, seq![s[0]] + r.1)
    }
}

#[via_fn]
proof fn scan_decreases(s: Seq<char>) {
    if s.len() > 0 {
        lemma_numeral_len_bound(s);
    }
}

pub proof fn lemma_digit_run_bound(s: Seq<char>)
    ensures
        digit_run(s) <= s.len(),
        forall|k: int| 0 <= k < digit_run(s) ==> is_digit(#[trigger] s[k]),
        digit_run(s) < s.len() ==> !is_digit(s[digit_run(s) as int]),
    decreases s.len(),
{
    if s.len() > 0 && is_digit(s[0]) {
        lemma_digit_run_bound(s.drop_first());
        assert forall|k: int| 0 <= k < digit_run(s) implies is_digit(#[trigger] s[k]) by {
            if k > 0 {
                assert(s[k] == s.drop_first()[k - 1]);
            }
        }
    }
}

pub proof fn lemma_numeral_len_bound(s: Seq<char>)
    ensures
        numeral_len(s) <= s.len(),
{
    lemma_digit_run_bound(s);
    let d = digit_run(s) as int;
    if d + 1 < s.len() && s[d] == '.' && is_digit(s[d + 1]) {
        lemma_digit_run_bound(s.skip(d + 1));
    }
}

/// Drops leading whitespace.
pub open spec fn trim_start(s: Seq<char>) -> Seq<char>
    decreases s.len(),
{
    if s.len() > 0 && is_whitespace(s[0]) {
        trim_start(s.drop_first())
    } else {
        s
    }
}

/// Drops trailing whitespace.
pub open spec fn trim_end(s: Seq<char>) -> Seq<char>
    decreases s.len(),
{
    if s.len() > 0 && is_whitespace(s.last()) {
        trim_end(s.drop_last())
    } else {
        s
    }
}

pub open spec fn trim(s: Seq<char>) -> Seq<char> {
    trim_end(trim_start(s))
}

/// What `tokenize` yields: the tokens, when no character outside the tokens
/// is anything but whitespace.
pub open spec fn lex(s: Seq<char>) -> Option<Seq<Lexeme>> {
    if trim(scan(s).1).len() == 0 {
        Some(scan(s).0)
    } else {
        None
    }
}

pub open spec fn leftover_message(s: Seq<char>) -> Seq<char> {
    "Unexpected characters: '"@ + trim(scan(s).1) + "'"@
}

/// A numeral as the language writes it: digits, or digits (possibly none)
/// followed by `.` and at least one digit.
pub open spec fn is_numeral(n: Seq<char>) -> bool {
    ||| n.len() > 0 && forall|k: int| 0 <= k < n.len() ==> is_digit(#[trigger] n[k])
    ||| exists|d: int|
        0 <= d && d + 1 < n.len() && #[trigger] n[d] == '.' && (forall|k: int|
            0 <= k < n.len() && k != d ==> is_digit(#[trigger] n[k]))
}

proof fn lemma_digit_run_exact(s: Seq<char>, k: int)
    requires
        0 <= k <= s.len(),
        forall|j: int| 0 <= j < k ==> is_digit(#[trigger] s[j]),
        k == s.len() || !is_digit(s[k]),
    ensures
        digit_run(s) == k,
    decreases k,
{
    if k > 0 {
        let t = s.drop_first();
        assert forall|j: int| 0 <= j < k - 1 implies is_digit(#[trigger] t[j]) by {
            assert(t[j] == s[j + 1]);
        }
        if k < s.len() {
            assert(t[k - 1] == s[k]);
        }
        lemma_digit_run_exact(t, k - 1);
    }
}

/// A numeral on its own is read as exactly one numeral token, which carries
/// its text with a leading `.` given a `0` in front of it.
pub proof fn lemma_numeral_is_one_token(n: Seq<char>)
    requires
        is_numeral(n),
    ensures
        lex(n) == Some(seq![Lexeme::Numeral(normalized(n))]),
{
    let len = n.len() as int;
    if n.len() > 0 && forall|k: int| 0 <= k < n.len() ==> is_digit(#[trigger] n[k]) {
        lemma_digit_run_exact(n, len);
    } else {
        let d = choose|d: int|
            0 <= d && d + 1 < n.len() && #[trigger] n[d] == '.' && (forall|k: int|
                0 <= k < n.len() && k != d ==> is_digit(#[trigger] n[k]));
        lemma_digit_run_exact(n, d);
        let t = n.skip(d + 1);
        assert forall|j: int| 0 <= j < t.len() implies is_digit(#[trigger] t[j]) by {
            assert(t[j] == n[d + 1 + j]);
        }
        lemma_digit_run_exact(t, t.len() as int);
        assert(is_digit(n[d + 1]));
    }
    assert(numeral_len(n) == len);
    assert(n.take(len) =~= n);
    assert(n.skip(len) =~= Seq::<char>::empty());
    assert(scan(Seq::<char>::empty()) == (Seq::<Lexeme>::empty(), Seq::<char>::empty()));
    assert(scan(n).0 =~= seq![Lexeme::Numeral(normalized(n))]);
    assert(scan(n).1 =~= Seq::<char>::empty());
}

proof fn lemma_numeral_chars(s: Seq<char>, j: int)
    requires
        0 <= j < numeral_len(s),
    ensures
        is_digit(s[j]) || s[j] == '.',
{
    lemma_digit_run_bound(s);
    let d = digit_run(s) as int;
    if j > d {
        let t = s.skip(d + 1);
        lemma_digit_run_bound(t);
        assert(s[j] == t[j - d - 1]);
    }
}

proof fn lemma_foreign_char_left_over(s: Seq<char>, k: int)
    requires
        0 <= k < s.len(),
        !in_alphabet(s[k]),
    ensures
        scan(s).1.contains(s[k]),
    decreases s.len(),
{
    let c = s[k];
    if is_operator(s[0]) {
        assert(s.drop_first()[k - 1] == c);
        lemma_foreign_char_left_over(s.drop_first(), k - 1);
    } else if numeral_len(s) > 0 {
        let n = numeral_len(s) as int;
        lemma_numeral_len_bound(s);
        if k < n {
            lemma_numeral_chars(s, k);
        }
        assert(s.skip(n)[k - n] == c);
        lemma_foreign_char_left_over(s.skip(n), k - n);
    } else if k == 0 {
        assert(scan(s).1[0] == c);
    } else {
        let t = s.drop_first();
        assert(t[k - 1] == c);
        lemma_foreign_char_left_over(t, k - 1);
        let j = choose|j: int| 0 <= j < scan(t).1.len() && scan(t).1[j] == c;
        assert(scan(s).1[j + 1] == c);
    }
}

proof fn lemma_trim_keeps(x: Seq<char>, c: char)
    requires
        x.contains(c),
        !is_whitespace(c),
    ensures
        trim_start(x).contains(c),
        trim_end(x).contains(c),
    decreases x.len(),
{
    let j = choose|j: int| 0 <= j < x.len() && x[j] == c;
    if x.len() > 0 && is_whitespace(x[0]) {
        assert(x.drop_first()[j - 1] == c);
        lemma_trim_keeps(x.drop_first(), c);
    }
    if x.len() > 0 && is_whitespace(x.last()) {
        assert(x.drop_last()[j] == c);
        lemma_trim_keeps(x.drop_last(), c);
    }
}

/// Any character outside the language's alphabet makes lexing fail.
pub proof fn lemma_foreign_char_rejected(s: Seq<char>, k: int)
    requires
        0 <= k < s.len(),
        !in_alphabet(s[k]),
    ensures
        lex(s) is None,
{
    lemma_foreign_char_left_over(s, k);
    lemma_trim_keeps(scan(s).1, s[k]);
    lemma_trim_keeps(trim_start(scan(s).1), s[k]);
}

fn is_digit_char(c: char) -> (r: bool)
    ensures
        r == is_digit(c),
{
    '0' <= c && c <= '9'
}

fn is_whitespace_char(c: char) -> (r: bool)
    ensures
        r == is_whitespace(c),
{
    ('\u{9}' <= c && c <= '\u{d}') || c == ' ' || c == '\u{85}' || c == '\u{a0}' || c
        == '\u{1680}' || ('\u{2000}' <= c && c <= '\u{200a}') || c == '\u{2028}' || c == '\u{2029}'
        || c == '\u{202f}' || c == '\u{205f}' || c == '\u{3000}'
}

/// The token of an operator character, if `c` is one.
fn operator_token(c: char) -> (r: Option<Token>)
    ensures
        r is Some <==> is_operator(c),
        r matches Some(t) ==> t@ == operator_lexeme(c),
{
    if c == '(' {
        Some(Token::LParen)
    } else if c == ')' {
        Some(Token::RParen)
    } else if c == '+' {
        Some(Token::Plus)
    } else if c == '-' {
        Some(Token::Minus)
    } else if c == '*' {
        Some(Token::Star)
    } else if c == '/' {
        Some(Token::Slash)
    } else if c == '^' {
        Some(Token::Caret)
    } else if c == '%' {
        Some(Token::Percent)
    } else {
        None
    }
}

/// The characters of `s`, one by one.
fn chars_of(s: &str) -> (r: Vec<char>)
    ensures
        r@ == s@,
{
    let n = s.unicode_len();
    let mut r: Vec<char> = Vec::new();
    let mut i: usize = 0;
    while i < n
        invariant
            n == s@.len(),
            i <= n,
            r@ == s@.take(i as int),
        decreases n - i,
    {
        r.push(s.get_char(i));
        i = i + 1;
        assert(r@ =~= s@.take(i as int));
    }
    assert(r@ =~= s@);
    r
}

/// End of the run of digits that starts at `i`.
fn digits_end(cs: &Vec<char>, i: usize) -> (j: usize)
    requires
        i <= cs@.len(),
    ensures
        i <= j <= cs@.len(),
        j - i == digit_run(cs@.skip(i as int)),
{
    let mut j = i;
    while j < cs.len() && is_digit_char(cs[j])
        invariant
            i <= j <= cs@.len(),
            digit_run(cs@.skip(i as int)) == (j - i) + digit_run(cs@.skip(j as int)),
        decreases cs@.len() - j,
    {
        assert(cs@.skip(j as int).drop_first() =~= cs@.skip(j + 1));
        j = j + 1;
    }
    j
}

/// Length of the numeral that starts at `i` (0 if none).
fn numeral_len_at(cs: &Vec<char>, i: usize) -> (n: usize)
    requires
        i <= cs@.len(),
    ensures
        n == numeral_len(cs@.skip(i as int)),
        i + n <= cs@.len(),
{
    let ghost s = cs@.skip(i as int);
    let j = digits_end(cs, i);
    if cs.len() - j > 1 && cs[j] == '.' && is_digit_char(cs[j + 1]) {
        let k = digits_end(cs, j + 1);
        assert(s.skip(j - i + 1) =~= cs@.skip(j + 1));
        k - i
    } else {
        j - i
    }
}

/// `s` without its leading and trailing whitespace.
fn trimmed(s: &String) -> (r: String)
    ensures
        r@ == trim(s@),
{
    let t = s.as_str();
    let n = t.unicode_len();
    let mut a: usize = 0;
    assert(s@.skip(0) =~= s@);
    while a < n && is_whitespace_char(t.get_char(a))
        invariant
            n == s@.len(),
            t@ == s@,
            a <= n,
            trim_start(s@) == trim_start(s@.skip(a as int)),
        decreases n - a,
    {
        assert(s@.skip(a as int).drop_first() =~= s@.skip(a + 1));
        a = a + 1;
    }
    let mut b: usize = n;
    while b > a && is_whitespace_char(t.get_char(b - 1))
        invariant
            n == s@.len(),
            t@ == s@,
            a <= b <= n,
            trim_start(s@) == s@.skip(a as int),
            trim(s@) == trim_end(s@.subrange(a as int, b as int)),
        decreases b,
    {
        assert(s@.subrange(a as int, b as int).drop_last() =~= s@.subrange(a as int, b - 1));
        b = b - 1;
    }
    assert(trim_start(s@) =~= s@.subrange(a as int, n as int)) by {
        assert(s@.skip(a as int) =~= s@.subrange(a as int, n as int));
    }
    t.substring_char(a, b).to_owned()
}

/// Matches the input for all tokens of the language, left to right; fails
/// when anything but whitespace is left between them.
pub fn tokenize(input: &str) -> (r: Result<Vec<Token>, Error>)
    ensures
        r is Ok <==> lex(input@) is Some,
        r matches Ok(ts) ==> lex(input@) == Some(lexemes(ts@)),
        r matches Err(e) ==> e matches Error::LexingError(m) && m@ == leftover_message(input@),
{
    let cs = chars_of(input);
    let ghost s = input@;
    let n = cs.len();
    let mut tokens: Vec<Token> = Vec::new();
    let mut leftover = String::new();
    let mut i: usize = 0;
    assert(s.skip(0) =~= s);
    assert(lexemes(tokens@) =~= Seq::<Lexeme>::empty());
    while i < n
        invariant
            cs@ == s,
            s == input@,
            n == s.len(),
            i <= n,
            scan(s) == (lexemes(tokens@) + scan(s.skip(i as int)).0, leftover@ + scan(
                s.skip(i as int),
            ).1),
        decreases n - i,
    {
        let ghost rest = s.skip(i as int);
        let c = cs[i];
        match operator_token(c) {
            Some(t) => {
                assert(rest.drop_first() =~= s.skip(i + 1));
                tokens.push(t);
                i = i + 1;
                assert(lexemes(tokens@) =~= lexemes(tokens@.drop_last()) + seq![operator_lexeme(c)]);
            },
            None => {
                let len = numeral_len_at(&cs, i);
                if len > 0 {
                    let text = input.substring_char(i, i + len);
                    let numeral = if c == '.' {
                        String::from_str("0").concat(text)
                    } else {
                        text.to_owned()
                    };
                    assert(rest.skip(len as int) =~= s.skip(i + len));
                    assert(rest.take(len as int) =~= text@);
                    proof {
                        reveal_strlit("0");
                        assert(numeral@ =~= normalized(rest.take(len as int)));
                    }
                    tokens.push(Token::Numeral(numeral));
                    i = i + len;
                    assert(lexemes(tokens@) =~= lexemes(tokens@.drop_last()) + seq![
                        Lexeme::Numeral(normalized(rest.take(len as int))),
                    ]);
                } else {
                    let ghost before = leftover@;
                    leftover.append(input.substring_char(i, i + 1));
                    assert(rest.drop_first() =~= s.skip(i + 1));
                    i = i + 1;
                    assert(leftover@ + scan(s.skip(i as int)).1 =~= before + (seq![c] + scan(
                        s.skip(i as int),
                    ).1));
                }
            },
        }
        assert(scan(s).0 =~= lexemes(tokens@) + scan(s.skip(i as int)).0);
        assert(scan(s).1 =~= leftover@ + scan(s.skip(i as int)).1);
    }
    assert(s.skip(n as int) =~= Seq::<char>::empty());
    assert(scan(s).0 =~= lexemes(tokens@));
    assert(scan(s).1 =~= leftover@);
    let rest = trimmed(&leftover);
    if rest.as_str().unicode_len() > 0 {
        let message = String::from_str("Unexpected characters: '").concat(rest.as_str()).concat(
            "'",
        );
        Err(Error::LexingError(message))
    } else {
        Ok(tokens)
    }
}

} // verus!
