//! Indentation-sensitive tokenizer of the script language.
use vstd::prelude::*;
use vstd::string::*;

use crate::parser::{out_view, ParserError, Token, TokenV};

verus! {

/// Unicode `White_Space`.
pub open spec fn is_white(c: char) -> bool {
    let u = c as u32;
    (9 <= u && u <= 13) || u == 32 || u == 0x85 || u == 0xA0 || u == 0x1680
        || (0x2000 <= u && u <= 0x200A) || u == 0x2028 || u == 0x2029 || u == 0x202F
        || u == 0x205F || u == 0x3000
}

/// ASCII punctuation.
pub open spec fn is_punctuation(c: char) -> bool {
    let u = c as u32;
    (33 <= u && u <= 47) || (58 <= u && u <= 64) || (91 <= u && u <= 96) || (123 <= u && u <= 126)
}

pub open spec fn is_digit(c: char) -> bool {
    '0' <= c && c <= '9'
}

/// A character that continues an identifier or a number.
pub open spec fn is_word(c: char) -> bool {
    !is_white(c) && (c == '-' || c == '.' || !is_punctuation(c))
}

/// The first index from `i` on that holds no tab.
pub open spec fn tabs_end(s: Seq<char>, i: int) -> int
    decreases s.len() - i,
{
    if i < 0 || i >= s.len() || s[i] != '\t' {
        i
    } else {
        tabs_end(s, i + 1)
    }
}

/// The first index from `i` on that does not continue a word.
pub open spec fn word_end(s: Seq<char>, i: int) -> int
    decreases s.len() - i,
{
    if i < 0 || i >= s.len() || !is_word(s[i]) {
        i
    } else {
        word_end(s, i + 1)
    }
}

/// The first index from `i` on that holds no digit.
pub open spec fn digits_end(s: Seq<char>, i: int) -> int
    decreases s.len() - i,
{
    if i < 0 || i >= s.len() || !is_digit(s[i]) {
        i
    } else {
        digits_end(s, i + 1)
    }
}

/// Where the scan of a string literal whose text starts at `i` stops: at the
/// closing quote, at a line break, or at the end. A backslash takes the
/// character after it along.
pub open spec fn quote_end(s: Seq<char>, i: int) -> int
    decreases if i < s.len() { s.len() - i } else { 0 },
{
    if i < 0 || i >= s.len() {
        s.len() as int
    } else if s[i] == '"' || s[i] == '\n' {
        i
    } else if s[i] == '\\' {
        quote_end(s, i + 2)
    } else {
        quote_end(s, i + 1)
    }
}

/// `s` with each pair `a b`, found from left to right without overlap,
/// replaced by `c`.
pub open spec fn replace_pair(s: Seq<char>, a: char, b: char, c: char) -> Seq<char>
    decreases s.len(),
{
    if s.len() == 0 {
        s
    } else if s.len() >= 2 && s[0] == a && s[1] == b {
        seq![c] + replace_pair(s.subrange(2, s.len() as int), a, b, c)
    } else {
        seq![s[0]] + replace_pair(s.subrange(1, s.len() as int), a, b, c)
    }
}

/// The text of a string literal: every `\n` becomes a line break, and then
/// every `\"` a quote; any other backslash stays as it is.
pub open spec fn unescape(s: Seq<char>) -> Seq<char> {
    replace_pair(replace_pair(s, '\\', 'n', '\n'), '\\', '"', '"')
}

/// The value of a string of decimal digits.
pub open spec fn digits_value(d: Seq<char>) -> int
    decreases d.len(),
{
    if d.len() == 0 {
        0
    } else {
        digits_value(d.drop_last()) * 10 + (d.last() as u32 - '0' as u32)
    }
}

/// Thousandths given by the digits after a decimal point; later digits are dropped.
pub open spec fn fraction_value(d: Seq<char>) -> int {
    if d.len() == 0 {
        0
    } else if d.len() == 1 {
        digits_value(d) * 100
    } else if d.len() == 2 {
        digits_value(d) * 10
    } else {
        digits_value(d.subrange(0, 3))
    }
}

/// Largest magnitude of a number in a script, in thousandths.
pub const NUMERIC_LIMIT: i64 = 1_000_000_000_000;

/// The value in thousandths of a decimal `-?D*(.D*)?` with at least one digit
/// and a magnitude of at most `NUMERIC_LIMIT`; `None` for anything else.
pub open spec fn decimal_value(w: Seq<char>) -> Option<int> {
    let negative = w.len() > 0 && w[0] == '-';
    let b = if negative { w.subrange(1, w.len() as int) } else { w };
    let k = digits_end(b, 0);
    let whole = b.subrange(0, k);
    let fraction = if k < b.len() { b.subrange(k + 1, b.len() as int) } else { Seq::empty() };
    let magnitude = digits_value(whole) * 1000 + fraction_value(fraction);
    if k < b.len() && (b[k] != '.' || digits_end(b, k + 1) != b.len()) {
        None
    } else if whole.len() + fraction.len() == 0 || magnitude < 0 || magnitude > NUMERIC_LIMIT {
        None
    } else if negative {
        Some(-magnitude)
    } else {
        Some(magnitude)
    }
}

/// The state of the lexer between two tokens.
pub struct LexState {
    pub position: nat,
    pub indentation: nat,
    pub target_indent: nat,
    pub new_line: bool,
}

pub open spec fn remaining(s: Seq<char>, st: LexState) -> nat {
    if st.position <= s.len() { (s.len() - st.position) as nat } else { 0 }
}

/// One call of the lexer: the state after it and what it hands out.
pub open spec fn lex_step(s: Seq<char>, st: LexState) -> (LexState, Option<Result<TokenV, ParserError>>)
    decreases remaining(s, st), if st.new_line { 1int } else { 0int }, st.target_indent,
{
    let p = st.position as int;
    if st.indentation < st.target_indent {
        (LexState { indentation: st.indentation + 1, ..st }, Some(Ok(TokenV::ScopeOpen)))
    } else if st.indentation > st.target_indent {
        (LexState { indentation: (st.indentation - 1) as nat, ..st }, Some(Ok(TokenV::ScopeClose)))
    } else if st.new_line {
        let j = tabs_end(s, p as int);
        let t = if j < s.len() && s[j] != '\n' { (j - p) as nat } else { st.target_indent };
        if p <= j {
            lex_step(s, LexState { position: j as nat, target_indent: t, new_line: false, ..st })
        } else {
            (st, None)
        }
    } else if p >= s.len() {
        if st.target_indent == 0 {
            (st, None)
        } else {
            lex_step(s, LexState { target_indent: 0, ..st })
        }
    } else {
        let c = s[p];
        let next = LexState { position: (p + 1) as nat, ..st };
        if c == '(' {
            (next, Some(Ok(TokenV::BracketOpen)))
        } else if c == ')' {
            (next, Some(Ok(TokenV::BracketClose)))
        } else if c == '[' {
            (next, Some(Ok(TokenV::SquareOpen)))
        } else if c == ']' {
            (next, Some(Ok(TokenV::SquareClose)))
        } else if c == ',' {
            (next, Some(Ok(TokenV::ListSeparator)))
        } else if c == '_' {
            (next, Some(Ok(TokenV::Underscore)))
        } else if c == '\n' {
            (LexState { new_line: true, ..next }, Some(Ok(TokenV::Terminator)))
        } else if c == '"' {
            let e = quote_end(s, p + 1);
            if e < s.len() && s[e] == '"' {
                (
                    LexState { position: (e + 1) as nat, ..st },
                    Some(Ok(TokenV::Str(unescape(s.subrange(p + 1, e))))),
                )
            } else {
                (LexState { position: e as nat, ..st }, Some(Err(ParserError::UnmatchedQuote)))
            }
        } else if is_white(c) {
            lex_step(s, next)
        } else {
            let e = word_end(s, p + 1);
            let w = s.subrange(p, e);
            let after = LexState { position: e as nat, ..st };
            if c == '-' || is_digit(c) {
                match decimal_value(w) {
                    Some(v) => (after, Some(Ok(TokenV::Numeric(v)))),
                    None => (after, Some(Err(ParserError::InvalidNumeric))),
                }
            } else {
                (after, Some(Ok(TokenV::Identifier(w))))
            }
        }
    }
}


/// Relies on `String::push`: the character is appended.
#[verifier::external_body]
fn push_char(s: &mut String, c: char)
    ensures
        final(s)@ == old(s)@.push(c),
{
    s.push(c)
}

/// The string made of the characters `cs[from..to]`.
pub fn string_of(cs: &Vec<char>, from: usize, to: usize) -> (r: String)
    requires
        from <= to <= cs.len(),
    ensures
        r@ == cs@.subrange(from as int, to as int),
{
    let mut r = String::new();
    let mut i = from;
    while i < to
        invariant
            from <= i <= to <= cs.len(),
            r@ == cs@.subrange(from as int, i as int),
        decreases to - i,
    {
        push_char(&mut r, cs[i]);
        assert(cs@.subrange(from as int, i + 1) =~= cs@.subrange(from as int, i as int).push(cs@[i as int]));
        i = i + 1;
    }
    r
}

/// The characters of a string.
pub fn chars_of(s: &str) -> (r: Vec<char>)
    ensures
        r@ == s@,
{
    let n = s.unicode_len();
    let mut r: Vec<char> = Vec::new();
    let mut i: usize = 0;
    while i < n
        invariant
            n == s@.len(),
            i <= n,
            r@ == s@.subrange(0, i as int),
        decreases n - i,
    {
        r.push(s.get_char(i));
        assert(s@.subrange(0, i + 1) =~= s@.subrange(0, i as int).push(s@[i as int]));
        i = i + 1;
    }
    assert(s@.subrange(0, n as int) =~= s@);
    r
}

pub fn white(c: char) -> (r: bool)
    ensures
        r == is_white(c),
{
    let u = c as u32;
    (9 <= u && u <= 13) || u == 32 || u == 0x85 || u == 0xA0 || u == 0x1680
        || (0x2000 <= u && u <= 0x200A) || u == 0x2028 || u == 0x2029 || u == 0x202F
        || u == 0x205F || u == 0x3000
}

fn word(c: char) -> (r: bool)
    ensures
        r == is_word(c),
{
    let u = c as u32;
    let punctuation = (33 <= u && u <= 47) || (58 <= u && u <= 64) || (91 <= u && u <= 96)
        || (123 <= u && u <= 126);
    !white(c) && (c == '-' || c == '.' || !punctuation)
}

fn digit(c: char) -> (r: bool)
    ensures
        r == is_digit(c),
{
    '0' <= c && c <= '9'
}

/// `cs[from..to]` with each pair `a b` replaced by `c`.
fn replace_pair_of(cs: &Vec<char>, from: usize, to: usize, a: char, b: char, c: char) -> (r: Vec<char>)
    requires
        from <= to <= cs.len(),
    ensures
        r@ == replace_pair(cs@.subrange(from as int, to as int), a, b, c),
{
    let ghost s = cs@;
    let mut r: Vec<char> = Vec::new();
    let mut i = from;
    while i < to
        invariant
            from <= i <= to <= cs.len(),
            s == cs@,
            replace_pair(s.subrange(from as int, to as int), a, b, c) == r@ + replace_pair(s.subrange(i as int, to as int), a, b, c),
        decreases to - i,
    {
        let ghost rest = s.subrange(i as int, to as int);
        let ghost before = r@;
        if to - i >= 2 && cs[i] == a && cs[i + 1] == b {
            r.push(c);
            assert(rest.subrange(2, rest.len() as int) =~= s.subrange(i + 2, to as int));
            assert(before + (seq![c] + replace_pair(s.subrange(i + 2, to as int), a, b, c)) =~= r@ + replace_pair(s.subrange(i + 2, to as int), a, b, c));
            i = i + 2;
        } else {
            r.push(cs[i]);
            assert(rest.subrange(1, rest.len() as int) =~= s.subrange(i + 1, to as int));
            assert(before + (seq![s[i as int]] + replace_pair(s.subrange(i + 1, to as int), a, b, c)) =~= r@ + replace_pair(s.subrange(i + 1, to as int), a, b, c));
            i = i + 1;
        }
    }
    assert(replace_pair(s.subrange(to as int, to as int), a, b, c) =~= Seq::<char>::empty());
    assert(r@ + Seq::<char>::empty() =~= r@);
    r
}

/// The text of a string literal held in `cs[from..to]`, its escapes resolved.
fn unescape_range(cs: &Vec<char>, from: usize, to: usize) -> (r: String)
    requires
        from <= to <= cs.len(),
    ensures
        r@ == unescape(cs@.subrange(from as int, to as int)),
{
    let lines = replace_pair_of(cs, from, to, '\\', 'n', '\n');
    let quotes = replace_pair_of(&lines, 0, lines.len(), '\\', '"', '"');
    assert(lines@.subrange(0, lines@.len() as int) =~= lines@);
    let r = string_of(&quotes, 0, quotes.len());
    assert(quotes@.subrange(0, quotes@.len() as int) =~= quotes@);
    r
}

/// Resolves the escapes of the text of a string literal.
pub fn escape(string: String) -> (r: String)
    ensures
        r@ == unescape(string@),
{
    let cs = chars_of(string.as_str());
    let r = unescape_range(&cs, 0, cs.len());
    assert(cs@.subrange(0, cs.len() as int) =~= string@);
    r
}

proof fn lemma_digits_step(w: Seq<char>, a: int, i: int)
    requires
        0 <= a <= i < w.len(),
    ensures
        digits_value(w.subrange(a, i + 1)) == digits_value(w.subrange(a, i)) * 10 + (w[i] as u32 - '0' as u32),
{
    assert(w.subrange(a, i + 1).drop_last() =~= w.subrange(a, i));
}

/// Parses the decimal `w` into thousandths.
pub fn decimal(w: &Vec<char>) -> (r: Option<i64>)
    ensures
        r matches Some(v) ==> decimal_value(w@) == Some(v as int),
        r is None ==> decimal_value(w@) is None,
{
    let ghost s = w@;
    let n = w.len();
    let negative = n > 0 && w[0] == '-';
    let start: usize = if negative { 1 } else { 0 };
    let ghost b = if negative { s.subrange(1, n as int) } else { s };
    assert(b =~= s.subrange(start as int, n as int));
    let cap: i64 = 1_000_000_001;
    let mut k = start;
    let mut whole: i64 = 0;
    let ghost mut exact: int = 0;
    while k < n && digit(w[k])
        invariant
            start <= k <= n == w.len(),
            s == w@,
            b == s.subrange(start as int, n as int),
            digits_end(b, 0) == digits_end(b, k - start),
            exact == digits_value(b.subrange(0, k - start)),
            exact >= 0,
            cap == 1_000_000_001,
            0 <= whole <= cap,
            whole == if exact < cap { exact } else { cap as int },
        decreases n - k,
    {
        let d = (w[k] as u32 - '0' as u32) as i64;
        proof {
            lemma_digits_step(b, 0, k - start);
            exact = exact * 10 + d;
        }
        whole = if whole * 10 + d < cap { whole * 10 + d } else { cap };
        k = k + 1;
    }
    let ghost kk = k - start;
    assert(digits_end(b, 0) == kk);
    assert(b.subrange(0, kk) =~= s.subrange(start as int, k as int));
    let mut fraction: i64 = 0;
    let mut count: usize = 0;
    if k < n {
        if w[k] != '.' {
            return None;
        }
        let mut i = k + 1;
        let ghost f = b.subrange(kk + 1, b.len() as int);
        while i < n && digit(w[i])
            invariant
                start <= k,
                k + 1 <= i <= n == w.len(),
                s == w@,
                b.len() == n - start,
                b == s.subrange(start as int, n as int),
                kk == k - start,
                f == b.subrange(kk + 1, b.len() as int),
                digits_end(b, kk + 1) == digits_end(b, i - start),
                count == i - k - 1,
                fraction == digits_value(f.subrange(0, if count < 3 { count as int } else { 3 })),
                0 <= fraction < 1000,
                count == 0 ==> fraction == 0,
                count == 1 ==> fraction < 10,
                count == 2 ==> fraction < 100,
            decreases n - i,
        {
            assert(b[i - start] == w@[i as int]);
            assert(f[count as int] == w@[i as int]);
            if count < 3 {
                let d = (w[i] as u32 - '0' as u32) as i64;
                proof {
                    lemma_digits_step(f, 0, count as int);
                }
                fraction = fraction * 10 + d;
            }
            count = count + 1;
            i = i + 1;
        }
        if i < n {
            return None;
        }
        assert(f.subrange(0, f.len() as int) =~= f);
        if count == 1 {
            fraction = fraction * 100;
        } else if count == 2 {
            fraction = fraction * 10;
        }
    } else {
        assert(b.subrange(0, kk) =~= b);
    }
    if k == start && count == 0 {
        return None;
    }
    if whole >= cap {
        return None;
    }
    let magnitude = whole * 1000 + fraction;
    if magnitude > NUMERIC_LIMIT {
        None
    } else if negative {
        Some(-magnitude)
    } else {
        Some(magnitude)
    }
}

/// Tokenizer over the characters of a script.
#[derive(Debug)]
pub struct Lexer {
    pub chars: Vec<char>,
    pub position: usize,
    pub indentation: usize,
    pub target_indent: usize,
    pub new_line: bool,
}

/// Whether the lexer moved strictly forward: the measure `(characters left,
/// line start pending, target indentation, distance to it)` fell.
pub open spec fn moved_on(s: Seq<char>, a: LexState, b: LexState) -> bool {
    let da = if a.indentation <= a.target_indent { a.target_indent - a.indentation } else { a.indentation - a.target_indent };
    let db = if b.indentation <= b.target_indent { b.target_indent - b.indentation } else { b.indentation - b.target_indent };
    let la = if a.new_line { 1int } else { 0int };
    let lb = if b.new_line { 1int } else { 0int };
    remaining(s, b) < remaining(s, a) || (remaining(s, b) == remaining(s, a) && (lb < la || (lb == la
        && (b.target_indent < a.target_indent || (b.target_indent == a.target_indent && db < da)))))
}

proof fn lemma_tabs_end(s: Seq<char>, i: int)
    requires
        0 <= i,
    ensures
        i <= tabs_end(s, i),
        i <= s.len() ==> tabs_end(s, i) <= s.len(),
    decreases s.len() - i,
{
    if i < s.len() && s[i] == '\t' {
        lemma_tabs_end(s, i + 1);
    }
}

/// The difference that one call of the lexer makes to the indentation.
pub open spec fn scope_change(out: Option<Result<TokenV, ParserError>>) -> int {
    match out {
        Some(Ok(TokenV::ScopeOpen)) => 1,
        Some(Ok(TokenV::ScopeClose)) => -1,
        _ => 0,
    }
}

/// Each call of the lexer that hands out a token moves it forward; each
/// scope token moves the indentation by one; the end comes at indentation zero.
pub proof fn lemma_step(s: Seq<char>, st: LexState)
    ensures
        lex_step(s, st).1 is Some ==> moved_on(s, st, lex_step(s, st).0),
        lex_step(s, st).0.indentation == st.indentation + scope_change(lex_step(s, st).1),
        lex_step(s, st).1 is None ==> lex_step(s, st).0.indentation == 0,
        lex_step(s, st).1 is None ==> lex_step(s, st).0 == st || moved_on(s, st, lex_step(s, st).0),
        lex_step(s, st).1 is None ==> lex_step(s, lex_step(s, st).0).1 is None,
        lex_step(s, st).1 matches Some(Ok(TokenV::Numeric(v))) ==> -NUMERIC_LIMIT <= v <= NUMERIC_LIMIT,
    decreases remaining(s, st), if st.new_line { 1int } else { 0int }, st.target_indent,
{
    let p = st.position as int;
    if st.indentation < st.target_indent {
    } else if st.indentation > st.target_indent {
    } else if st.new_line {
        lemma_tabs_end(s, p);
        let j = tabs_end(s, p);
        let t = if j < s.len() && s[j] != '\n' { (j - p) as nat } else { st.target_indent };
        lemma_step(s, LexState { position: j as nat, target_indent: t, new_line: false, ..st });
    } else if p >= s.len() {
        if st.target_indent != 0 {
            lemma_step(s, LexState { target_indent: 0, ..st });
        }
    } else {
        let c = s[p];
        if c == '"' {
            lemma_quote_end(s, p + 1);
        } else if is_white(c) {
            lemma_step(s, LexState { position: (p + 1) as nat, ..st });
        } else if c != '(' && c != ')' && c != '[' && c != ']' && c != ',' && c != '_' && c != '\n' {
            lemma_word_end(s, p + 1);
        }
    }
}

proof fn lemma_quote_end(s: Seq<char>, i: int)
    requires
        0 <= i <= s.len(),
    ensures
        i <= quote_end(s, i) <= s.len(),
    decreases s.len() - i,
{
    if i < s.len() && s[i] != '"' && s[i] != '\n' {
        if s[i] == '\\' {
            if i + 2 <= s.len() {
                lemma_quote_end(s, i + 2);
            }
        } else {
            lemma_quote_end(s, i + 1);
        }
    }
}

proof fn lemma_word_end(s: Seq<char>, i: int)
    requires
        0 <= i <= s.len(),
    ensures
        i <= word_end(s, i) <= s.len(),
    decreases s.len() - i,
{
    if i < s.len() && is_word(s[i]) {
        lemma_word_end(s, i + 1);
    }
}

/// Every token that the lexer hands out from state `st` on, in order (the
/// lexer always moves on, by `lemma_step`).
pub open spec fn stream(s: Seq<char>, st: LexState) -> Seq<Result<TokenV, ParserError>>
    decreases remaining(s, st), if st.new_line { 1int } else { 0int }, st.target_indent,
        if st.indentation <= st.target_indent { st.target_indent - st.indentation } else { st.indentation - st.target_indent },
{
    match lex_step(s, st).1 {
        None => Seq::empty(),
        Some(t) => if moved_on(s, st, lex_step(s, st).0) {
            seq![t] + stream(s, lex_step(s, st).0)
        } else {
            seq![t]
        },
    }
}

/// Number of scope openings among the tokens.
pub open spec fn opened(ts: Seq<Result<TokenV, ParserError>>) -> int
    decreases ts.len(),
{
    if ts.len() == 0 {
        0
    } else {
        opened(ts.drop_last()) + if ts.last() == Ok::<TokenV, ParserError>(TokenV::ScopeOpen) { 1int } else { 0int }
    }
}

/// Number of scope closings among the tokens.
pub open spec fn closed(ts: Seq<Result<TokenV, ParserError>>) -> int
    decreases ts.len(),
{
    if ts.len() == 0 {
        0
    } else {
        closed(ts.drop_last()) + if ts.last() == Ok::<TokenV, ParserError>(TokenV::ScopeClose) { 1int } else { 0int }
    }
}

pub open spec fn result_view(t: Result<Token, ParserError>) -> Result<TokenV, ParserError> {
    match t {
        Ok(t) => Ok(t@),
        Err(e) => Err(e),
    }
}

pub open spec fn results_view(ts: Seq<Result<Token, ParserError>>) -> Seq<Result<TokenV, ParserError>> {
    ts.map_values(|t: Result<Token, ParserError>| result_view(t))
}

impl Lexer {
    pub open spec fn state(&self) -> LexState {
        LexState {
            position: self.position as nat,
            indentation: self.indentation as nat,
            target_indent: self.target_indent as nat,
            new_line: self.new_line,
        }
    }

    pub open spec fn wf(&self) -> bool {
        &&& self.position <= self.chars.len()
        &&& self.indentation <= self.chars.len()
        &&& self.target_indent <= self.chars.len()
    }

    /// The lexer at the start of `string`.
    pub fn new(string: &str) -> (r: Lexer)
        ensures
            r.wf(),
            r.chars@ == string@,
            r.state() == (LexState { position: 0, indentation: 0, target_indent: 0, new_line: true }),
    {
        Lexer { chars: chars_of(string), position: 0, indentation: 0, target_indent: 0, new_line: true }
    }

    /// Every remaining token, in order.
    pub fn tokens(self) -> (r: Vec<Result<Token, ParserError>>)
        requires
            self.wf(),
        ensures
            results_view(r@) == stream(self.chars@, self.state()),
    {
        let mut lx = self;
        let ghost s = lx.chars@;
        let ghost st0 = lx.state();
        let mut r: Vec<Result<Token, ParserError>> = Vec::new();
        loop
            invariant
                lx.wf(),
                lx.chars@ == s,
                s == self.chars@,
                st0 == self.state(),
                stream(s, st0) == results_view(r@) + stream(s, lx.state()),
            decreases remaining(s, lx.state()), if lx.new_line { 1int } else { 0int }, lx.target_indent,
                if lx.indentation <= lx.target_indent { lx.target_indent - lx.indentation } else { lx.indentation - lx.target_indent },
        {
            let ghost before = lx.state();
            proof {
                lemma_step(s, before);
            }
            match lx.next() {
                None => {
                    assert(stream(s, before) =~= Seq::<Result<TokenV, ParserError>>::empty());
                    assert(results_view(r@) + Seq::<Result<TokenV, ParserError>>::empty() =~= results_view(r@));
                    return r;
                }
                Some(t) => {
                    let ghost tv = result_view(t);
                    assert(stream(s, before) == seq![tv] + stream(s, lx.state()));
                    r.push(t);
                    assert(results_view(r@) =~= results_view(r@.drop_last()).push(tv));
                    assert(results_view(r@.drop_last()) + (seq![tv] + stream(s, lx.state())) =~= results_view(r@) + stream(s, lx.state()));
                }
            }
        }
    }

    fn scan_tabs(&self, i: usize) -> (j: usize)
        requires
            i <= self.chars.len(),
        ensures
            i <= j <= self.chars.len(),
            j == tabs_end(self.chars@, i as int),
    {
        let mut j = i;
        while j < self.chars.len() && self.chars[j] == '\t'
            invariant
                i <= j <= self.chars.len(),
                tabs_end(self.chars@, i as int) == tabs_end(self.chars@, j as int),
            decreases self.chars.len() - j,
        {
            j = j + 1;
        }
        j
    }

    fn scan_word(&self, i: usize) -> (j: usize)
        requires
            i <= self.chars.len(),
        ensures
            i <= j <= self.chars.len(),
            j == word_end(self.chars@, i as int),
    {
        let mut j = i;
        while j < self.chars.len() && word(self.chars[j])
            invariant
                i <= j <= self.chars.len(),
                word_end(self.chars@, i as int) == word_end(self.chars@, j as int),
            decreases self.chars.len() - j,
        {
            j = j + 1;
        }
        j
    }

    fn scan_quote(&self, i: usize) -> (j: usize)
        requires
            i <= self.chars.len(),
        ensures
            i <= j <= self.chars.len(),
            j == quote_end(self.chars@, i as int),
    {
        let n = self.chars.len();
        let mut j = i;
        while j < n && self.chars[j] != '"' && self.chars[j] != '\n'
            invariant
                n == self.chars.len(),
                i <= j <= n,
                quote_end(self.chars@, i as int) == quote_end(self.chars@, j as int),
            decreases n - j,
        {
            if self.chars[j] == '\\' {
                assert(quote_end(self.chars@, j as int) == quote_end(self.chars@, j + 2));
                assert(quote_end(self.chars@, n as int) == n);
                assert(n - j < 2 ==> quote_end(self.chars@, j + 2) == n);
                j = if n - j >= 2 { j + 2 } else { n };
            } else {
                j = j + 1;
            }
        }
        j
    }

    /// The next token, `None` once the input and every open scope are done.
    pub fn next(&mut self) -> (r: Option<Result<Token, ParserError>>)
        requires
            old(self).wf(),
        ensures
            final(self).wf(),
            final(self).chars@ == old(self).chars@,
            (final(self).state(), out_view(r)) == lex_step(old(self).chars@, old(self).state()),
    {
        let ghost s = self.chars@;
        let ghost st0 = self.state();
        let n = self.chars.len();
        loop
            invariant
                self.wf(),
                self.chars@ == s,
                s == old(self).chars@,
                st0 == old(self).state(),
                n == s.len(),
                lex_step(s, self.state()) == lex_step(s, st0),
            decreases remaining(s, self.state()), if self.new_line { 1int } else { 0int }, self.target_indent,
        {
            if self.indentation < self.target_indent {
                self.indentation = self.indentation + 1;
                return Some(Ok(Token::ScopeOpen));
            }
            if self.indentation > self.target_indent {
                self.indentation = self.indentation - 1;
                return Some(Ok(Token::ScopeClose));
            }
            if self.new_line {
                self.new_line = false;
                let p = self.position;
                let j = self.scan_tabs(p);
                if j < n && self.chars[j] != '\n' {
                    self.target_indent = j - p;
                }
                self.position = j;
                continue;
            }
            if self.position >= n {
                if self.target_indent == 0 {
                    return None;
                }
                self.target_indent = 0;
                continue;
            }
            let p = self.position;
            let c = self.chars[p];
            self.position = p + 1;
            if c == '(' {
                return Some(Ok(Token::BracketOpen));
            } else if c == ')' {
                return Some(Ok(Token::BracketClose));
            } else if c == '[' {
                return Some(Ok(Token::SquareOpen));
            } else if c == ']' {
                return Some(Ok(Token::SquareClose));
            } else if c == ',' {
                return Some(Ok(Token::ListSeparator));
            } else if c == '_' {
                return Some(Ok(Token::Underscore));
            } else if c == '\n' {
                self.new_line = true;
                return Some(Ok(Token::Terminator));
            } else if c == '"' {
                let e = self.scan_quote(p + 1);
                if e < n && self.chars[e] == '"' {
                    self.position = e + 1;
                    return Some(Ok(Token::String(unescape_range(&self.chars, p + 1, e))));
                }
                self.position = e;
                return Some(Err(ParserError::UnmatchedQuote));
            } else if white(c) {
                continue;
            } else {
                let e = self.scan_word(p + 1);
                self.position = e;
                if c == '-' || digit(c) {
                    let mut w: Vec<char> = Vec::new();
                    let mut i = p;
                    while i < e
                        invariant
                            p <= i <= e <= n,
                            self.chars@ == s,
                            n == s.len(),
                            w@ == s.subrange(p as int, i as int),
                        decreases e - i,
                    {
                        w.push(self.chars[i]);
                        assert(s.subrange(p as int, i + 1) =~= s.subrange(p as int, i as int).push(s[i as int]));
                        i = i + 1;
                    }
                    return match decimal(&w) {
                        Some(v) => Some(Ok(Token::Numeric(v))),
                        None => Some(Err(ParserError::InvalidNumeric)),
                    };
                }
                return Some(Ok(Token::Identifier(string_of(&self.chars, p, e))));
            }
        }
    }
}

/// Scope tokens balance: over the whole token stream of any script there are
/// as many scope closings as scope openings.
pub proof fn lemma_scopes_balance(s: Seq<char>)
    ensures
        opened(stream(s, start_state())) == closed(stream(s, start_state())),
{
    lemma_stream_scopes(s, start_state());
}

/// Scopes nest: no stretch of the token stream from its start closes more
/// scopes than it has opened.
pub proof fn lemma_scopes_nest(s: Seq<char>, n: int)
    requires
        0 <= n <= stream(s, start_state()).len(),
    ensures
        closed(stream(s, start_state()).subrange(0, n)) <= opened(stream(s, start_state()).subrange(0, n)),
{
    lemma_prefix_scopes(s, start_state(), n);
}

proof fn lemma_prefix_scopes(s: Seq<char>, st: LexState, n: int)
    requires
        0 <= n <= stream(s, st).len(),
    ensures
        closed(stream(s, st).subrange(0, n)) - opened(stream(s, st).subrange(0, n)) <= st.indentation,
    decreases remaining(s, st), if st.new_line { 1int } else { 0int }, st.target_indent,
        if st.indentation <= st.target_indent { st.target_indent - st.indentation } else { st.indentation - st.target_indent },
{
    lemma_step(s, st);
    let (nst, out) = lex_step(s, st);
    if n == 0 {
        assert(stream(s, st).subrange(0, 0) =~= Seq::<Result<TokenV, ParserError>>::empty());
    } else if let Some(t) = out {
        let rest = stream(s, nst);
        assert(stream(s, st) == seq![t] + rest);
        lemma_prefix_scopes(s, nst, n - 1);
        assert(stream(s, st).subrange(0, n) =~= seq![t] + rest.subrange(0, n - 1));
        lemma_counts_prepend(t, rest.subrange(0, n - 1));
    }
}

pub open spec fn start_state() -> LexState {
    LexState { position: 0, indentation: 0, target_indent: 0, new_line: true }
}

/// From any state, the rest of the stream closes what is open and opens
/// nothing that it does not close.
proof fn lemma_stream_scopes(s: Seq<char>, st: LexState)
    ensures
        closed(stream(s, st)) - opened(stream(s, st)) == st.indentation,
    decreases remaining(s, st), if st.new_line { 1int } else { 0int }, st.target_indent,
        if st.indentation <= st.target_indent { st.target_indent - st.indentation } else { st.indentation - st.target_indent },
{
    lemma_step(s, st);
    let (nst, out) = lex_step(s, st);
    if let Some(t) = out {
        lemma_stream_scopes(s, nst);
        lemma_counts_prepend(t, stream(s, nst));
    }
}

proof fn lemma_counts_prepend(t: Result<TokenV, ParserError>, ts: Seq<Result<TokenV, ParserError>>)
    ensures
        opened(seq![t] + ts) == opened(ts) + if t == Ok::<TokenV, ParserError>(TokenV::ScopeOpen) { 1int } else { 0int },
        closed(seq![t] + ts) == closed(ts) + if t == Ok::<TokenV, ParserError>(TokenV::ScopeClose) { 1int } else { 0int },
    decreases ts.len(),
{
    if ts.len() > 0 {
        lemma_counts_prepend(t, ts.drop_last());
        assert((seq![t] + ts).drop_last() =~= seq![t] + ts.drop_last());
        assert((seq![t] + ts).last() == ts.last());
    } else {
        assert((seq![t] + ts).drop_last() =~= Seq::<Result<TokenV, ParserError>>::empty());
        assert((seq![t] + ts).last() == t);
        assert(ts =~= Seq::<Result<TokenV, ParserError>>::empty());
    }
}

/// What the lexer hands out next, from where it stands.
pub open spec fn upcoming(lx: &Lexer) -> Option<Result<TokenV, ParserError>> {
    lex_step(lx.chars@, lx.state()).1
}

/// The lexer after one call, as seen from `old`.
pub open spec fn stepped(old: &Lexer, new: &Lexer) -> bool {
    &&& new.wf()
    &&& new.chars@ == old.chars@
    &&& new.state() == lex_step(old.chars@, old.state()).0
    &&& (new.state() == old.state() || moved_on(old.chars@, old.state(), new.state()))
}

pub fn same_token(a: &Token, b: &Token) -> (r: bool)
    ensures
        r == (a@ == b@),
{
    match (a, b) {
        (Token::Identifier(x), Token::Identifier(y)) => *x == *y,
        (Token::String(x), Token::String(y)) => *x == *y,
        (Token::Numeric(x), Token::Numeric(y)) => *x == *y,
        (Token::ScopeOpen, Token::ScopeOpen) => true,
        (Token::ScopeClose, Token::ScopeClose) => true,
        (Token::BracketOpen, Token::BracketOpen) => true,
        (Token::BracketClose, Token::BracketClose) => true,
        (Token::SquareOpen, Token::SquareOpen) => true,
        (Token::SquareClose, Token::SquareClose) => true,
        (Token::ListSeparator, Token::ListSeparator) => true,
        (Token::Underscore, Token::Underscore) => true,
        (Token::Terminator, Token::Terminator) => true,
        _ => false,
    }
}

impl Lexer {
    /// Characters left to read.
    pub open spec fn left(&self) -> nat {
        remaining(self.chars@, self.state())
    }

    /// Whether a line start is pending, as a number.
    pub open spec fn pending_line(&self) -> int {
        if self.new_line { 1int } else { 0int }
    }

    /// Scope tokens still owed to reach the target indentation.
    pub open spec fn gap(&self) -> int {
        if self.indentation <= self.target_indent { self.target_indent - self.indentation } else { self.indentation - self.target_indent }
    }

    /// The next token, with a lexing error as the error.
    pub fn token(&mut self) -> (r: Result<Option<Token>, ParserError>)
        requires
            old(self).wf(),
        ensures
            stepped(old(self), final(self)),
            match upcoming(old(self)) {
                None => r matches Ok(None),
                Some(Ok(t)) => r matches Ok(Some(u)) && u@ == t && moved_on(old(self).chars@, old(self).state(), final(self).state()),
                Some(Err(e)) => r == Err::<Option<Token>, ParserError>(e) && moved_on(old(self).chars@, old(self).state(), final(self).state()),
            },
            r matches Ok(Some(Token::Numeric(v))) ==> -NUMERIC_LIMIT <= v <= NUMERIC_LIMIT,
    {
        proof {
            lemma_step(self.chars@, self.state());
        }
        match self.next() {
            None => Ok(None),
            Some(Ok(t)) => Ok(Some(t)),
            Some(Err(e)) => Err(e),
        }
    }

    /// The next token, which must be an identifier.
    pub fn identifier(&mut self) -> (r: Result<String, ParserError>)
        requires
            old(self).wf(),
        ensures
            stepped(old(self), final(self)),
            match upcoming(old(self)) {
                Some(Ok(TokenV::Identifier(w))) => r matches Ok(s) && s@ == w,
                Some(Err(e)) => r == Err::<String, ParserError>(e),
                _ => r == Err::<String, ParserError>(ParserError::ExpectedIdentifier),
            },
            upcoming(old(self)) is Some ==> moved_on(old(self).chars@, old(self).state(), final(self).state()),
    {
        match self.token() {
            Ok(Some(Token::Identifier(identifier))) => Ok(identifier),
            Err(e) => Err(e),
            _ => Err(ParserError::ExpectedIdentifier),
        }
    }

    /// The next token, which must be a string.
    pub fn string(&mut self) -> (r: Result<String, ParserError>)
        requires
            old(self).wf(),
        ensures
            stepped(old(self), final(self)),
            match upcoming(old(self)) {
                Some(Ok(TokenV::Str(w))) => r matches Ok(s) && s@ == w,
                Some(Err(e)) => r == Err::<String, ParserError>(e),
                _ => r == Err::<String, ParserError>(ParserError::ExpectedString),
            },
            upcoming(old(self)) is Some ==> moved_on(old(self).chars@, old(self).state(), final(self).state()),
    {
        match self.token() {
            Ok(Some(Token::String(string))) => Ok(string),
            Err(e) => Err(e),
            _ => Err(ParserError::ExpectedString),
        }
    }

    /// The next token, which must be a number; its value in thousandths.
    pub fn numeric(&mut self) -> (r: Result<i64, ParserError>)
        requires
            old(self).wf(),
        ensures
            stepped(old(self), final(self)),
            match upcoming(old(self)) {
                Some(Ok(TokenV::Numeric(v))) => r == Ok::<i64, ParserError>(v as i64),
                Some(Err(e)) => r == Err::<i64, ParserError>(e),
                _ => r == Err::<i64, ParserError>(ParserError::ExpectedNumeric),
            },
            r matches Ok(v) ==> -NUMERIC_LIMIT <= v <= NUMERIC_LIMIT,
            upcoming(old(self)) is Some ==> moved_on(old(self).chars@, old(self).state(), final(self).state()),
    {
        match self.token() {
            Ok(Some(Token::Numeric(numeric))) => Ok(numeric),
            Err(e) => Err(e),
            _ => Err(ParserError::ExpectedNumeric),
        }
    }

    /// Reads the next token, which must be `token`.
    pub fn expect(&mut self, token: Token) -> (r: Result<(), ParserError>)
        requires
            old(self).wf(),
        ensures
            stepped(old(self), final(self)),
            match upcoming(old(self)) {
                Some(Ok(t)) => if t == token@ { r is Ok } else { r == Err::<(), ParserError>(ParserError::Expected(token)) },
                Some(Err(e)) => r == Err::<(), ParserError>(e),
                None => r == Err::<(), ParserError>(ParserError::Expected(token)),
            },
            upcoming(old(self)) is Some ==> moved_on(old(self).chars@, old(self).state(), final(self).state()),
    {
        match self.token() {
            Err(e) => Err(e),
            Ok(Some(t)) => if same_token(&t, &token) {
                Ok(())
            } else {
                Err(ParserError::Expected(token))
            },
            Ok(None) => Err(ParserError::Expected(token)),
        }
    }

    /// Skips all tokens until the target token is consumed, or the input ends.
    pub fn skip_take(&mut self, target: Token)
        requires
            old(self).wf(),
        ensures
            final(self).wf(),
            final(self).chars@ == old(self).chars@,
            stream(final(self).chars@, final(self).state()) == stream(old(self).chars@, old(self).state()).subrange(
                crate::grammar::skip(stream(old(self).chars@, old(self).state()), 0, target),
                stream(old(self).chars@, old(self).state()).len() as int,
            ),
    {
        let ghost ts = stream(self.chars@, self.state());
        let ghost mut pos: int = 0;
        assert(ts.subrange(0, ts.len() as int) =~= ts);
        loop
            invariant
                self.wf(),
                self.chars@ == old(self).chars@,
                ts == stream(old(self).chars@, old(self).state()),
                0 <= pos <= ts.len(),
                stream(self.chars@, self.state()) == ts.subrange(pos, ts.len() as int),
                crate::grammar::skip(ts, 0, target) == crate::grammar::skip(ts, pos, target),
            decreases ts.len() - pos,
        {
            let ghost before = *self;
            let r = self.token();
            proof {
                lemma_read_one(before, *self, ts, pos);
            }
            match r {
                Ok(None) => {
                    return;
                },
                Ok(Some(t)) => {
                    if same_token(&t, &target) {
                        return;
                    }
                },
                Err(_) => {},
            }
            proof {
                pos = pos + 1;
            }
        }
    }
}

/// Reading one token from a lexer whose remaining stream is `ts[i..]` leaves
/// the stream `ts[i + 1..]`, and the token read is `ts[i]`; at the end both stay.
pub proof fn lemma_read_one(old: Lexer, new: Lexer, ts: Seq<Result<TokenV, ParserError>>, i: int)
    requires
        stepped(&old, &new),
        0 <= i <= ts.len(),
        stream(old.chars@, old.state()) == ts.subrange(i, ts.len() as int),
    ensures
        upcoming(&old) == (if i < ts.len() { Some(ts[i]) } else { None::<Result<TokenV, ParserError>> }),
        stream(new.chars@, new.state()) == ts.subrange(if i < ts.len() { i + 1 } else { i }, ts.len() as int),
{
    let s = old.chars@;
    lemma_step(s, old.state());
    match upcoming(&old) {
        None => {
            assert(stream(s, old.state()).len() == 0);
            lemma_step(s, new.state());
            assert(stream(s, new.state()) =~= Seq::<Result<TokenV, ParserError>>::empty());
        },
        Some(t) => {
            assert(stream(s, old.state()) == seq![t] + stream(s, new.state()));
            let x = stream(s, new.state());
            let whole = ts.subrange(i, ts.len() as int);
            assert(whole.len() == x.len() + 1);
            assert(whole[0] == ts[i]);
            assert forall|k: int| 0 <= k < x.len() implies x[k] == ts.subrange(i + 1, ts.len() as int)[k] by {
                assert(x[k] == (seq![t] + x)[k + 1]);
                assert(whole[k + 1] == ts[i + 1 + k]);
            }
            assert(x =~= ts.subrange(i + 1, ts.len() as int));
        },
    }
}

/// Whether `w` is the text of a string literal of `s`: the characters of some
/// stretch of `s` with their escapes resolved.
pub open spec fn literal_of(s: Seq<char>, w: Seq<char>) -> bool {
    exists|a: int, b: int| 0 <= a <= b <= s.len() && w == unescape(#[trigger] s.subrange(a, b))
}

/// Whether `w` is a stretch of `s`.
pub open spec fn word_of(s: Seq<char>, w: Seq<char>) -> bool {
    exists|a: int, b: int| 0 <= a <= b <= s.len() && w == #[trigger] s.subrange(a, b)
}

proof fn lemma_step_source(s: Seq<char>, st: LexState)
    ensures
        lex_step(s, st).1 matches Some(Ok(TokenV::Str(w))) ==> literal_of(s, w),
        lex_step(s, st).1 matches Some(Ok(TokenV::Identifier(w))) ==> word_of(s, w),
    decreases remaining(s, st), if st.new_line { 1int } else { 0int }, st.target_indent,
{
    let p = st.position as int;
    if st.indentation < st.target_indent {
    } else if st.indentation > st.target_indent {
    } else if st.new_line {
        lemma_tabs_end(s, p);
        let j = tabs_end(s, p);
        let t = if j < s.len() && s[j] != '\n' { (j - p) as nat } else { st.target_indent };
        lemma_step_source(s, LexState { position: j as nat, target_indent: t, new_line: false, ..st });
    } else if p >= s.len() {
        if st.target_indent != 0 {
            lemma_step_source(s, LexState { target_indent: 0, ..st });
        }
    } else {
        let c = s[p];
        if c == '"' {
            lemma_quote_end(s, p + 1);
            let e = quote_end(s, p + 1);
            if e < s.len() && s[e] == '"' {
                assert(0 <= p + 1 <= e <= s.len());
                let w = unescape(s.subrange(p + 1, e));
                assert(w == unescape(s.subrange(p + 1, e)));
            }
        } else if is_white(c) {
            lemma_step_source(s, LexState { position: (p + 1) as nat, ..st });
        } else if c != '(' && c != ')' && c != '[' && c != ']' && c != ',' && c != '_' && c != '\n' {
            lemma_word_end(s, p + 1);
            let e = word_end(s, p + 1);
            assert(s.subrange(p, e) == s.subrange(p, e));
        }
    }
}

/// Every string token of the stream is a string literal of `s`, and every
/// identifier a stretch of `s`.
pub proof fn lemma_stream_source(s: Seq<char>, st: LexState)
    ensures
        forall|k: int| 0 <= k < stream(s, st).len() && (#[trigger] stream(s, st)[k]) is Ok && stream(s, st)[k]->Ok_0 is Str
            ==> literal_of(s, stream(s, st)[k]->Ok_0->Str_0),
        forall|k: int| 0 <= k < stream(s, st).len() && (#[trigger] stream(s, st)[k]) is Ok && stream(s, st)[k]->Ok_0 is Identifier
            ==> word_of(s, stream(s, st)[k]->Ok_0->Identifier_0),
    decreases remaining(s, st), if st.new_line { 1int } else { 0int }, st.target_indent,
        if st.indentation <= st.target_indent { st.target_indent - st.indentation } else { st.indentation - st.target_indent },
{
    lemma_step(s, st);
    lemma_step_source(s, st);
    let (nst, out) = lex_step(s, st);
    if let Some(t) = out {
        lemma_stream_source(s, nst);
        let all = stream(s, st);
        let rest = stream(s, nst);
        assert(all == seq![t] + rest);
        assert forall|k: int| 0 <= k < all.len() && (#[trigger] all[k]) is Ok && all[k]->Ok_0 is Str implies literal_of(s, all[k]->Ok_0->Str_0) by {
            if k > 0 {
                assert(all[k] == rest[k - 1]);
            }
        }
        assert forall|k: int| 0 <= k < all.len() && (#[trigger] all[k]) is Ok && all[k]->Ok_0 is Identifier implies word_of(s, all[k]->Ok_0->Identifier_0) by {
            if k > 0 {
                assert(all[k] == rest[k - 1]);
            }
        }
    }
}

} // verus!
