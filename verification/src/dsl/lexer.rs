//! Splitting the source text into tokens.
//!
//! The text is read as bytes. Blanks separate tokens and mean nothing else.
//! A name is a letter or underscore followed by letters, digits and
//! underscores; a number is an optional minus sign, digits, and optionally a
//! point and more digits. Every token is as long as it can be.

use vstd::prelude::*;

verus! {

/// The bytes of the marks, of the minus sign and of the point.
pub const LPAREN: u8 = 40;

pub const RPAREN: u8 = 41;

pub const COMMA: u8 = 44;

pub const MINUS: u8 = 45;

pub const POINT: u8 = 46;

pub const EQUALS: u8 = 61;

pub const LBRACE: u8 = 123;

pub const RBRACE: u8 = 125;

/// What a token is.
#[derive(Clone, Copy, Debug, PartialEq, Eq, Structural)]
pub enum TokenKind {
    Ident,
    Number,
    LParen,
    RParen,
    LBrace,
    RBrace,
    Comma,
    Equals,
    /// A byte with which no token begins. Nothing follows it.
    Invalid,
    /// The end of the text.
    End,
}

/// A token and the bytes it covers: from `start` up to, not including, `end`.
#[derive(Clone, Copy, Debug, PartialEq, Eq, Structural)]
pub struct Token {
    pub kind: TokenKind,
    pub start: usize,
    pub end: usize,
}

/// The classes of bytes of which runs are formed.
#[derive(Clone, Copy, Debug, PartialEq, Eq, Structural)]
pub enum Class {
    Space,
    Digit,
    Word,
}

/// A blank: space, tab, line feed or carriage return.
pub open spec fn is_space(b: u8) -> bool {
    b == 32 || b == 9 || b == 10 || b == 13
}

/// A decimal digit.
pub open spec fn is_digit(b: u8) -> bool {
    48 <= b <= 57
}

/// A letter of the alphabet, or the underscore.
pub open spec fn is_letter(b: u8) -> bool {
    65 <= b <= 90 || 97 <= b <= 122 || b == 95
}

/// The byte belongs to the class.
pub open spec fn in_class(class: Class, b: u8) -> bool {
    match class {
        Class::Space => is_space(b),
        Class::Digit => is_digit(b),
        Class::Word => is_letter(b) || is_digit(b),
    }
}

/// Where the run of bytes of `class` that starts at `from` ends.
pub open spec fn run_end(s: Seq<u8>, class: Class, from: int) -> int
    decreases s.len() - from,
{
    if 0 <= from < s.len() && in_class(class, s[from]) {
        run_end(s, class, from + 1)
    } else {
        from
    }
}

/// Where the number whose digits start at `digits` ends.
pub open spec fn number_end(s: Seq<u8>, digits: int) -> int {
    let whole = run_end(s, Class::Digit, digits);
    if whole + 1 < s.len() && s[whole] == POINT && is_digit(s[whole + 1]) {
        run_end(s, Class::Digit, whole + 1)
    } else {
        whole
    }
}

/// The token of a kind from `start` up to `end`.
pub open spec fn spanning(kind: TokenKind, start: int, end: int) -> Token {
    Token { kind, start: start as usize, end: end as usize }
}

/// The token that starts at `at`, which is no blank.
pub open spec fn token_at(s: Seq<u8>, at: int) -> Token
    recommends
        0 <= at < s.len(),
{
    let b = s[at];
    if b == LPAREN {
        spanning(TokenKind::LParen, at, at + 1)
    } else if b == RPAREN {
        spanning(TokenKind::RParen, at, at + 1)
    } else if b == LBRACE {
        spanning(TokenKind::LBrace, at, at + 1)
    } else if b == RBRACE {
        spanning(TokenKind::RBrace, at, at + 1)
    } else if b == COMMA {
        spanning(TokenKind::Comma, at, at + 1)
    } else if b == EQUALS {
        spanning(TokenKind::Equals, at, at + 1)
    } else if is_letter(b) {
        spanning(TokenKind::Ident, at, run_end(s, Class::Word, at + 1))
    } else if is_digit(b) {
        spanning(TokenKind::Number, at, number_end(s, at))
    } else if b == MINUS && at + 1 < s.len() && is_digit(s[at + 1]) {
        spanning(TokenKind::Number, at, number_end(s, at + 1))
    } else {
        spanning(TokenKind::Invalid, at, at + 1)
    }
}

/// The tokens of the text from `from` on. The last one is `End`, or `Invalid`
/// where the text cannot be split further.
pub open spec fn tokens(s: Seq<u8>, from: int) -> Seq<Token>
    decreases s.len() - from,
{
    let at = run_end(s, Class::Space, from);
    if 0 <= at < s.len() {
        let t = token_at(s, at);
        if t.kind != TokenKind::Invalid && from < t.end <= s.len() {
            seq![t] + tokens(s, t.end as int)
        } else {
            seq![t]
        }
    } else {
        seq![spanning(TokenKind::End, s.len() as int, s.len() as int)]
    }
}

/// After a token of this kind comes no other.
pub open spec fn is_terminal(kind: TokenKind) -> bool {
    kind == TokenKind::End || kind == TokenKind::Invalid
}

/// A token of this kind is a name or a number: its characters matter.
pub open spec fn is_text(kind: TokenKind) -> bool {
    kind == TokenKind::Ident || kind == TokenKind::Number
}

/// What the parser relies on: the tokens end with a terminal one and hold no
/// other, every token lies inside the text, and names and numbers are ASCII.
pub open spec fn well_formed(toks: Seq<Token>, s: Seq<u8>) -> bool {
    &&& toks.len() > 0
    &&& is_terminal(toks.last().kind)
    &&& forall|i: int| 0 <= i < toks.len() - 1 ==> !is_terminal(#[trigger] toks[i].kind)
    &&& forall|i: int|
        0 <= i < toks.len() ==> (#[trigger] toks[i]).start <= toks[i].end <= s.len()
    &&& forall|i: int, k: int|
        0 <= i < toks.len() && is_text(toks[i].kind) && toks[i].start <= k < toks[i].end
            ==> #[trigger] byte_of(s, toks[i], k) < 128
}

/// The byte at `k`, taken as a byte of the token `t`.
pub open spec fn byte_of(s: Seq<u8>, t: Token, k: int) -> u8 {
    s[k]
}

/// The characters of a token.
pub open spec fn text_of(s: Seq<u8>, t: Token) -> Seq<char> {
    Seq::new((t.end - t.start) as nat, |i: int| s[t.start + i] as char)
}

/// A run ends inside the text, holds only bytes of its class, and stops at
/// the first byte that is not of the class.
pub proof fn lemma_run_end(s: Seq<u8>, class: Class, from: int)
    requires
        0 <= from <= s.len(),
    ensures
        from <= run_end(s, class, from) <= s.len(),
        forall|k: int| from <= k < run_end(s, class, from) ==> in_class(class, #[trigger] s[k]),
        run_end(s, class, from) < s.len() ==> !in_class(class, s[run_end(s, class, from)]),
    decreases s.len() - from,
{
    if from < s.len() && in_class(class, s[from]) {
        lemma_run_end(s, class, from + 1);
    }
}

/// A number ends inside the text, after its first digit, and is ASCII.
pub proof fn lemma_number_end(s: Seq<u8>, digits: int)
    requires
        0 <= digits <= s.len(),
    ensures
        digits <= number_end(s, digits) <= s.len(),
        forall|k: int| digits <= k < number_end(s, digits) ==> #[trigger] s[k] < 128,
        digits < s.len() && is_digit(s[digits]) ==> digits < number_end(s, digits),
{
    let whole = run_end(s, Class::Digit, digits);
    lemma_run_end(s, Class::Digit, digits);
    if whole + 1 < s.len() && s[whole] == POINT && is_digit(s[whole + 1]) {
        lemma_run_end(s, Class::Digit, whole + 1);
    }
}

/// A token that is read starts where it is read, ends after that and inside
/// the text, and is ASCII if it is a name or a number.
pub proof fn lemma_token_at(s: Seq<u8>, at: int)
    requires
        0 <= at < s.len(),
        s.len() <= usize::MAX,
    ensures
        token_at(s, at).start == at,
        at < token_at(s, at).end <= s.len(),
        token_at(s, at).kind != TokenKind::End,
        is_text(token_at(s, at).kind) ==> forall|k: int|
            at <= k < token_at(s, at).end ==> #[trigger] s[k] < 128,
{
    let b = s[at];
    lemma_run_end(s, Class::Word, at + 1);
    lemma_number_end(s, at);
    if at + 1 < s.len() {
        lemma_number_end(s, at + 1);
    }
}

/// The tokens of any text are well formed.
pub proof fn lemma_tokens_well_formed(s: Seq<u8>, from: int)
    requires
        0 <= from <= s.len(),
        s.len() <= usize::MAX,
    ensures
        well_formed(tokens(s, from), s),
    decreases s.len() - from,
{
    let at = run_end(s, Class::Space, from);
    lemma_run_end(s, Class::Space, from);
    if at < s.len() {
        let t = token_at(s, at);
        lemma_token_at(s, at);
        if t.kind != TokenKind::Invalid {
            let rest = tokens(s, t.end as int);
            lemma_tokens_well_formed(s, t.end as int);
            let all = seq![t] + rest;
            assert(all.last() == rest.last());
            assert forall|i: int| 0 <= i < all.len() - 1 implies !is_terminal(
                #[trigger] all[i].kind,
            ) by {
                if i > 0 {
                    assert(all[i] == rest[i - 1]);
                }
            }
            assert forall|i: int| 0 <= i < all.len() implies (#[trigger] all[i]).start
                <= all[i].end <= s.len() by {
                if i > 0 {
                    assert(all[i] == rest[i - 1]);
                }
            }
            assert forall|i: int, k: int|
                0 <= i < all.len() && is_text(all[i].kind) && all[i].start <= k
                    < all[i].end implies #[trigger] byte_of(s, all[i], k) < 128 by {
                if i > 0 {
                    assert(all[i] == rest[i - 1]);
                    assert(byte_of(s, rest[i - 1], k) < 128);
                }
            }
        }
    }
}

/// Only blanks stand from `from` up to `to`.
#[verifier::opaque]
pub open spec fn blank_between(s: Seq<u8>, from: int, to: int) -> bool {
    from <= to <= s.len() && forall|k: int| from <= k < to ==> is_space(#[trigger] s[k])
}

/// The bytes from `from` up to `to` are digits, and there is at least one.
pub open spec fn digits_between(s: Seq<u8>, from: int, to: int) -> bool {
    0 <= from < to <= s.len() && forall|k: int| from <= k < to ==> is_digit(#[trigger] s[k])
}

/// The byte at `at` is the punctuation mark of a kind of token.
pub open spec fn is_mark(b: u8, kind: TokenKind) -> bool {
    match kind {
        TokenKind::LParen => b == LPAREN,
        TokenKind::RParen => b == RPAREN,
        TokenKind::LBrace => b == LBRACE,
        TokenKind::RBrace => b == RBRACE,
        TokenKind::Comma => b == COMMA,
        TokenKind::Equals => b == EQUALS,
        _ => false,
    }
}

/// A token begins with the byte at `at`: a punctuation mark, a letter, a
/// digit, or a minus sign before a digit.
pub open spec fn begins_token(s: Seq<u8>, at: int) -> bool {
    let b = s[at];
    b == LPAREN || b == RPAREN || b == LBRACE || b == RBRACE || b == COMMA || b == EQUALS
        || is_letter(b) || is_digit(b) || (b == MINUS && at + 1 < s.len() && is_digit(s[at + 1]))
}

/// From `start` up to `end` stands a number that cannot be longer: an
/// optional minus sign and digits up to `whole`, and then either nothing, or a
/// point and more digits.
pub open spec fn number_with_whole(s: Seq<u8>, start: int, whole: int, end: int) -> bool {
    let digits = if s[start] == MINUS {
        start + 1
    } else {
        start
    };
    &&& digits_between(s, digits, whole)
    &&& whole < s.len() ==> !is_digit(s[whole])
    &&& if whole + 1 < s.len() && s[whole] == POINT && is_digit(s[whole + 1]) {
        digits_between(s, whole + 1, end) && (end < s.len() ==> !is_digit(s[end]))
    } else {
        end == whole
    }
}

/// The token is what its kind says, and cannot be longer.
#[verifier::opaque]
pub open spec fn token_fits(s: Seq<u8>, t: Token) -> bool {
    let start = t.start as int;
    let end = t.end as int;
    match t.kind {
        TokenKind::Ident => {
            &&& 0 <= start < end <= s.len()
            &&& is_letter(s[start])
            &&& forall|k: int| start < k < end ==> in_class(Class::Word, #[trigger] s[k])
            &&& end < s.len() ==> !in_class(Class::Word, s[end])
        },
        TokenKind::Number => {
            &&& 0 <= start < end <= s.len()
            &&& exists|whole: int| #[trigger] number_with_whole(s, start, whole, end)
        },
        TokenKind::Invalid => 0 <= start < s.len() && end == start + 1 && !begins_token(s, start),
        TokenKind::End => start == s.len() && end == s.len(),
        _ => 0 <= start < s.len() && end == start + 1 && is_mark(s[start], t.kind),
    }
}

/// The tokens stand in the text one after the other, with only blanks before,
/// between and, if the last is `End`, after them; and each is what its kind says.
#[verifier::opaque]
pub open spec fn tiles(s: Seq<u8>, from: int, toks: Seq<Token>) -> bool {
    &&& toks.len() > 0
    &&& blank_between(s, from, toks[0].start as int)
    &&& forall|i: int| 0 <= i < toks.len() ==> token_fits(s, #[trigger] toks[i])
    &&& forall|i: int| 0 <= i < toks.len() - 1 ==> #[trigger] blank_after(s, toks, i)
}

/// Only blanks stand between the token at `i` and the next.
pub open spec fn blank_after(s: Seq<u8>, toks: Seq<Token>, i: int) -> bool {
    blank_between(s, toks[i].end as int, toks[i + 1].start as int)
}

proof fn lemma_number_fits(s: Seq<u8>, start: int)
    requires
        0 <= start < s.len(),
        s.len() <= usize::MAX,
        is_digit(s[start]) || (s[start] == MINUS && start + 1 < s.len() && is_digit(s[start + 1])),
    ensures
        token_fits(s, token_at(s, start)),
        token_at(s, start).kind == TokenKind::Number,
{
    reveal(token_fits);
    let digits = if s[start] == MINUS {
        start + 1
    } else {
        start
    };
    let whole = run_end(s, Class::Digit, digits);
    lemma_run_end(s, Class::Digit, digits);
    lemma_number_end(s, digits);
    if whole + 1 < s.len() && s[whole] == POINT && is_digit(s[whole + 1]) {
        lemma_run_end(s, Class::Digit, whole + 1);
    }
    let t = token_at(s, start);
    assert(t.end == number_end(s, digits));
    assert(number_with_whole(s, start, whole, t.end as int));
}

/// The token that is read at a byte that is no blank is what its kind says.
pub proof fn lemma_token_fits(s: Seq<u8>, at: int)
    requires
        0 <= at < s.len(),
        s.len() <= usize::MAX,
    ensures
        token_fits(s, token_at(s, at)),
{
    reveal(token_fits);
    let b = s[at];
    lemma_token_at(s, at);
    if b == LPAREN || b == RPAREN || b == LBRACE || b == RBRACE || b == COMMA || b == EQUALS {
    } else if is_letter(b) {
        lemma_run_end(s, Class::Word, at + 1);
    } else if is_digit(b) || (b == MINUS && at + 1 < s.len() && is_digit(s[at + 1])) {
        lemma_number_fits(s, at);
    } else {
    }
}

/// A token that is read ends after it starts.
proof fn lemma_token_span(s: Seq<u8>, at: int)
    requires
        0 <= at < s.len(),
        s.len() <= usize::MAX,
    ensures
        token_at(s, at).start == at,
        at < token_at(s, at).end <= s.len(),
{
    lemma_token_at(s, at);
}

/// Only blanks stand before the first byte that is none.
proof fn lemma_blank_run(s: Seq<u8>, from: int)
    requires
        0 <= from <= s.len(),
    ensures
        from <= run_end(s, Class::Space, from) <= s.len(),
        blank_between(s, from, run_end(s, Class::Space, from)),
{
    reveal(blank_between);
    lemma_run_end(s, Class::Space, from);
}

/// The tokens of a text tile it.
pub proof fn lemma_tokens_tile(s: Seq<u8>, from: int)
    requires
        0 <= from <= s.len(),
        s.len() <= usize::MAX,
    ensures
        tiles(s, from, tokens(s, from)),
    decreases s.len() - from,
{
    reveal(tiles);
    let at = run_end(s, Class::Space, from);
    lemma_blank_run(s, from);
    if at >= s.len() {
        let end = spanning(TokenKind::End, s.len() as int, s.len() as int);
        assert(token_fits(s, end)) by {
            reveal(token_fits);
        }
    } else {
        let t = token_at(s, at);
        lemma_token_span(s, at);
        lemma_token_fits(s, at);
        if t.kind != TokenKind::Invalid {
            let rest = tokens(s, t.end as int);
            lemma_tokens_tile(s, t.end as int);
            let all = seq![t] + rest;
            assert(tokens(s, from) == all);
            assert(all[0] == t);
            assert forall|i: int| 0 <= i < all.len() implies token_fits(s, #[trigger] all[i]) by {
                if i > 0 {
                    assert(all[i] == rest[i - 1]);
                }
            }
            assert forall|i: int| 0 <= i < all.len() - 1 implies #[trigger] blank_after(
                s,
                all,
                i,
            ) by {
                assert(all[i + 1] == rest[i]);
                if i > 0 {
                    assert(all[i] == rest[i - 1]);
                    assert(blank_after(s, rest, i - 1));
                }
            }
        } else {
            assert(tokens(s, from) == seq![t]);
        }
    }
}

fn in_class_exec(class: Class, b: u8) -> (r: bool)
    ensures
        r == in_class(class, b),
{
    match class {
        Class::Space => b == 32 || b == 9 || b == 10 || b == 13,
        Class::Digit => 48 <= b && b <= 57,
        Class::Word => (65 <= b && b <= 90) || (97 <= b && b <= 122) || b == 95 || (48 <= b && b
            <= 57),
    }
}

/// Runs over the bytes of `class` from `from` on.
fn scan(bytes: &[u8], class: Class, from: usize) -> (end: usize)
    requires
        from <= bytes@.len(),
    ensures
        end == run_end(bytes@, class, from as int),
        from <= end <= bytes@.len(),
{
    let mut i: usize = from;
    while i < bytes.len() && in_class_exec(class, bytes[i])
        invariant
            from <= i <= bytes@.len(),
            run_end(bytes@, class, from as int) == run_end(bytes@, class, i as int),
        decreases bytes@.len() - i,
    {
        i += 1;
    }
    i
}

fn scan_number(bytes: &[u8], digits: usize) -> (end: usize)
    requires
        digits <= bytes@.len(),
    ensures
        end == number_end(bytes@, digits as int),
        digits <= end <= bytes@.len(),
{
    let whole = scan(bytes, Class::Digit, digits);
    if whole < bytes.len() && bytes.len() - whole > 1 && bytes[whole] == POINT && in_class_exec(
        Class::Digit,
        bytes[whole + 1],
    ) {
        scan(bytes, Class::Digit, whole + 1)
    } else {
        whole
    }
}

fn read_token(bytes: &[u8], at: usize) -> (t: Token)
    requires
        at < bytes@.len(),
    ensures
        t == token_at(bytes@, at as int),
        at < t.end <= bytes@.len(),
{
    let len = bytes.len();
    proof {
        lemma_token_at(bytes@, at as int);
    }
    let b = bytes[at];
    if b == LPAREN {
        Token { kind: TokenKind::LParen, start: at, end: at + 1 }
    } else if b == RPAREN {
        Token { kind: TokenKind::RParen, start: at, end: at + 1 }
    } else if b == LBRACE {
        Token { kind: TokenKind::LBrace, start: at, end: at + 1 }
    } else if b == RBRACE {
        Token { kind: TokenKind::RBrace, start: at, end: at + 1 }
    } else if b == COMMA {
        Token { kind: TokenKind::Comma, start: at, end: at + 1 }
    } else if b == EQUALS {
        Token { kind: TokenKind::Equals, start: at, end: at + 1 }
    } else if (65 <= b && b <= 90) || (97 <= b && b <= 122) || b == 95 {
        Token { kind: TokenKind::Ident, start: at, end: scan(bytes, Class::Word, at + 1) }
    } else if 48 <= b && b <= 57 {
        Token { kind: TokenKind::Number, start: at, end: scan_number(bytes, at) }
    } else if b == MINUS && len - at > 1 && in_class_exec(Class::Digit, bytes[at + 1]) {
        Token { kind: TokenKind::Number, start: at, end: scan_number(bytes, at + 1) }
    } else {
        Token { kind: TokenKind::Invalid, start: at, end: at + 1 }
    }
}

/// Splits the text into its tokens.
pub fn tokenize(bytes: &[u8]) -> (toks: Vec<Token>)
    ensures
        toks@ == tokens(bytes@, 0),
        well_formed(toks@, bytes@),
        tiles(bytes@, 0, toks@),
{
    let mut toks: Vec<Token> = Vec::new();
    let mut pos: usize = 0;
    loop
        invariant_except_break
            tokens(bytes@, 0) == toks@ + tokens(bytes@, pos as int),
        invariant
            pos <= bytes@.len(),
        ensures
            toks@ == tokens(bytes@, 0),
        decreases bytes@.len() - pos,
    {
        let at = scan(bytes, Class::Space, pos);
        if at >= bytes.len() {
            toks.push(Token { kind: TokenKind::End, start: bytes.len(), end: bytes.len() });
            break ;
        }
        let t = read_token(bytes, at);
        let ghost before = toks@;
        toks.push(t);
        if t.kind == TokenKind::Invalid {
            break ;
        }
        proof {
            assert(before + (seq![t] + tokens(bytes@, t.end as int)) == toks@ + tokens(
                bytes@,
                t.end as int,
            ));
        }
        pos = t.end;
    }
    let len = bytes.len();
    proof {
        lemma_tokens_well_formed(bytes@, 0);
        lemma_tokens_tile(bytes@, 0);
    }
    toks
}

} // verus!
