//! The mathematical model of scanning: byte classes, the token found at
//! the front of a byte sequence, and the whole token sequence of an input.
use vstd::prelude::*;
use crate::ascii::{
    CARRIAGE_RETURN, CLOSE_BRACE, CLOSE_PAREN, COMMA, DIGIT_NINE, DIGIT_ZERO, EQUALS, EXCLAMATION, GREATER, HYPHEN, LESS, LOWER_A, LOWER_Z, NEWLINE, OPEN_BRACE, OPEN_PAREN, PLUS, SEMICOLON, SLASH, SPACE, STAR, TAB, UNDERSCORE, UPPER_A, UPPER_Z,
};
use crate::token::SpecToken;

verus! {

/// ASCII whitespace as the scanner skips it: space, tab, newline and
/// carriage return.
pub open spec fn is_space(b: u8) -> bool {
    b == SPACE || b == TAB || b == NEWLINE || b == CARRIAGE_RETURN
}

pub open spec fn is_digit(b: u8) -> bool {
    DIGIT_ZERO <= b <= DIGIT_NINE
}

/// A byte that may start an identifier: an ASCII letter or `_`.
pub open spec fn starts_word(b: u8) -> bool {
    (LOWER_A <= b <= LOWER_Z) || (UPPER_A <= b <= UPPER_Z) || b == UNDERSCORE
}

/// A byte that may continue an identifier: a letter, a digit or `_`.
pub open spec fn continues_word(b: u8) -> bool {
    starts_word(b) || is_digit(b)
}

/// The classes of bytes that the scanner consumes in maximal runs.
pub enum ByteClass {
    Space,
    Word,
    Digit,
}

pub open spec fn in_class(c: ByteClass, b: u8) -> bool {
    match c {
        ByteClass::Space => is_space(b),
        ByteClass::Word => continues_word(b),
        ByteClass::Digit => is_digit(b),
    }
}

/// The length of the longest prefix of `s` made only of bytes of class `c`.
pub open spec fn run_len(s: Seq<u8>, c: ByteClass) -> nat
    decreases s.len(),
{
    if s.len() > 0 && in_class(c, s[0]) {
        1 + run_len(s.drop_first(), c)
    } else {
        0
    }
}

/// The token for an identifier-shaped run `w`: a keyword when `w` is one,
/// byte for byte, and otherwise an identifier carrying `w`.
pub open spec fn word_token(w: Seq<u8>) -> SpecToken {
    if w == seq![0x66u8, 0x6Eu8] {  // fn
        SpecToken::Function
    } else if w == seq![0x6Cu8, 0x65u8, 0x74u8] {  // let
        SpecToken::Let
    } else if w == seq![0x74u8, 0x72u8, 0x75u8, 0x65u8] {  // true
        SpecToken::True
    } else if w == seq![0x66u8, 0x61u8, 0x6Cu8, 0x73u8, 0x65u8] {  // false
        SpecToken::False
    } else if w == seq![0x69u8, 0x66u8] {  // if
        SpecToken::If
    } else if w == seq![0x65u8, 0x6Cu8, 0x73u8, 0x65u8] {  // else
        SpecToken::Else
    } else if w == seq![0x72u8, 0x65u8, 0x74u8, 0x75u8, 0x72u8, 0x6Eu8] {  // return
        SpecToken::Return
    } else {
        SpecToken::Identifier(w)
    }
}

pub open spec fn is_keyword(w: Seq<u8>) -> bool {
    !(word_token(w) is Identifier)
}

/// Whether the byte after the first one exists and is `b`.
pub open spec fn second_is(s: Seq<u8>, b: u8) -> bool {
    s.len() > 1 && s[1] == b
}

/// The bytes that begin an operator or a punctuation token.
pub open spec fn is_symbol(b: u8) -> bool {
    b == EQUALS || b == EXCLAMATION || b == LESS || b == GREATER || b == STAR || b == PLUS || b
        == HYPHEN || b == SLASH || b == COMMA || b == SEMICOLON || b == OPEN_PAREN || b
        == CLOSE_PAREN || b == OPEN_BRACE || b == CLOSE_BRACE
}

/// The token at the front of `s`, which starts with a byte that is not
/// whitespace, and the number of bytes it takes.
pub open spec fn front_token(s: Seq<u8>) -> (SpecToken, nat) {
    let b = s[0];
    if starts_word(b) {
        let n = run_len(s, ByteClass::Word);
        (word_token(s.take(n as int)), n)
    } else if is_digit(b) {
        let n = run_len(s, ByteClass::Digit);
        (SpecToken::Integer(s.take(n as int)), n)
    } else {
        symbol_token(s)
    }
}

/// The operator, punctuation or illegal token at the front of `s`, and the
/// number of bytes it takes: two for a two-byte operator, else one.
pub open spec fn symbol_token(s: Seq<u8>) -> (SpecToken, nat) {
    let b = s[0];
    if b == EQUALS {
        if second_is(s, EQUALS) { (SpecToken::Equal, 2) } else { (SpecToken::Assign, 1) }
    } else if b == EXCLAMATION {
        if second_is(s, EQUALS) { (SpecToken::NotEqual, 2) } else { (SpecToken::Bang, 1) }
    } else if b == LESS {
        if second_is(s, EQUALS) {
            (SpecToken::LessThanOrEqual, 2)
        } else {
            (SpecToken::LessThan, 1)
        }
    } else if b == GREATER {
        if second_is(s, EQUALS) {
            (SpecToken::GreaterThanOrEqual, 2)
        } else {
            (SpecToken::GreaterThan, 1)
        }
    } else if b == STAR {
        if second_is(s, STAR) { (SpecToken::Pow, 2) } else { (SpecToken::Asterisk, 1) }
    } else if b == PLUS {
        (SpecToken::Plus, 1)
    } else if b == HYPHEN {
        (SpecToken::Minus, 1)
    } else if b == SLASH {
        (SpecToken::Slash, 1)
    } else if b == COMMA {
        (SpecToken::Comma, 1)
    } else if b == SEMICOLON {
        (SpecToken::Semicolon, 1)
    } else if b == OPEN_PAREN {
        (SpecToken::LeftParen, 1)
    } else if b == CLOSE_PAREN {
        (SpecToken::RightParen, 1)
    } else if b == OPEN_BRACE {
        (SpecToken::LeftBrace, 1)
    } else if b == CLOSE_BRACE {
        (SpecToken::RightBrace, 1)
    } else {
        (SpecToken::Illegal(seq![b]), 1)
    }
}

/// One call of the scanner on the unread input `s`: the token it yields
/// (`None` at end of input) and the number of bytes it consumes, leading
/// whitespace included.
pub open spec fn step(s: Seq<u8>) -> (Option<SpecToken>, nat) {
    let k = run_len(s, ByteClass::Space);
    if k >= s.len() {
        (None, k)
    } else {
        let (t, n) = front_token(s.skip(k as int));
        (Some(t), k + n)
    }
}

/// The whole sequence of tokens that scanning `s` yields.
pub open spec fn tokens(s: Seq<u8>) -> Seq<SpecToken>
    decreases s.len(),
{
    let (t, n) = step(s);
    match t {
        None => seq![],
        Some(t) => {
            proof {
                lemma_step_consumes(s);
            }
            seq![t] + tokens(s.skip(n as int))
        },
    }
}

/// The first token of `ts`, or `None` when there is none.
pub open spec fn first(ts: Seq<SpecToken>) -> Option<SpecToken> {
    if ts.len() > 0 {
        Some(ts[0])
    } else {
        None
    }
}

/// `ts` without its first token; empty stays empty.
pub open spec fn tail(ts: Seq<SpecToken>) -> Seq<SpecToken> {
    if ts.len() > 0 {
        ts.drop_first()
    } else {
        ts
    }
}

/// A run is made of bytes of its class, and is followed by the end of `s`
/// or by a byte outside the class.
pub proof fn lemma_run_len(s: Seq<u8>, c: ByteClass)
    ensures
        run_len(s, c) <= s.len(),
        forall|j: int| 0 <= j < run_len(s, c) ==> in_class(c, #[trigger] s[j]),
        run_len(s, c) < s.len() ==> !in_class(c, s[run_len(s, c) as int]),
    decreases s.len(),
{
    if s.len() > 0 && in_class(c, s[0]) {
        lemma_run_len(s.drop_first(), c);
        assert forall|j: int| 0 <= j < run_len(s, c) implies in_class(c, #[trigger] s[j]) by {
            if j > 0 {
                assert(s[j] == s.drop_first()[j - 1]);
            }
        }
    }
}

/// A run is determined by where it stops: a position `k` such that all
/// bytes before it are in the class and the byte at it (if any) is not.
pub proof fn lemma_run_len_at(s: Seq<u8>, c: ByteClass, k: nat)
    requires
        k <= s.len(),
        forall|j: int| 0 <= j < k ==> in_class(c, #[trigger] s[j]),
        k < s.len() ==> !in_class(c, s[k as int]),
    ensures
        run_len(s, c) == k,
{
    lemma_run_len(s, c);
    if run_len(s, c) < k {
        assert(in_class(c, s[run_len(s, c) as int]));
    } else if run_len(s, c) > k {
        assert(in_class(c, s[k as int]));
    }
}

/// A token takes at least one byte and never more than remain; at end of
/// input the whole rest, which is whitespace, is consumed.
pub proof fn lemma_step_consumes(s: Seq<u8>)
    ensures
        step(s).0 is Some ==> 1 <= step(s).1 <= s.len(),
        step(s).0 is None ==> step(s).1 == s.len(),
{
    let k = run_len(s, ByteClass::Space);
    lemma_run_len(s, ByteClass::Space);
    if k < s.len() {
        let r = s.skip(k as int);
        lemma_run_len(r, ByteClass::Word);
        lemma_run_len(r, ByteClass::Digit);
    }
}

/// One call of the scanner takes the first token of the token sequence of
/// the unread input, and leaves the rest of that sequence unread.
pub proof fn lemma_step_takes_first(s: Seq<u8>)
    ensures
        step(s).0 == first(tokens(s)),
        tokens(s.skip(step(s).1 as int)) == tail(tokens(s)),
{
    lemma_step_consumes(s);
    let rest = s.skip(step(s).1 as int);
    if step(s).0 is Some {
        assert(tokens(s).drop_first() =~= tokens(rest));
    } else {
        assert(rest.len() == 0);
        lemma_run_len_at(rest, ByteClass::Space, 0);
        assert(tokens(rest) =~= tokens(s));
    }
}

} // verus!
