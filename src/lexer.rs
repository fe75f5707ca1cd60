//! The scanner: a cursor over a borrowed input buffer that yields one token
//! per call.
use vstd::prelude::*;
use crate::ascii::{
    CARRIAGE_RETURN, CLOSE_BRACE, CLOSE_PAREN, COMMA, DIGIT_NINE, DIGIT_ZERO, EQUALS, EXCLAMATION,
    GREATER, HYPHEN, LESS, LOWER_A, LOWER_Z, NEWLINE, OPEN_BRACE, OPEN_PAREN, PLUS, SEMICOLON,
    SLASH, SPACE, STAR, TAB, UNDERSCORE, UPPER_A, UPPER_Z,
};
use crate::model::{
    continues_word, first, in_class, is_digit, is_space, is_symbol, lemma_run_len_at,
    lemma_step_consumes, lemma_step_takes_first, run_len, starts_word, step, symbol_token, tail, tokens,
    word_token, ByteClass,
};
use crate::token::{opt_view, views, SpecToken, Token};

verus! {

/// A scanner over an immutable input buffer.
///
/// The cursor only moves forward; once it reaches the end of the buffer
/// every call of [`Lexer::next`] returns `None`.
pub struct Lexer<'a> {
    bytes: &'a [u8],
    cursor: usize,
}

impl<'a> Lexer<'a> {
    /// The whole input buffer.
    pub closed spec fn input(&self) -> Seq<u8> {
        self.bytes@
    }

    /// The offset of the first unread byte.
    pub closed spec fn cursor(&self) -> nat {
        self.cursor as nat
    }

    /// The cursor stays within the buffer.
    pub open spec fn wf(&self) -> bool {
        self.cursor() <= self.input().len()
    }

    /// The bytes not read yet.
    pub open spec fn rest(&self) -> Seq<u8> {
        self.input().skip(self.cursor() as int)
    }

    /// A scanner at the start of `bytes`.
    pub fn new(bytes: &'a [u8]) -> (l: Self)
        ensures
            l.input() == bytes@,
            l.cursor() == 0,
            l.wf(),
    {
        Lexer { bytes, cursor: 0 }
    }

    fn move_step(&mut self)
        requires
            old(self).cursor < old(self).bytes.len(),
        ensures
            final(self).bytes == old(self).bytes,
            final(self).cursor == old(self).cursor + 1,
    {
        self.cursor = self.cursor + 1;
    }

    fn is_whitespace(b: u8) -> (r: bool)
        ensures
            r == is_space(b),
    {
        b == SPACE || b == TAB || b == NEWLINE || b == CARRIAGE_RETURN
    }

    /// A letter or `_`: a byte that starts an identifier.
    fn is_alphabetic(b: u8) -> (r: bool)
        ensures
            r == starts_word(b),
    {
        (LOWER_A <= b && b <= LOWER_Z) || (UPPER_A <= b && b <= UPPER_Z) || b == UNDERSCORE
    }

    fn is_digit(b: u8) -> (r: bool)
        ensures
            r == is_digit(b),
    {
        DIGIT_ZERO <= b && b <= DIGIT_NINE
    }

    /// A letter, a digit or `_`: a byte that continues an identifier.
    fn is_alphanumeric(b: u8) -> (r: bool)
        ensures
            r == continues_word(b),
    {
        Self::is_alphabetic(b) || Self::is_digit(b)
    }

    /// The byte after the one under the cursor, if there is one; `None` at
    /// end of input.
    fn peek_char(&self) -> (r: Option<u8>)
        requires
            self.wf(),
        ensures
            r == (if self.cursor + 1 < self.bytes.len() {
                Some(self.bytes@[self.cursor + 1])
            } else {
                None
            }),
    {
        if self.cursor < self.bytes.len() && self.cursor + 1 < self.bytes.len() {
            Some(self.bytes[self.cursor + 1])
        } else {
            None
        }
    }

    /// Moves the cursor past a run of whitespace.
    fn skip_whitespace(&mut self)
        requires
            old(self).wf(),
        ensures
            final(self).bytes == old(self).bytes,
            final(self).wf(),
            final(self).cursor() == old(self).cursor() + run_len(old(self).rest(), ByteClass::Space),
    {
        let ghost s = self.rest();
        let ghost start = self.cursor as int;
        while self.cursor < self.bytes.len() && Self::is_whitespace(self.bytes[self.cursor])
            invariant
                self.bytes == old(self).bytes,
                s == self.bytes@.skip(start),
                start <= self.cursor <= self.bytes.len(),
                forall|j: int| start <= j < self.cursor ==> is_space(#[trigger] self.bytes@[j]),
            decreases self.bytes.len() - self.cursor,
        {
            self.move_step();
        }
        let ghost k = (self.cursor - start) as nat;
        assert forall|j: int| 0 <= j < k implies in_class(
            ByteClass::Space,
            #[trigger] s[j],
        ) by {
            assert(s[j] == self.bytes@[start + j]);
        }
        proof {
            lemma_run_len_at(s, ByteClass::Space, k);
        }
    }

    /// Reads the maximal run of letters, digits and `_` at the cursor.
    fn read_identifier(&mut self) -> (r: Vec<u8>)
        requires
            old(self).cursor < old(self).bytes.len(),
            starts_word(old(self).bytes@[old(self).cursor as int]),
        ensures
            final(self).bytes == old(self).bytes,
            final(self).wf(),
            final(self).cursor() == old(self).cursor() + run_len(old(self).rest(), ByteClass::Word),
            r@ == old(self).rest().take(run_len(old(self).rest(), ByteClass::Word) as int),
    {
        let ghost s = self.rest();
        let start = self.cursor;
        let mut word: Vec<u8> = Vec::new();
        while self.cursor < self.bytes.len() && Self::is_alphanumeric(self.bytes[self.cursor])
            invariant
                self.bytes == old(self).bytes,
                s == self.bytes@.skip(start as int),
                start <= self.cursor <= self.bytes.len(),
                word@ == self.bytes@.subrange(start as int, self.cursor as int),
                forall|j: int| start <= j < self.cursor ==> continues_word(#[trigger] self.bytes@[j]),
            decreases self.bytes.len() - self.cursor,
        {
            word.push(self.bytes[self.cursor]);
            self.move_step();
        }
        let ghost k = (self.cursor - start) as nat;
        assert forall|j: int| 0 <= j < k implies in_class(
            ByteClass::Word,
            #[trigger] s[j],
        ) by {
            assert(s[j] == self.bytes@[start + j]);
        }
        proof {
            lemma_run_len_at(s, ByteClass::Word, k);
        }
        assert(word@ =~= s.take(k as int));
        word
    }

    /// Reads the maximal run of ASCII digits at the cursor.
    fn read_number(&mut self) -> (r: Vec<u8>)
        requires
            old(self).cursor < old(self).bytes.len(),
            is_digit(old(self).bytes@[old(self).cursor as int]),
        ensures
            final(self).bytes == old(self).bytes,
            final(self).wf(),
            final(self).cursor() == old(self).cursor() + run_len(old(self).rest(), ByteClass::Digit),
            r@ == old(self).rest().take(run_len(old(self).rest(), ByteClass::Digit) as int),
    {
        let ghost s = self.rest();
        let start = self.cursor;
        let mut digits: Vec<u8> = Vec::new();
        while self.cursor < self.bytes.len() && Self::is_digit(self.bytes[self.cursor])
            invariant
                self.bytes == old(self).bytes,
                s == self.bytes@.skip(start as int),
                start <= self.cursor <= self.bytes.len(),
                digits@ == self.bytes@.subrange(start as int, self.cursor as int),
                forall|j: int| start <= j < self.cursor ==> is_digit(#[trigger] self.bytes@[j]),
            decreases self.bytes.len() - self.cursor,
        {
            digits.push(self.bytes[self.cursor]);
            self.move_step();
        }
        let ghost k = (self.cursor - start) as nat;
        assert forall|j: int| 0 <= j < k implies in_class(
            ByteClass::Digit,
            #[trigger] s[j],
        ) by {
            assert(s[j] == self.bytes@[start + j]);
        }
        proof {
            lemma_run_len_at(s, ByteClass::Digit, k);
        }
        assert(digits@ =~= s.take(k as int));
        digits
    }

    /// Classifies an identifier-shaped run: a keyword, or an identifier
    /// carrying the run.
    fn handle_ident(bytes: Vec<u8>) -> (t: Token)
        ensures
            t@ == word_token(bytes@),
    {
        let n = bytes.len();
        if n == 2 && bytes[0] == 0x66 && bytes[1] == 0x6E {
            // fn
            assert(bytes@ =~= seq![0x66u8, 0x6Eu8]);
            Token::Function
        } else if n == 3 && bytes[0] == 0x6C && bytes[1] == 0x65 && bytes[2] == 0x74 {
            // let
            assert(bytes@ =~= seq![0x6Cu8, 0x65u8, 0x74u8]);
            Token::Let
        } else if n == 4 && bytes[0] == 0x74 && bytes[1] == 0x72 && bytes[2] == 0x75 && bytes[3]
            == 0x65 {
            // true
            assert(bytes@ =~= seq![0x74u8, 0x72u8, 0x75u8, 0x65u8]);
            Token::True
        } else if n == 5 && bytes[0] == 0x66 && bytes[1] == 0x61 && bytes[2] == 0x6C && bytes[3]
            == 0x73 && bytes[4] == 0x65 {
            // false
            assert(bytes@ =~= seq![0x66u8, 0x61u8, 0x6Cu8, 0x73u8, 0x65u8]);
            Token::False
        } else if n == 2 && bytes[0] == 0x69 && bytes[1] == 0x66 {
            // if
            assert(bytes@ =~= seq![0x69u8, 0x66u8]);
            Token::If
        } else if n == 4 && bytes[0] == 0x65 && bytes[1] == 0x6C && bytes[2] == 0x73 && bytes[3]
            == 0x65 {
            // else
            assert(bytes@ =~= seq![0x65u8, 0x6Cu8, 0x73u8, 0x65u8]);
            Token::Else
        } else if n == 6 && bytes[0] == 0x72 && bytes[1] == 0x65 && bytes[2] == 0x74 && bytes[3]
            == 0x75 && bytes[4] == 0x72 && bytes[5] == 0x6E {
            // return
            assert(bytes@ =~= seq![0x72u8, 0x65u8, 0x74u8, 0x75u8, 0x72u8, 0x6Eu8]);
            Token::Return
        } else {
            Token::Identifier(bytes)
        }
    }

    /// Reads an operator, a punctuation byte or an illegal byte at the
    /// cursor; a two-byte operator is formed when the next byte completes it.
    fn handle_symbol(&mut self) -> (t: Token)
        requires
            old(self).cursor < old(self).bytes.len(),
        ensures
            final(self).bytes == old(self).bytes,
            final(self).wf(),
            t@ == symbol_token(old(self).rest()).0,
            final(self).cursor() == old(self).cursor() + symbol_token(old(self).rest()).1,
            !is_symbol(old(self).bytes@[old(self).cursor as int]) ==> t@ == SpecToken::Illegal(
                seq![old(self).bytes@[old(self).cursor as int]],
            ) && final(self).cursor() == old(self).cursor() + 1,
    {
        let ghost s = self.rest();
        let curr = self.bytes[self.cursor];
        let next = self.peek_char();
        assert(s[0] == curr);
        assert(s.len() > 1 ==> s[1] == self.bytes@[self.cursor + 1]);
        self.move_step();
        if curr == EQUALS || curr == EXCLAMATION || curr == LESS || curr == GREATER {
            if next == Some(EQUALS) {
                self.move_step();
                if curr == EQUALS {
                    Token::Equal
                } else if curr == EXCLAMATION {
                    Token::NotEqual
                } else if curr == LESS {
                    Token::LessThanOrEqual
                } else {
                    Token::GreaterThanOrEqual
                }
            } else if curr == EQUALS {
                Token::Assign
            } else if curr == EXCLAMATION {
                Token::Bang
            } else if curr == LESS {
                Token::LessThan
            } else {
                Token::GreaterThan
            }
        } else if curr == STAR {
            if next == Some(STAR) {
                self.move_step();
                Token::Pow
            } else {
                Token::Asterisk
            }
        } else if curr == PLUS {
            Token::Plus
        } else if curr == HYPHEN {
            Token::Minus
        } else if curr == SLASH {
            Token::Slash
        } else if curr == COMMA {
            Token::Comma
        } else if curr == SEMICOLON {
            Token::Semicolon
        } else if curr == OPEN_PAREN {
            Token::LeftParen
        } else if curr == CLOSE_PAREN {
            Token::RightParen
        } else if curr == OPEN_BRACE {
            Token::LeftBrace
        } else if curr == CLOSE_BRACE {
            Token::RightBrace
        } else {
            let mut illegal: Vec<u8> = Vec::new();
            illegal.push(curr);
            assert(illegal@ =~= seq![curr]);
            Token::Illegal(illegal)
        }
    }

    /// Produces the next token, or `None` once only whitespace is left.
    ///
    /// The cursor moves past the whitespace before the token and past the
    /// token itself; at end of input it rests at the end of the buffer.
    pub fn next(&mut self) -> (r: Option<Token>)
        requires
            old(self).wf(),
        ensures
            final(self).wf(),
            final(self).input() == old(self).input(),
            opt_view(r) == step(old(self).rest()).0,
            final(self).cursor() == old(self).cursor() + step(old(self).rest()).1,
            opt_view(r) == first(tokens(old(self).rest())),
            tokens(final(self).rest()) == tail(tokens(old(self).rest())),
            r is None ==> final(self).cursor() == final(self).input().len(),
    {
        let ghost s = self.rest();
        proof {
            lemma_step_consumes(s);
            lemma_step_takes_first(s);
            let n = step(s).1;
            assert(self.input().skip((self.cursor() + n) as int) =~= s.skip(n as int));
        }
        self.skip_whitespace();
        if self.cursor >= self.bytes.len() {
            return None;
        }
        let ghost k = self.cursor - old(self).cursor;
        assert(self.rest() =~= s.skip(k));
        let curr = self.bytes[self.cursor];
        assert(self.rest()[0] == curr);
        if Self::is_alphabetic(curr) {
            let word = self.read_identifier();
            Some(Self::handle_ident(word))
        } else if Self::is_digit(curr) {
            Some(Token::Integer(self.read_number()))
        } else {
            Some(self.handle_symbol())
        }
    }

    /// Scans everything that is left and returns the tokens in order,
    /// leaving the scanner exhausted.
    pub fn collect_tokens(&mut self) -> (r: Vec<Token>)
        requires
            old(self).wf(),
        ensures
            final(self).wf(),
            final(self).input() == old(self).input(),
            final(self).cursor() == final(self).input().len(),
            views(r@) == tokens(old(self).rest()),
    {
        let mut out: Vec<Token> = Vec::new();
        loop
            invariant
                self.wf(),
                self.input() == old(self).input(),
                views(out@) + tokens(self.rest()) == tokens(old(self).rest()),
            ensures
                self.wf(),
                self.input() == old(self).input(),
                self.cursor() == self.input().len(),
                views(out@) == tokens(old(self).rest()),
            decreases self.input().len() - self.cursor(),
        {
            let ghost s = self.rest();
            let ghost c = self.cursor();
            proof {
                lemma_step_consumes(s);
            }
            match self.next() {
                None => {
                    assert(views(out@) + tokens(s) =~= views(out@));
                    break;
                },
                Some(t) => {
                    let ghost n = step(s).1;
                    assert(self.rest() =~= s.skip(n as int));
                    assert(tokens(s) == seq![t@] + tokens(s.skip(n as int)));
                    let ghost before = out@;
                    out.push(t);
                    assert(views(out@) =~= views(before) + seq![t@]);
                },
            }
        }
        out
    }
}

} // verus!