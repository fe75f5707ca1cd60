//! General laws of the scanner, proved over the model in [`crate::model`].
//!
//! [`crate::Lexer::next`] and [`crate::Lexer::collect_tokens`] are specified
//! by `step` and `tokens`, so each law below holds of the scanner itself.
use vstd::prelude::*;
use crate::ascii::{EQUALS, EXCLAMATION, GREATER, LESS, STAR};
use crate::model::{
    continues_word, front_token, in_class, is_digit, is_keyword, is_space, is_symbol,
    lemma_run_len, lemma_run_len_at, lemma_step_consumes, run_len, second_is, starts_word, step,
    tokens, word_token, ByteClass,
};
use crate::token::SpecToken;

verus! {

/// Whether every byte of `w` is whitespace.
pub open spec fn all_space(w: Seq<u8>) -> bool {
    forall|j: int| 0 <= j < w.len() ==> is_space(#[trigger] w[j])
}

/// Whether every byte of `s` may continue an identifier and the first one
/// may start it: `s` is one identifier-shaped run.
pub open spec fn is_word(s: Seq<u8>) -> bool {
    &&& s.len() >= 1
    &&& starts_word(s[0])
    &&& forall|j: int| 0 <= j < s.len() ==> continues_word(#[trigger] s[j])
}

/// Maximal munch: an identifier-shaped run scans as exactly one token, the
/// keyword it spells or an identifier carrying the whole run.
pub proof fn lemma_maximal_munch(s: Seq<u8>)
    requires
        is_word(s),
    ensures
        tokens(s) == seq![word_token(s)],
{
    lemma_run_len_at(s, ByteClass::Space, 0);
    assert forall|j: int| 0 <= j < s.len() implies in_class(ByteClass::Word, #[trigger] s[j]) by {}
    lemma_run_len_at(s, ByteClass::Word, s.len());
    assert(s.skip(0) =~= s);
    assert(s.take(s.len() as int) =~= s);
    let rest = s.skip(s.len() as int);
    assert(rest.len() == 0);
    lemma_run_len_at(rest, ByteClass::Space, 0);
    assert(tokens(rest) == Seq::<SpecToken>::empty());
    assert(tokens(s) =~= seq![word_token(s)]);
}

/// Keywords take precedence: a run that spells one of the seven keywords
/// scans as that keyword, and any other run, a keyword with more bytes
/// after it included, scans as one identifier carrying the whole run.
pub proof fn lemma_keyword_precedence(s: Seq<u8>)
    requires
        is_word(s),
    ensures
        s == seq![0x66u8, 0x6Eu8] ==> tokens(s) == seq![SpecToken::Function],
        s == seq![0x6Cu8, 0x65u8, 0x74u8] ==> tokens(s) == seq![SpecToken::Let],
        s == seq![0x74u8, 0x72u8, 0x75u8, 0x65u8] ==> tokens(s) == seq![SpecToken::True],
        s == seq![0x66u8, 0x61u8, 0x6Cu8, 0x73u8, 0x65u8] ==> tokens(s) == seq![SpecToken::False],
        s == seq![0x69u8, 0x66u8] ==> tokens(s) == seq![SpecToken::If],
        s == seq![0x65u8, 0x6Cu8, 0x73u8, 0x65u8] ==> tokens(s) == seq![SpecToken::Else],
        s == seq![0x72u8, 0x65u8, 0x74u8, 0x75u8, 0x72u8, 0x6Eu8] ==> tokens(s) == seq![
            SpecToken::Return,
        ],
        !is_keyword(s) ==> tokens(s) == seq![SpecToken::Identifier(s)],
{
    lemma_maximal_munch(s);
}

/// Longest match for operators: `==`, `!=`, `<=`, `>=` and `**` are taken
/// as one token of two bytes; the first byte alone, followed by anything
/// else or by the end of input, is taken as its one-byte token.
pub proof fn lemma_operator_longest_match(s: Seq<u8>)
    requires
        s.len() >= 1,
    ensures
        s[0] == EQUALS && second_is(s, EQUALS) ==> step(s) == (Some(SpecToken::Equal), 2nat),
        s[0] == EQUALS && !second_is(s, EQUALS) ==> step(s) == (Some(SpecToken::Assign), 1nat),
        s[0] == EXCLAMATION && second_is(s, EQUALS) ==> step(s) == (
            Some(SpecToken::NotEqual),
            2nat,
        ),
        s[0] == EXCLAMATION && !second_is(s, EQUALS) ==> step(s) == (Some(SpecToken::Bang), 1nat),
        s[0] == LESS && second_is(s, EQUALS) ==> step(s) == (
            Some(SpecToken::LessThanOrEqual),
            2nat,
        ),
        s[0] == LESS && !second_is(s, EQUALS) ==> step(s) == (Some(SpecToken::LessThan), 1nat),
        s[0] == GREATER && second_is(s, EQUALS) ==> step(s) == (
            Some(SpecToken::GreaterThanOrEqual),
            2nat,
        ),
        s[0] == GREATER && !second_is(s, EQUALS) ==> step(s) == (
            Some(SpecToken::GreaterThan),
            1nat,
        ),
        s[0] == STAR && second_is(s, STAR) ==> step(s) == (Some(SpecToken::Pow), 2nat),
        s[0] == STAR && !second_is(s, STAR) ==> step(s) == (Some(SpecToken::Asterisk), 1nat),
        tokens(seq![EQUALS, EQUALS]) == seq![SpecToken::Equal],
        tokens(seq![EXCLAMATION, EQUALS]) == seq![SpecToken::NotEqual],
        tokens(seq![LESS, EQUALS]) == seq![SpecToken::LessThanOrEqual],
        tokens(seq![GREATER, EQUALS]) == seq![SpecToken::GreaterThanOrEqual],
        tokens(seq![STAR, STAR]) == seq![SpecToken::Pow],
{
    if !is_space(s[0]) {
        lemma_run_len_at(s, ByteClass::Space, 0);
        assert(s.skip(0) =~= s);
    }
    lemma_pair_scans_whole(seq![EQUALS, EQUALS]);
    lemma_pair_scans_whole(seq![EXCLAMATION, EQUALS]);
    lemma_pair_scans_whole(seq![LESS, EQUALS]);
    lemma_pair_scans_whole(seq![GREATER, EQUALS]);
    lemma_pair_scans_whole(seq![STAR, STAR]);
}

proof fn lemma_pair_scans_whole(s: Seq<u8>)
    requires
        s.len() == 2,
        !is_space(s[0]),
    ensures
        step(s).0 is Some && step(s).1 == 2 ==> tokens(s) == seq![step(s).0->Some_0],
{
    lemma_run_len_at(s, ByteClass::Space, 0);
    let rest = s.skip(2);
    assert(rest.len() == 0);
    lemma_run_len_at(rest, ByteClass::Space, 0);
    assert(tokens(rest) == Seq::<SpecToken>::empty());
    if step(s).0 is Some && step(s).1 == 2 {
        assert(tokens(s) =~= seq![step(s).0->Some_0]);
    }
}

/// A byte that starts no token is taken alone as an illegal token carrying
/// that byte, so that scanning goes on with the byte after it.
pub proof fn lemma_illegal_single_byte(s: Seq<u8>)
    requires
        s.len() >= 1,
        !is_space(s[0]),
        !starts_word(s[0]),
        !is_digit(s[0]),
        !is_symbol(s[0]),
    ensures
        step(s) == (Some(SpecToken::Illegal(seq![s[0]])), 1nat),
        tokens(s) == seq![SpecToken::Illegal(seq![s[0]])] + tokens(s.skip(1)),
{
    lemma_run_len_at(s, ByteClass::Space, 0);
    assert(s.skip(0) =~= s);
}

/// Exhaustion is final: once a call finds only whitespace left, the next
/// call, on what remains after it, finds nothing and consumes nothing.
pub proof fn lemma_exhaustion_is_final(s: Seq<u8>)
    requires
        step(s).0 is None,
    ensures
        step(s.skip(step(s).1 as int)) == (None::<SpecToken>, 0nat),
        tokens(s) == Seq::<SpecToken>::empty(),
{
    lemma_step_consumes(s);
    let rest = s.skip(step(s).1 as int);
    assert(rest.len() == 0);
    lemma_run_len_at(rest, ByteClass::Space, 0);
}

/// Leading whitespace is skipped and yields nothing.
pub proof fn lemma_leading_space(w: Seq<u8>, b: Seq<u8>)
    requires
        all_space(w),
    ensures
        tokens(w + b) == tokens(b),
{
    let x = w + b;
    let kb = run_len(b, ByteClass::Space);
    lemma_run_len(b, ByteClass::Space);
    assert forall|j: int| 0 <= j < w.len() + kb implies in_class(
        ByteClass::Space,
        #[trigger] x[j],
    ) by {
        if j >= w.len() {
            assert(x[j] == b[j - w.len()]);
        }
    }
    if w.len() + kb < x.len() {
        assert(x[(w.len() + kb) as int] == b[kb as int]);
    }
    lemma_run_len_at(x, ByteClass::Space, w.len() + kb);
    assert(x.skip((w.len() + kb) as int) =~= b.skip(kb as int));
    lemma_step_consumes(b);
    if step(b).0 is Some {
        let n = step(b).1;
        assert(x.skip((w.len() + n) as int) =~= b.skip(n as int));
    }
}

/// Whether byte `x` followed by byte `y` can never lie inside one token:
/// they are not both identifier or integer bytes, and they do not spell one
/// of the two-byte operators.
pub open spec fn separates(x: u8, y: u8) -> bool {
    &&& !(continues_word(x) && continues_word(y))
    &&& !((x == EQUALS || x == EXCLAMATION || x == LESS || x == GREATER) && y == EQUALS)
    &&& !(x == STAR && y == STAR)
}

/// Whether `a` followed by `c` joins two bytes that separate, or one side
/// is empty.
pub open spec fn clean_join(a: Seq<u8>, c: Seq<u8>) -> bool {
    a.len() == 0 || c.len() == 0 || separates(a.last(), c[0])
}

/// The token at the front of `r` is the same when `c` follows `r` across a
/// clean join: no token reaches over it.
proof fn lemma_front_token_at_join(r: Seq<u8>, c: Seq<u8>)
    requires
        r.len() >= 1,
        clean_join(r, c),
    ensures
        front_token(r + c) == front_token(r),
{
    let x = r + c;
    assert(x[0] == r[0]);
    if r.len() == 1 && c.len() > 0 {
        assert(x[1] == c[0]);
    } else if r.len() > 1 {
        assert(x[1] == r[1]);
    }
    lemma_run_len_at_join(r, c, ByteClass::Word);
    lemma_run_len_at_join(r, c, ByteClass::Digit);
}

proof fn lemma_run_len_at_join(r: Seq<u8>, c: Seq<u8>, cl: ByteClass)
    requires
        cl != ByteClass::Space,
        r.len() >= 1,
        clean_join(r, c),
    ensures
        run_len(r + c, cl) == run_len(r, cl),
        (r + c).take(run_len(r, cl) as int) == r.take(run_len(r, cl) as int),
{
    let x = r + c;
    let k = run_len(r, cl);
    lemma_run_len(r, cl);
    assert forall|j: int| 0 <= j < k implies in_class(cl, #[trigger] x[j]) by {
        assert(x[j] == r[j]);
    }
    if k < x.len() {
        if k < r.len() {
            assert(x[k as int] == r[k as int]);
        } else {
            assert(in_class(cl, r[k - 1]));
            assert(r.last() == r[k - 1]);
            assert(x[k as int] == c[0]);
        }
    }
    lemma_run_len_at(x, cl, k);
    assert(x.take(k as int) =~= r.take(k as int));
}

/// A clean join of the input is a split of the token sequence: the tokens
/// of `a + c` are those of `a` followed by those of `c`.
pub proof fn lemma_split_at_join(a: Seq<u8>, c: Seq<u8>)
    requires
        clean_join(a, c),
    ensures
        tokens(a + c) == tokens(a) + tokens(c),
    decreases a.len(),
{
    let x = a + c;
    let k = run_len(a, ByteClass::Space);
    lemma_run_len(a, ByteClass::Space);
    if k >= a.len() {
        assert forall|j: int| 0 <= j < a.len() implies is_space(#[trigger] a[j]) by {
            assert(in_class(ByteClass::Space, a[j]));
        }
        lemma_leading_space(a, c);
        assert(tokens(a) =~= Seq::<SpecToken>::empty());
        assert(tokens(a) + tokens(c) =~= tokens(c));
    } else {
        assert forall|j: int| 0 <= j < k implies in_class(ByteClass::Space, #[trigger] x[j]) by {
            assert(x[j] == a[j]);
        }
        assert(x[k as int] == a[k as int]);
        lemma_run_len_at(x, ByteClass::Space, k);
        let r = a.skip(k as int);
        assert(x.skip(k as int) =~= r + c);
        assert(r.last() == a.last());
        lemma_front_token_at_join(r, c);
        lemma_step_consumes(a);
        let m = step(a).1;
        let a2 = a.skip(m as int);
        assert(x.skip(m as int) =~= a2 + c);
        if a2.len() > 0 {
            assert(a2.last() == a.last());
        }
        lemma_split_at_join(a2, c);
        let t = step(a).0->Some_0;
        assert(tokens(x) == seq![t] + tokens(a2 + c));
        assert(tokens(a) == seq![t] + tokens(a2));
        assert(tokens(x) =~= tokens(a) + tokens(c));
    }
}

/// Whitespace transparency: inserting whitespace between `a` and `b`,
/// where the split between them falls between tokens, leaves the token
/// sequence unchanged.
pub proof fn lemma_whitespace_transparency(a: Seq<u8>, w: Seq<u8>, b: Seq<u8>)
    requires
        all_space(w),
        tokens(a + b) == tokens(a) + tokens(b),
    ensures
        tokens(a + w + b) == tokens(a + b),
{
    if w.len() > 0 {
        assert((w + b)[0] == w[0]);
        lemma_split_at_join(a, w + b);
        lemma_leading_space(w, b);
        assert(a + w + b =~= a + (w + b));
    } else {
        assert(a + w + b =~= a + b);
    }
}

/// Whitespace transparency by position: inserting whitespace into `s` at
/// its start, at its end, or between two bytes that separate leaves the
/// token sequence unchanged.
pub proof fn lemma_whitespace_insertion(s: Seq<u8>, i: int, w: Seq<u8>)
    requires
        0 <= i <= s.len(),
        all_space(w),
        i == 0 || i == s.len() || separates(s[i - 1], s[i]),
    ensures
        tokens(s.take(i) + w + s.skip(i)) == tokens(s),
{
    let a = s.take(i);
    let b = s.skip(i);
    if 0 < i < s.len() {
        assert(a.last() == s[i - 1]);
        assert(b[0] == s[i]);
    }
    lemma_split_at_join(a, b);
    assert(a + b =~= s);
    lemma_whitespace_transparency(a, w, b);
}

} // verus!
