//! The lexer: one left-to-right scan over the characters of a line, with a
//! single integer accumulator for the digit run being read. Operators,
//! identifiers and the end of input flush the accumulator — but only a
//! *nonzero* accumulator, so a literal `0` typed alone (or `00`) is silently
//! dropped rather than emitted as `Literal(0)`. That quirk is part of the
//! behaviour and is kept deliberately.

use vstd::prelude::*;

use crate::token::{LexError, Token};

verus! {

/// ASCII whitespace; the scan ignores it. (Input is ASCII text, so no other
/// whitespace is considered.)
pub open spec fn is_space_char(c: char) -> bool {
    c == ' ' || c == '\t' || c == '\n' || c == '\r' || c == '\x0b' || c == '\x0c'
}

/// A decimal digit: `'0'` through `'9'`.
pub open spec fn is_digit_char(c: char) -> bool {
    48 <= c as u32 <= 57
}

/// The value of a decimal digit character.
pub open spec fn digit_val(c: char) -> int {
    c as u32 - 48
}

/// The six operator characters; `/` and `\` both divide.
pub open spec fn is_operator_char(c: char) -> bool {
    c == '+' || c == '-' || c == '*' || c == '/' || c == '\\' || c == '='
}

pub open spec fn operator_token(c: char) -> Token
    recommends
        is_operator_char(c),
{
    if c == '+' {
        Token::Add
    } else if c == '-' {
        Token::Sub
    } else if c == '*' {
        Token::Mul
    } else if c == '/' || c == '\\' {
        Token::Div
    } else {
        Token::Equal
    }
}

/// What a pending digit run emits when the scan leaves it: one literal when
/// the accumulator is nonzero, nothing at all when it is zero.
pub open spec fn flush(acc: int) -> Seq<Token> {
    if acc != 0 {
        seq![Token::Literal(acc as i32)]
    } else {
        Seq::<Token>::empty()
    }
}

/// The tokens of the remaining input `s`, entered with `acc` already
/// accumulated from the digits just read.
pub open spec fn lex_acc(s: Seq<char>, acc: int) -> Seq<Token>
    decreases s.len(),
{
    if s.len() == 0 {
        flush(acc)
    } else {
        let c = s[0];
        if is_digit_char(c) {
            lex_acc(s.drop_first(), acc * 10 + digit_val(c))
        } else if is_space_char(c) {
            lex_acc(s.drop_first(), acc)
        } else if is_operator_char(c) {
            flush(acc) + seq![operator_token(c)] + lex_acc(s.drop_first(), 0)
        } else {
            flush(acc) + seq![Token::ID(c)] + lex_acc(s.drop_first(), 0)
        }
    }
}

/// Whether every step of the scan over the remaining input keeps the
/// accumulator within `i32`, entered with `acc` already accumulated.
pub open spec fn lex_ok(s: Seq<char>, acc: int) -> bool
    decreases s.len(),
{
    if s.len() == 0 {
        true
    } else {
        let c = s[0];
        if is_digit_char(c) {
            acc * 10 + digit_val(c) <= i32::MAX && lex_ok(s.drop_first(), acc * 10 + digit_val(c))
        } else if is_space_char(c) {
            lex_ok(s.drop_first(), acc)
        } else {
            lex_ok(s.drop_first(), 0)
        }
    }
}

/// The decimal value of a run of digit characters.
pub open spec fn digits_value(s: Seq<char>) -> int
    decreases s.len(),
{
    if s.len() == 0 {
        0
    } else {
        digits_value(s.drop_last()) * 10 + digit_val(s.last())
    }
}

pub open spec fn all_digits(s: Seq<char>) -> bool {
    forall|i: int| 0 <= i < s.len() ==> is_digit_char(#[trigger] s[i])
}

/// The accumulator after the scan has read the digits of `s`, entered at `acc`.
spec fn accum(acc: int, s: Seq<char>) -> int
    decreases s.len(),
{
    if s.len() == 0 {
        acc
    } else {
        accum(acc * 10 + digit_val(s[0]), s.drop_first())
    }
}

proof fn lemma_all_digits_drop_first(s: Seq<char>)
    requires
        s.len() > 0,
        all_digits(s),
    ensures
        all_digits(s.drop_first()),
{
    assert forall|i: int| 0 <= i < s.drop_first().len() implies is_digit_char(
        #[trigger] s.drop_first()[i],
    ) by {
        assert(s.drop_first()[i] == s[i + 1]);
    }
}

proof fn lemma_accum_lower(acc: int, s: Seq<char>)
    requires
        0 <= acc,
        all_digits(s),
    ensures
        acc <= accum(acc, s),
    decreases s.len(),
{
    if s.len() > 0 {
        assert(is_digit_char(s[0]));
        lemma_all_digits_drop_first(s);
        lemma_accum_lower(acc * 10 + digit_val(s[0]), s.drop_first());
    }
}

proof fn lemma_accum_push(acc: int, s: Seq<char>, c: char)
    ensures
        accum(acc, s.push(c)) == accum(acc, s) * 10 + digit_val(c),
    decreases s.len(),
{
    if s.len() == 0 {
        assert(s.push(c)[0] == c);
        assert(s.push(c).drop_first() =~= Seq::<char>::empty());
        assert(accum(acc * 10 + digit_val(c), Seq::<char>::empty()) == acc * 10 + digit_val(c));
    } else {
        assert(s.push(c)[0] == s[0]);
        assert(s.push(c).drop_first() =~= s.drop_first().push(c));
        lemma_accum_push(acc * 10 + digit_val(s[0]), s.drop_first(), c);
    }
}

proof fn lemma_digits_value_accum(s: Seq<char>)
    ensures
        digits_value(s) == accum(0, s),
    decreases s.len(),
{
    if s.len() > 0 {
        lemma_digits_value_accum(s.drop_last());
        lemma_accum_push(0, s.drop_last(), s.last());
        assert(s.drop_last().push(s.last()) =~= s);
    }
}

proof fn lemma_digits_value_nonneg(s: Seq<char>)
    requires
        all_digits(s),
    ensures
        0 <= digits_value(s),
    decreases s.len(),
{
    if s.len() > 0 {
        assert(all_digits(s.drop_last())) by {
            assert forall|i: int| 0 <= i < s.drop_last().len() implies is_digit_char(
                #[trigger] s.drop_last()[i],
            ) by {
                assert(s.drop_last()[i] == s[i]);
            }
        }
        lemma_digits_value_nonneg(s.drop_last());
        assert(is_digit_char(s.last()));
    }
}

proof fn lemma_digits_value_positive(s: Seq<char>)
    requires
        all_digits(s),
        exists|i: int| 0 <= i < s.len() && digit_val(#[trigger] s[i]) != 0,
    ensures
        digits_value(s) > 0,
    decreases s.len(),
{
    let i = choose|i: int| 0 <= i < s.len() && digit_val(#[trigger] s[i]) != 0;
    assert(all_digits(s.drop_last())) by {
        assert forall|j: int| 0 <= j < s.drop_last().len() implies is_digit_char(
            #[trigger] s.drop_last()[j],
        ) by {
            assert(s.drop_last()[j] == s[j]);
        }
    }
    if i == s.len() - 1 {
        lemma_digits_value_nonneg(s.drop_last());
        assert(is_digit_char(s.last()));
        assert(digit_val(s.last()) >= 1);
        assert(digits_value(s) >= 1);
    } else {
        assert(s.drop_last()[i] == s[i]);
        lemma_digits_value_positive(s.drop_last());
        assert(is_digit_char(s.last()));
    }
}

proof fn lemma_lex_digits_general(s: Seq<char>, acc: int)
    requires
        0 <= acc <= i32::MAX,
        all_digits(s),
        accum(acc, s) <= i32::MAX,
    ensures
        lex_ok(s, acc),
        lex_acc(s, acc) == flush(accum(acc, s)),
    decreases s.len(),
{
    if s.len() > 0 {
        assert(is_digit_char(s[0]));
        let next = acc * 10 + digit_val(s[0]);
        lemma_all_digits_drop_first(s);
        lemma_accum_lower(next, s.drop_first());
        lemma_lex_digits_general(s.drop_first(), next);
    }
}

/// Round trip: a run of digit characters with at least one nonzero digit,
/// whose decimal value fits in `i32`, tokenizes to exactly one `Literal`
/// holding that value — reconstructing the literal's decimal value reproduces
/// the original magnitude.
pub proof fn lemma_digits_round_trip(s: Seq<char>)
    requires
        s.len() > 0,
        all_digits(s),
        exists|i: int| 0 <= i < s.len() && digit_val(#[trigger] s[i]) != 0,
        digits_value(s) <= i32::MAX,
    ensures
        lex_ok(s, 0),
        lex_acc(s, 0) == seq![Token::Literal(digits_value(s) as i32)],
{
    lemma_digits_value_accum(s);
    lemma_digits_value_positive(s);
    lemma_lex_digits_general(s, 0);
}

fn is_space(c: char) -> (r: bool)
    ensures
        r == is_space_char(c),
{
    c == ' ' || c == '\t' || c == '\n' || c == '\r' || c == '\x0b' || c == '\x0c'
}

fn is_digit(c: char) -> (r: bool)
    ensures
        r == is_digit_char(c),
{
    let u = c as u32;
    u >= 48 && u <= 57
}

/// The token a non-digit, non-whitespace character stands for: an operator
/// where it is one, else an identifier (unrecognized characters never fail).
fn symbol_token(c: char) -> (t: Token)
    ensures
        t == if is_operator_char(c) {
            operator_token(c)
        } else {
            Token::ID(c)
        },
{
    if c == '+' {
        Token::Add
    } else if c == '-' {
        Token::Sub
    } else if c == '*' {
        Token::Mul
    } else if c == '/' || c == '\\' {
        Token::Div
    } else if c == '=' {
        Token::Equal
    } else {
        Token::ID(c)
    }
}

/// Tokenize one line of input, left to right: digits accumulate into a
/// literal; operators and identifiers flush a nonzero accumulator and then
/// emit their own token; whitespace is ignored. Lexical content itself cannot
/// fail: the one failure is a digit run accumulating past `i32::MAX`.
pub fn tokenize_stream(input: &str) -> (r: Result<Vec<Token>, LexError>)
    ensures
        match r {
            Ok(tokens) => lex_ok(input@, 0) && tokens@ == lex_acc(input@, 0),
            Err(e) => e == LexError::LiteralTooLarge && !lex_ok(input@, 0),
        },
{
    let n = input.unicode_len();
    let mut out: Vec<Token> = Vec::new();
    let mut acc: i64 = 0;
    let mut i: usize = 0;
    proof {
        assert(input@.subrange(0, n as int) =~= input@);
        assert(out@ + lex_acc(input@, 0) =~= lex_acc(input@, 0));
    }
    while i < n
        invariant
            n == input@.len(),
            i <= n,
            0 <= acc <= i32::MAX,
            lex_ok(input@, 0) == lex_ok(input@.subrange(i as int, n as int), acc as int),
            lex_acc(input@, 0) == out@ + lex_acc(input@.subrange(i as int, n as int), acc as int),
        decreases n - i,
    {
        let ghost rest = input@.subrange(i as int, n as int);
        let ghost rest1 = input@.subrange(i as int + 1, n as int);
        let ghost prev_out = out@;
        let ghost prev_acc = acc as int;
        let c = input.get_char(i);
        proof {
            assert(rest[0] == c);
            assert(rest.drop_first() =~= rest1);
        }
        if is_digit(c) {
            let d: u32 = (c as u32) - 48;
            let next: i64 = acc * 10 + (d as i64);
            if next > (i32::MAX as i64) {
                proof {
                    assert(!lex_ok(rest, prev_acc));
                }
                return Err(LexError::LiteralTooLarge);
            }
            acc = next;
            proof {
                assert(lex_acc(rest, prev_acc) == lex_acc(rest1, acc as int));
                assert(lex_ok(rest, prev_acc) == lex_ok(rest1, acc as int));
            }
        } else if is_space(c) {
            proof {
                assert(lex_acc(rest, prev_acc) == lex_acc(rest1, acc as int));
                assert(lex_ok(rest, prev_acc) == lex_ok(rest1, acc as int));
            }
        } else {
            if acc != 0 {
                out.push(Token::Literal(acc as i32));
                acc = 0;
            }
            let t = symbol_token(c);
            out.push(t);
            proof {
                assert(out@ =~= prev_out + flush(prev_acc) + seq![t]);
                assert(lex_acc(rest, prev_acc) == flush(prev_acc) + seq![t] + lex_acc(rest1, 0));
                assert(prev_out + (flush(prev_acc) + seq![t] + lex_acc(rest1, 0)) =~= (prev_out
                    + flush(prev_acc) + seq![t]) + lex_acc(rest1, 0));
                assert(lex_ok(rest, prev_acc) == lex_ok(rest1, 0));
            }
        }
        i += 1;
    }
    proof {
        assert(input@.subrange(n as int, n as int) =~= Seq::<char>::empty());
    }
    let ghost prev_out = out@;
    if acc != 0 {
        out.push(Token::Literal(acc as i32));
        proof {
            assert(out@ =~= prev_out + flush(acc as int));
        }
    } else {
        proof {
            assert(out@ =~= prev_out + flush(acc as int));
        }
    }
    Ok(out)
}

} // verus!
