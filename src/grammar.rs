//! The meaning of an expression, stated over the sequence of its
//! significant characters (whitespace removed).
//!
//! ```text
//! expression := [ '+' | '-' ] term { ( '+' | '-' ) term }
//! term       := factor { ( '*' | '/' ) factor }
//! factor     := literal | '(' expression ')' | '{' expression '}' | '[' expression ']'
//! literal    := digit* [ '.' digit* ]
//! ```
use vstd::prelude::*;
use crate::number::{is_digit, Number};

verus! {

/// What went wrong when an expression could not be evaluated.
#[derive(Clone, Copy, Debug, PartialEq, Eq, Structural)]
pub enum ErrorKind {
    /// The input ended where a factor was required.
    UnexpectedEnd,
    /// The given bracket has no partner: a group it opened was not closed
    /// by the matching bracket, or it closes a group that was never opened.
    UnmatchedBracket(char),
    /// The given character cannot stand where it was found.
    UnexpectedCharacter(char),
    /// The numeric type rejected the text of a literal.
    LiteralError,
    /// A complete expression was followed by more characters.
    TrailingInput,
    /// The numeric type could not carry out an operation.
    ArithmeticFailure,
}

/// The value of a rule and the position just after it, or the kind and
/// position of the first failure.
pub type Outcome<N> = Result<(N, int), (ErrorKind, int)>;

/// The characters that separate tokens and carry no meaning.
pub open spec fn is_space(c: char) -> bool {
    c == ' ' || c == '\t' || c == '\n' || c == '\r'
}

/// The characters of `text` that are not whitespace, in order.
pub open spec fn significant(text: Seq<char>) -> Seq<char> {
    text.filter(|c: char| !is_space(c))
}

pub open spec fn is_open(c: char) -> bool {
    c == '(' || c == '{' || c == '['
}

/// The closing partner of an opening bracket.
pub open spec fn closer(c: char) -> char {
    if c == '(' {
        ')'
    } else if c == '{' {
        '}'
    } else {
        ']'
    }
}

pub open spec fn is_close(c: char) -> bool {
    c == ')' || c == '}' || c == ']'
}

pub open spec fn is_additive(c: char) -> bool {
    c == '+' || c == '-'
}

pub open spec fn is_multiplicative(c: char) -> bool {
    c == '*' || c == '/'
}

/// The end of the run of digits that starts at `i`.
pub open spec fn digits_end(s: Seq<char>, i: int) -> int
    decreases s.len() - i,
{
    if 0 <= i < s.len() && is_digit(s[i]) {
        digits_end(s, i + 1)
    } else {
        i
    }
}

/// The end of the literal that starts at `i`: digits, then optionally a
/// `.` and more digits.
pub open spec fn literal_end(s: Seq<char>, i: int) -> int {
    let k = digits_end(s, i);
    if 0 <= k < s.len() && s[k] == '.' {
        digits_end(s, k + 1)
    } else {
        k
    }
}

/// `a op b` for one of the four binary operators; nothing for any other
/// character.
pub open spec fn binary_op<N: Number>(a: N, op: char, b: N) -> Option<N> {
    if op == '+' {
        N::spec_add(a, b)
    } else if op == '-' {
        N::spec_sub(a, b)
    } else if op == '*' {
        N::spec_mul(a, b)
    } else if op == '/' {
        N::spec_div(a, b)
    } else {
        None
    }
}

/// `op a` for a leading sign; nothing for any other character.
pub open spec fn unary_op<N: Number>(op: char, a: N) -> Option<N> {
    if op == '+' {
        Some(a)
    } else if op == '-' {
        N::spec_neg(a)
    } else {
        None
    }
}

/// Whether a factor can start with `c`: a digit, `.` or an opening bracket.
pub open spec fn starts_factor(c: char) -> bool {
    is_digit(c) || c == '.' || is_open(c)
}

/// The literal starting at `i`.
pub open spec fn literal_value<N: Number>(s: Seq<char>, i: int) -> Outcome<N> {
    let m = literal_end(s, i);
    match N::spec_literal(s.subrange(i, m)) {
        Some(v) => Ok((v, m)),
        None => Err((ErrorKind::LiteralError, i)),
    }
}

/// An expression starting at `i`.
pub open spec fn expression_value<N: Number>(s: Seq<char>, i: int) -> Outcome<N>
    decreases s.len() - i, 3int,
{
    if 0 <= i < s.len() && is_additive(s[i]) {
        match term_value::<N>(s, i + 1) {
            Ok((v, j)) => if i < j <= s.len() {
                match unary_op(s[i], v) {
                    Some(u) => sum_rest(s, j, u),
                    None => Err((ErrorKind::ArithmeticFailure, i)),
                }
            } else {
                Ok((v, j))
            },
            Err(e) => Err(e),
        }
    } else {
        match term_value::<N>(s, i) {
            Ok((v, j)) => if i <= j <= s.len() {
                sum_rest(s, j, v)
            } else {
                Ok((v, j))
            },
            Err(e) => Err(e),
        }
    }
}

/// The `+`/`-` chain that follows a value `acc` at `i`, folded from the left.
pub open spec fn sum_rest<N: Number>(s: Seq<char>, i: int, acc: N) -> Outcome<N>
    decreases s.len() - i, 0int,
{
    if 0 <= i < s.len() && is_additive(s[i]) {
        match term_value::<N>(s, i + 1) {
            Ok((v, j)) => if i < j <= s.len() {
                match binary_op(acc, s[i], v) {
                    Some(r) => sum_rest(s, j, r),
                    None => Err((ErrorKind::ArithmeticFailure, i)),
                }
            } else {
                Ok((acc, i))
            },
            Err(e) => Err(e),
        }
    } else {
        Ok((acc, i))
    }
}

/// A term starting at `i`.
pub open spec fn term_value<N: Number>(s: Seq<char>, i: int) -> Outcome<N>
    decreases s.len() - i, 2int,
{
    match factor_value::<N>(s, i) {
        Ok((v, j)) => if i <= j <= s.len() {
            product_rest(s, j, v)
        } else {
            Ok((v, j))
        },
        Err(e) => Err(e),
    }
}

/// The `*`/`/` chain that follows a value `acc` at `i`, folded from the left.
pub open spec fn product_rest<N: Number>(s: Seq<char>, i: int, acc: N) -> Outcome<N>
    decreases s.len() - i, 0int,
{
    if 0 <= i < s.len() && is_multiplicative(s[i]) {
        match factor_value::<N>(s, i + 1) {
            Ok((v, j)) => if i < j <= s.len() {
                match binary_op(acc, s[i], v) {
                    Some(r) => product_rest(s, j, r),
                    None => Err((ErrorKind::ArithmeticFailure, i)),
                }
            } else {
                Ok((acc, i))
            },
            Err(e) => Err(e),
        }
    } else {
        Ok((acc, i))
    }
}

/// A factor starting at `i`.
pub open spec fn factor_value<N: Number>(s: Seq<char>, i: int) -> Outcome<N>
    decreases s.len() - i, 1int,
{
    if i < 0 || i >= s.len() {
        Err((ErrorKind::UnexpectedEnd, i))
    } else if is_open(s[i]) {
        group_value(s, i)
    } else if is_digit(s[i]) || s[i] == '.' {
        literal_value(s, i)
    } else {
        Err((ErrorKind::UnexpectedCharacter(s[i]), i))
    }
}

/// A bracketed expression whose opening bracket is at `i`.
pub open spec fn group_value<N: Number>(s: Seq<char>, i: int) -> Outcome<N>
    decreases s.len() - i, 0int,
{
    if 0 <= i < s.len() {
        match expression_value::<N>(s, i + 1) {
            Ok((v, j)) => if 0 <= j < s.len() && s[j] == closer(s[i]) {
                Ok((v, j + 1))
            } else {
                Err((ErrorKind::UnmatchedBracket(s[i]), j))
            },
            Err(e) => Err(e),
        }
    } else {
        Err((ErrorKind::UnexpectedEnd, i))
    }
}

/// The value of a whole text, or the kind and position (among its
/// significant characters) of the first failure.
pub open spec fn calculation<N: Number>(text: Seq<char>) -> Result<N, (ErrorKind, int)> {
    let s = significant(text);
    match expression_value::<N>(s, 0) {
        Ok((v, j)) => if j == s.len() {
            Ok(v)
        } else if 0 <= j < s.len() && is_close(s[j]) {
            Err((ErrorKind::UnmatchedBracket(s[j]), j))
        } else {
            Err((ErrorKind::TrailingInput, j))
        },
        Err(e) => Err(e),
    }
}

} // verus!
