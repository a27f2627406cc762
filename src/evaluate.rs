use vstd::prelude::*;
use crate::cursor::Cursor;
use crate::grammar::{
    binary_op, calculation, closer, digits_end, expression_value, factor_value, group_value,
    is_additive, is_multiplicative, is_open, literal_end, literal_value, product_rest, significant,
    starts_factor, sum_rest, term_value, unary_op, ErrorKind, Outcome,
};
use crate::number::{is_digit, Number};

verus! {

/// A failure inside the rules: its kind and the cursor position.
pub type Failure = (ErrorKind, usize);

/// Whether an executable result `r`, with the cursor left at `pos`, is the
/// outcome `o` of a rule.
pub open spec fn agrees<N>(r: Result<N, Failure>, o: Outcome<N>, pos: int) -> bool {
    match o {
        Ok((v, j)) => r == Ok::<N, Failure>(v) && pos == j,
        Err((k, p)) => r matches Err(e) && e.0 == k && e.1 as int == p,
    }
}

/// What every rule promises of the cursor it was handed.
pub open spec fn moved_on(before: Cursor, after: Cursor) -> bool {
    &&& after.chars@ == before.chars@
    &&& after.wf()
    &&& before.pos <= after.pos
}

/// `a op b` for one of `+ - * /`; `None` for any other operator.
fn binop<N: Number>(a: N, op: char, b: N) -> (r: Option<N>)
    ensures
        !(is_additive(op) || is_multiplicative(op)) ==> r is None,
        N::obeys_number_spec() ==> r == binary_op(a, op, b),
{
    if op == '+' {
        a.plus(b)
    } else if op == '-' {
        a.minus(b)
    } else if op == '*' {
        a.times(b)
    } else if op == '/' {
        a.divided_by(b)
    } else {
        None
    }
}

/// `op a` for a leading `+` or `-`; `None` for any other operator.
fn unop<N: Number>(op: char, a: N) -> (r: Option<N>)
    ensures
        !is_additive(op) ==> r is None,
        N::obeys_number_spec() ==> r == unary_op(op, a),
{
    if op == '+' {
        Some(a)
    } else if op == '-' {
        a.negated()
    } else {
        None
    }
}

/// Scans the literal at the cursor and converts it with the numeric type.
fn constant<N: Number>(cur: &mut Cursor) -> (r: Result<N, Failure>)
    requires
        old(cur).wf(),
        old(cur).pos < old(cur).chars.len(),
        is_digit(old(cur).chars@[old(cur).pos as int]) || old(cur).chars@[old(cur).pos as int]
            == '.',
    ensures
        moved_on(*old(cur), *final(cur)),
        N::obeys_number_spec() ==> agrees(
            r,
            literal_value::<N>(old(cur).chars@, old(cur).pos as int),
            final(cur).pos as int,
        ),
        final(cur).pos == literal_end(old(cur).chars@, old(cur).pos as int),
        r is Ok ==> final(cur).pos > old(cur).pos,
        r matches Err(e) ==> e.1 <= old(cur).chars.len(),
{
    let ghost s = cur.chars@;
    let start = cur.pos;
    let mut text: Vec<char> = Vec::new();
    while cur.pos < cur.chars.len() && '0' <= cur.chars[cur.pos] && cur.chars[cur.pos] <= '9'
        invariant
            cur.chars@ == s,
            start <= cur.pos <= cur.chars.len(),
            text@ == s.subrange(start as int, cur.pos as int),
            digits_end(s, start as int) == digits_end(s, cur.pos as int),
        decreases cur.chars.len() - cur.pos,
    {
        let c = cur.advance();
        text.push(c);
        assert(text@ =~= s.subrange(start as int, cur.pos as int));
    }
    if cur.pos < cur.chars.len() && cur.chars[cur.pos] == '.' {
        let dot = cur.pos;
        let c = cur.advance();
        text.push(c);
        assert(text@ =~= s.subrange(start as int, cur.pos as int));
        while cur.pos < cur.chars.len() && '0' <= cur.chars[cur.pos] && cur.chars[cur.pos] <= '9'
            invariant
                cur.chars@ == s,
                start <= dot < cur.pos <= cur.chars.len(),
                text@ == s.subrange(start as int, cur.pos as int),
                digits_end(s, dot + 1) == digits_end(s, cur.pos as int),
            decreases cur.chars.len() - cur.pos,
        {
            let c = cur.advance();
            text.push(c);
            assert(text@ =~= s.subrange(start as int, cur.pos as int));
        }
    }
    match N::from_literal(&text) {
        Some(v) => Ok(v),
        None => Err((ErrorKind::LiteralError, start)),
    }
}

/// expression := [ '+' | '-' ] term { ( '+' | '-' ) term }
///
/// The chain is folded in a loop: only brackets recurse.
fn expression<N: Number>(cur: &mut Cursor) -> (r: Result<N, Failure>)
    requires
        old(cur).wf(),
    ensures
        moved_on(*old(cur), *final(cur)),
        N::obeys_number_spec() ==> agrees(
            r,
            expression_value::<N>(old(cur).chars@, old(cur).pos as int),
            final(cur).pos as int,
        ),
        r is Ok ==> final(cur).pos > old(cur).pos,
        r matches Err(e) ==> e.1 <= old(cur).chars.len(),
    decreases old(cur).chars.len() - old(cur).pos, 3int,
{
    let ghost s = cur.chars@;
    let start = cur.pos;
    let mut acc: N;
    let next = cur.peek();
    let signed = match next {
        Some(c) => c == '+' || c == '-',
        None => false,
    };
    if signed {
        let sign = cur.advance();
        let v = match term(cur) {
            Ok(v) => v,
            Err(e) => return Err(e),
        };
        acc = match unop(sign, v) {
            Some(u) => u,
            None => return Err((ErrorKind::ArithmeticFailure, start)),
        };
    } else {
        acc = match term(cur) {
            Ok(v) => v,
            Err(e) => return Err(e),
        };
    }
    loop
        invariant
            s == old(cur).chars@,
            start == old(cur).pos,
            cur.chars@ == s,
            start < cur.pos <= cur.chars.len(),
            N::obeys_number_spec() ==> expression_value::<N>(s, start as int) == sum_rest::<N>(
                s,
                cur.pos as int,
                acc,
            ),
        decreases cur.chars.len() - cur.pos,
    {
        let next = cur.peek();
        match next {
            Some(op) => {
                if !(op == '+' || op == '-') {
                    return Ok(acc);
                }
                let at = cur.pos;
                cur.advance();
                let v = match term(cur) {
                    Ok(v) => v,
                    Err(e) => return Err(e),
                };
                acc = match binop(acc, op, v) {
                    Some(x) => x,
                    None => return Err((ErrorKind::ArithmeticFailure, at)),
                };
            },
            None => return Ok(acc),
        }
    }
}

/// term := factor { ( '*' | '/' ) factor }
fn term<N: Number>(cur: &mut Cursor) -> (r: Result<N, Failure>)
    requires
        old(cur).wf(),
    ensures
        moved_on(*old(cur), *final(cur)),
        N::obeys_number_spec() ==> agrees(
            r,
            term_value::<N>(old(cur).chars@, old(cur).pos as int),
            final(cur).pos as int,
        ),
        r is Ok ==> final(cur).pos > old(cur).pos,
        r matches Err(e) ==> e.1 <= old(cur).chars.len(),
    decreases old(cur).chars.len() - old(cur).pos, 2int,
{
    let ghost s = cur.chars@;
    let start = cur.pos;
    let mut acc: N = match factor(cur) {
        Ok(v) => v,
        Err(e) => return Err(e),
    };
    loop
        invariant
            s == old(cur).chars@,
            start == old(cur).pos,
            cur.chars@ == s,
            start < cur.pos <= cur.chars.len(),
            N::obeys_number_spec() ==> term_value::<N>(s, start as int) == product_rest::<N>(
                s,
                cur.pos as int,
                acc,
            ),
        decreases cur.chars.len() - cur.pos,
    {
        let next = cur.peek();
        match next {
            Some(op) => {
                if !(op == '*' || op == '/') {
                    return Ok(acc);
                }
                let at = cur.pos;
                cur.advance();
                let v = match factor(cur) {
                    Ok(v) => v,
                    Err(e) => return Err(e),
                };
                acc = match binop(acc, op, v) {
                    Some(x) => x,
                    None => return Err((ErrorKind::ArithmeticFailure, at)),
                };
            },
            None => return Ok(acc),
        }
    }
}

/// factor := literal | '(' expression ')' | '{' expression '}' | '[' expression ']'
fn factor<N: Number>(cur: &mut Cursor) -> (r: Result<N, Failure>)
    requires
        old(cur).wf(),
    ensures
        moved_on(*old(cur), *final(cur)),
        N::obeys_number_spec() ==> agrees(
            r,
            factor_value::<N>(old(cur).chars@, old(cur).pos as int),
            final(cur).pos as int,
        ),
        old(cur).pos == old(cur).chars.len() || !starts_factor(old(cur).chars@[old(cur).pos as int])
            ==> final(cur).pos == old(cur).pos,
        r is Ok ==> final(cur).pos > old(cur).pos,
        r matches Err(e) ==> e.1 <= old(cur).chars.len(),
    decreases old(cur).chars.len() - old(cur).pos, 1int,
{
    let next = cur.peek();
    match next {
        None => Err((ErrorKind::UnexpectedEnd, cur.pos)),
        Some(c) => {
            if c == '(' || c == '{' || c == '[' {
                parenthetic(cur)
            } else if ('0' <= c && c <= '9') || c == '.' {
                constant(cur)
            } else {
                Err((ErrorKind::UnexpectedCharacter(c), cur.pos))
            }
        },
    }
}

/// The partner that closes a group opened with `open`.
fn closing(open: char) -> (c: char)
    ensures
        c == closer(open),
{
    if open == '(' {
        ')'
    } else if open == '{' {
        '}'
    } else {
        ']'
    }
}

/// A bracketed expression; the bracket that closes it must match the one
/// that opened it.
fn parenthetic<N: Number>(cur: &mut Cursor) -> (r: Result<N, Failure>)
    requires
        old(cur).wf(),
        old(cur).pos < old(cur).chars.len(),
        is_open(old(cur).chars@[old(cur).pos as int]),
    ensures
        moved_on(*old(cur), *final(cur)),
        N::obeys_number_spec() ==> agrees(
            r,
            group_value::<N>(old(cur).chars@, old(cur).pos as int),
            final(cur).pos as int,
        ),
        r is Ok ==> final(cur).pos > old(cur).pos,
        r matches Err(e) ==> e.1 <= old(cur).chars.len(),
    decreases old(cur).chars.len() - old(cur).pos, 0int,
{
    let open = cur.advance();
    let v = match expression(cur) {
        Ok(v) => v,
        Err(e) => return Err(e),
    };
    let at = cur.pos;
    let next = cur.peek();
    if next == Some(closing(open)) {
        cur.advance();
        Ok(v)
    } else {
        Err((ErrorKind::UnmatchedBracket(open), at))
    }
}

/// Why an expression could not be evaluated.
#[derive(Clone, Debug)]
pub struct EvalError {
    pub kind: ErrorKind,
    /// Where the failure was found, counted in significant (non-whitespace)
    /// characters.
    pub position: usize,
    /// The text that was evaluated.
    pub text: String,
    /// The significant characters from `position` on.
    pub remaining: Vec<char>,
}

/// The characters of `chars` from `from` on.
fn rest_of(chars: &Vec<char>, from: usize) -> (r: Vec<char>)
    requires
        from <= chars.len(),
    ensures
        r@ == chars@.skip(from as int),
{
    let mut r: Vec<char> = Vec::new();
    let mut i: usize = from;
    while i < chars.len()
        invariant
            from <= i <= chars.len(),
            r@ == chars@.subrange(from as int, i as int),
        decreases chars.len() - i,
    {
        r.push(chars[i]);
        i = i + 1;
        assert(r@ =~= chars@.subrange(from as int, i as int));
    }
    assert(r@ =~= chars@.skip(from as int));
    r
}

/// Evaluates the arithmetic expression `target` in the numeric type `N`.
///
/// Whitespace between tokens is ignored. The whole text must form one
/// expression; what the numeric type cannot compute is reported as an
/// arithmetic failure.
pub fn calculate<N: Number>(target: &str) -> (r: Result<N, EvalError>)
    ensures
        N::obeys_number_spec() ==> match calculation::<N>(target@) {
            Ok(v) => r == Ok::<N, EvalError>(v),
            Err((k, p)) => r matches Err(e) && e.kind == k && e.position == p && e.text@ == target@
                && e.remaining@ == significant(target@).skip(p),
        },
{
    let mut cur = Cursor::new(target);
    let failure = match expression(&mut cur) {
        Ok(v) => {
            if cur.pos == cur.chars.len() {
                return Ok(v);
            }
            let c = cur.chars[cur.pos];
            if c == ')' || c == '}' || c == ']' {
                (ErrorKind::UnmatchedBracket(c), cur.pos)
            } else {
                (ErrorKind::TrailingInput, cur.pos)
            }
        },
        Err(e) => e,
    };
    Err(
        EvalError {
            kind: failure.0,
            position: failure.1,
            text: target.to_owned(),
            remaining: rest_of(&cur.chars, failure.1),
        },
    )
}

} // verus!
