//! Laws that hold of every evaluation.
use vstd::prelude::*;
use crate::grammar::{
    calculation, digits_end, expression_value, factor_value, is_space, literal_end, literal_value,
    product_rest, significant, sum_rest, term_value, ErrorKind, Outcome,
};
use crate::number::{decimal_value, Number};

verus! {

/// Whitespace carries no meaning: two texts with the same significant
/// characters evaluate alike, whatever spaces, tabs and line breaks stand
/// between their tokens.
pub proof fn whitespace_is_ignored<N: Number>(a: Seq<char>, b: Seq<char>)
    requires
        significant(a) == significant(b),
    ensures
        calculation::<N>(a) == calculation::<N>(b),
{
}

/// A text without whitespace is its own significant characters.
pub proof fn lemma_significant_plain(t: Seq<char>)
    requires
        forall|i: int| 0 <= i < t.len() ==> !is_space(#[trigger] t[i]),
    ensures
        significant(t) == t,
    decreases t.len(),
{
    reveal(Seq::filter);
    if t.len() > 0 {
        lemma_significant_plain(t.drop_last());
        assert(!is_space(t.last()));
        assert(t.drop_last().push(t.last()) =~= t);
    } else {
        assert(t.filter(|c: char| !is_space(c)) =~= t);
    }
}

/// `1+1+...+1` with `n` ones.
pub open spec fn ones_chain(n: nat) -> Seq<char>
    decreases n,
{
    if n <= 1 {
        seq!['1']
    } else {
        ones_chain((n - 1) as nat) + seq!['+', '1']
    }
}

proof fn lemma_ones_chain_shape(n: nat)
    requires
        n >= 1,
    ensures
        ones_chain(n).len() == 2 * n - 1,
        forall|i: int|
            0 <= i < 2 * n - 1 ==> #[trigger] ones_chain(n)[i] == (if i % 2 == 0 {
                '1'
            } else {
                '+'
            }),
    decreases n,
{
    if n > 1 {
        lemma_ones_chain_shape((n - 1) as nat);
        let p = ones_chain((n - 1) as nat);
        assert forall|i: int| 0 <= i < 2 * n - 1 implies #[trigger] ones_chain(n)[i] == (if i % 2
            == 0 {
            '1'
        } else {
            '+'
        }) by {
            if i < 2 * n - 3 {
                assert(ones_chain(n)[i] == p[i]);
            }
        }
    }
}

/// The term at an even position of the chain is the literal `1`.
proof fn lemma_chain_term(n: nat, i: int)
    requires
        n >= 1,
        0 <= i < 2 * n - 1,
        i % 2 == 0,
    ensures
        term_value::<i128>(ones_chain(n), i) == Outcome::<i128>::Ok((1i128, i + 1)),
{
    let s = ones_chain(n);
    lemma_ones_chain_shape(n);
    assert(s[i] == '1');
    if i + 1 < s.len() {
        assert(s[i + 1] == '+');
    }
    assert(digits_end(s, i + 1) == i + 1);
    assert(digits_end(s, i) == i + 1);
    assert(literal_end(s, i) == i + 1);
    let one = s.subrange(i, i + 1);
    assert(one.drop_last() =~= Seq::<char>::empty());
    assert(one.last() == '1');
    assert(decimal_value(one.drop_last()) == 0);
    assert(decimal_value(one) == 1);
    assert(literal_value::<i128>(s, i) == Outcome::<i128>::Ok((1i128, i + 1)));
    assert(factor_value::<i128>(s, i) == Outcome::<i128>::Ok((1i128, i + 1)));
    assert(product_rest::<i128>(s, i + 1, 1i128) == Outcome::<i128>::Ok((1i128, i + 1)));
}

proof fn lemma_chain_rest(n: nat, k: nat)
    requires
        1 <= k <= n <= i128::MAX,
    ensures
        sum_rest::<i128>(ones_chain(n), 2 * k - 1, k as i128) == Outcome::<i128>::Ok(
            (n as i128, 2 * n - 1),
        ),
    decreases n - k,
{
    let s = ones_chain(n);
    lemma_ones_chain_shape(n);
    if k < n {
        assert(s[2 * k - 1] == '+');
        lemma_chain_term(n, 2 * k as int);
        lemma_chain_rest(n, k + 1);
    }
}

/// A flat chain of `n` additions of `1` evaluates to `n`: the chain is
/// folded from the left, however long it is.
pub proof fn ones_chain_sums_to_count(n: nat)
    requires
        1 <= n <= i128::MAX,
    ensures
        calculation::<i128>(ones_chain(n)) == Ok::<i128, (ErrorKind, int)>(
            n as i128,
        ),
{
    let s = ones_chain(n);
    lemma_ones_chain_shape(n);
    lemma_significant_plain(s);
    lemma_chain_term(n, 0);
    lemma_chain_rest(n, 1);
    assert(expression_value::<i128>(s, 0) == Outcome::<i128>::Ok((n as i128, 2 * n - 1)));
}

} // verus!
