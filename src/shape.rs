//! What every successfully evaluated text looks like: its brackets pair up,
//! and no operator is directly followed by a sign.
use vstd::prelude::*;
use crate::grammar::{
    binary_op, calculation, closer, digits_end, expression_value, factor_value, group_value,
    is_additive, is_close, is_multiplicative, is_open, literal_end, literal_value, product_rest,
    significant, sum_rest, term_value, unary_op,
};
use crate::number::{is_digit, Number};

verus! {

pub open spec fn is_operator(c: char) -> bool {
    is_additive(c) || is_multiplicative(c)
}

/// Reads `s[i..j]` with a stack of open brackets `st`: the stack at the end,
/// or `None` where a closing bracket does not close the innermost open one.
pub open spec fn bracket_scan(s: Seq<char>, i: int, j: int, st: Seq<char>) -> Option<Seq<char>>
    decreases j - i,
{
    if i >= j {
        Some(st)
    } else if is_open(s[i]) {
        bracket_scan(s, i + 1, j, st.push(s[i]))
    } else if is_close(s[i]) {
        if st.len() > 0 && closer(st.last()) == s[i] {
            bracket_scan(s, i + 1, j, st.drop_last())
        } else {
            None
        }
    } else {
        bracket_scan(s, i + 1, j, st)
    }
}

/// Each bracket of `s[i..j]` is paired with a partner of its own kind, the
/// pairs nested properly.
pub open spec fn balanced(s: Seq<char>, i: int, j: int) -> bool {
    bracket_scan(s, i, j, Seq::empty()) == Some(Seq::<char>::empty())
}

/// No operator in `s[i..j]` is directly followed by a sign.
pub open spec fn no_stacked_sign(s: Seq<char>, i: int, j: int) -> bool {
    forall|k: int| i <= k && k + 1 < j && is_operator(#[trigger] s[k]) ==> !is_additive(s[k + 1])
}

/// `s[i..j]` could be read by the rules.
pub open spec fn sound_span(s: Seq<char>, i: int, j: int) -> bool {
    balanced(s, i, j) && no_stacked_sign(s, i, j)
}

proof fn lemma_scan_from(s: Seq<char>, i: int, j: int, b: Seq<char>, st: Seq<char>)
    requires
        bracket_scan(s, i, j, b) is Some,
    ensures
        bracket_scan(s, i, j, st + b) == Some(st + bracket_scan(s, i, j, b)->0),
    decreases j - i,
{
    if i < j {
        if is_open(s[i]) {
            assert((st + b).push(s[i]) =~= st + b.push(s[i]));
            lemma_scan_from(s, i + 1, j, b.push(s[i]), st);
        } else if is_close(s[i]) {
            assert((st + b).drop_last() =~= st + b.drop_last());
            assert((st + b).last() == b.last());
            lemma_scan_from(s, i + 1, j, b.drop_last(), st);
        } else {
            lemma_scan_from(s, i + 1, j, b, st);
        }
    }
}

proof fn lemma_scan_split(s: Seq<char>, i: int, j: int, k: int, st: Seq<char>)
    requires
        i <= j <= k,
    ensures
        bracket_scan(s, i, k, st) == (match bracket_scan(s, i, j, st) {
            Some(m) => bracket_scan(s, j, k, m),
            None => None,
        }),
    decreases j - i,
{
    if i < j {
        if is_open(s[i]) {
            lemma_scan_split(s, i + 1, j, k, st.push(s[i]));
        } else if is_close(s[i]) {
            if st.len() > 0 && closer(st.last()) == s[i] {
                lemma_scan_split(s, i + 1, j, k, st.drop_last());
            }
        } else {
            lemma_scan_split(s, i + 1, j, k, st);
        }
    }
}

proof fn lemma_scan_plain(s: Seq<char>, i: int, j: int, st: Seq<char>)
    requires
        forall|k: int| i <= k < j ==> !is_open(#[trigger] s[k]) && !is_close(s[k]),
    ensures
        bracket_scan(s, i, j, st) == Some(st),
    decreases j - i,
{
    if i < j {
        lemma_scan_plain(s, i + 1, j, st);
    }
}

proof fn lemma_join(s: Seq<char>, i: int, j: int, k: int)
    requires
        i <= j <= k,
        sound_span(s, i, j),
        sound_span(s, j, k),
        i < j < k ==> !(is_operator(s[j - 1]) && is_additive(s[j])),
    ensures
        sound_span(s, i, k),
{
    lemma_scan_split(s, i, j, k, Seq::empty());
    assert forall|m: int| i <= m && m + 1 < k && is_operator(#[trigger] s[m]) implies !is_additive(
        s[m + 1],
    ) by {
        if m + 1 < j {
        } else if m >= j {
        } else {
            assert(m == j - 1);
        }
    }
}

proof fn lemma_digit_run(s: Seq<char>, i: int)
    requires
        0 <= i <= s.len(),
    ensures
        i <= digits_end(s, i) <= s.len(),
        forall|k: int| i <= k < digits_end(s, i) ==> is_digit(#[trigger] s[k]),
    decreases s.len() - i,
{
    if i < s.len() && is_digit(s[i]) {
        lemma_digit_run(s, i + 1);
    }
}

/// What holds of the span `s[i..j]` that a rule read from `i`.
pub open spec fn read_well(s: Seq<char>, i: int, j: int) -> bool {
    &&& i < j <= s.len()
    &&& sound_span(s, i, j)
    &&& !is_operator(s[j - 1])
}

proof fn lemma_literal_shape<N: Number>(s: Seq<char>, i: int)
    requires
        0 <= i < s.len(),
        is_digit(s[i]) || s[i] == '.',
        literal_value::<N>(s, i) is Ok,
    ensures
        read_well(s, i, literal_value::<N>(s, i)->Ok_0.1),
{
    lemma_digit_run(s, i);
    let k = digits_end(s, i);
    let m = literal_end(s, i);
    if 0 <= k < s.len() && s[k] == '.' {
        lemma_digit_run(s, k + 1);
    }
    if is_digit(s[i]) {
        lemma_digit_run(s, i + 1);
        assert(k == digits_end(s, i + 1));
    } else {
        assert(k == i);
    }
    assert(i < m <= s.len());
    assert forall|x: int| i <= x < m implies is_digit(#[trigger] s[x]) || s[x] == '.' by {
        if x >= k && 0 <= k < s.len() && s[k] == '.' && x > k {
            assert(is_digit(s[x]));
        }
    }
    assert(is_digit(s[m - 1]) || s[m - 1] == '.');
    lemma_scan_plain(s, i, m, Seq::empty());
}

pub(crate) proof fn lemma_expression_shape<N: Number>(s: Seq<char>, i: int)
    requires
        0 <= i <= s.len(),
        expression_value::<N>(s, i) is Ok,
    ensures
        read_well(s, i, expression_value::<N>(s, i)->Ok_0.1),
    decreases s.len() - i, 3int,
{
    if i < s.len() && is_additive(s[i]) {
        lemma_term_shape::<N>(s, i + 1);
        let (v, j) = term_value::<N>(s, i + 1)->Ok_0;
        let u = unary_op(s[i], v)->Some_0;
        lemma_sum_shape::<N>(s, j, u);
        lemma_scan_plain(s, i, i + 1, Seq::empty());
        lemma_join(s, i, i + 1, j);
        lemma_join(s, i, j, sum_rest::<N>(s, j, u)->Ok_0.1);
    } else {
        lemma_term_shape::<N>(s, i);
        let (v, j) = term_value::<N>(s, i)->Ok_0;
        lemma_sum_shape::<N>(s, j, v);
        lemma_join(s, i, j, sum_rest::<N>(s, j, v)->Ok_0.1);
    }
}

proof fn lemma_sum_shape<N: Number>(s: Seq<char>, i: int, acc: N)
    requires
        0 < i <= s.len(),
        !is_operator(s[i - 1]),
        sum_rest::<N>(s, i, acc) is Ok,
    ensures
        ({
            let j = sum_rest::<N>(s, i, acc)->Ok_0.1;
            i <= j <= s.len() && sound_span(s, i, j) && !is_operator(s[j - 1])
        }),
    decreases s.len() - i, 0int,
{
    if i < s.len() && is_additive(s[i]) {
        lemma_term_shape::<N>(s, i + 1);
        let (v, j) = term_value::<N>(s, i + 1)->Ok_0;
        let r = binary_op(acc, s[i], v)->Some_0;
        lemma_sum_shape::<N>(s, j, r);
        lemma_scan_plain(s, i, i + 1, Seq::empty());
        lemma_join(s, i, i + 1, j);
        lemma_join(s, i, j, sum_rest::<N>(s, j, r)->Ok_0.1);
    } else {
        lemma_scan_plain(s, i, i, Seq::empty());
    }
}

proof fn lemma_term_shape<N: Number>(s: Seq<char>, i: int)
    requires
        0 <= i <= s.len(),
        term_value::<N>(s, i) is Ok,
    ensures
        read_well(s, i, term_value::<N>(s, i)->Ok_0.1),
        !is_additive(s[i]),
    decreases s.len() - i, 2int,
{
    lemma_factor_shape::<N>(s, i);
    let (v, j) = factor_value::<N>(s, i)->Ok_0;
    lemma_product_shape::<N>(s, j, v);
    lemma_join(s, i, j, product_rest::<N>(s, j, v)->Ok_0.1);
}

proof fn lemma_product_shape<N: Number>(s: Seq<char>, i: int, acc: N)
    requires
        0 < i <= s.len(),
        !is_operator(s[i - 1]),
        product_rest::<N>(s, i, acc) is Ok,
    ensures
        ({
            let j = product_rest::<N>(s, i, acc)->Ok_0.1;
            i <= j <= s.len() && sound_span(s, i, j) && !is_operator(s[j - 1])
        }),
    decreases s.len() - i, 0int,
{
    if i < s.len() && is_multiplicative(s[i]) {
        lemma_factor_shape::<N>(s, i + 1);
        let (v, j) = factor_value::<N>(s, i + 1)->Ok_0;
        let r = binary_op(acc, s[i], v)->Some_0;
        lemma_product_shape::<N>(s, j, r);
        lemma_scan_plain(s, i, i + 1, Seq::empty());
        lemma_join(s, i, i + 1, j);
        lemma_join(s, i, j, product_rest::<N>(s, j, r)->Ok_0.1);
    } else {
        lemma_scan_plain(s, i, i, Seq::empty());
    }
}

proof fn lemma_factor_shape<N: Number>(s: Seq<char>, i: int)
    requires
        0 <= i <= s.len(),
        factor_value::<N>(s, i) is Ok,
    ensures
        read_well(s, i, factor_value::<N>(s, i)->Ok_0.1),
        !is_additive(s[i]),
    decreases s.len() - i, 1int,
{
    if is_open(s[i]) {
        lemma_group_shape::<N>(s, i);
    } else {
        lemma_literal_shape::<N>(s, i);
    }
}

proof fn lemma_group_shape<N: Number>(s: Seq<char>, i: int)
    requires
        0 <= i < s.len(),
        is_open(s[i]),
        group_value::<N>(s, i) is Ok,
    ensures
        read_well(s, i, group_value::<N>(s, i)->Ok_0.1),
    decreases s.len() - i, 0int,
{
    lemma_expression_shape::<N>(s, i + 1);
    let j = expression_value::<N>(s, i + 1)->Ok_0.1;
    let open = seq![s[i]];
    lemma_scan_split(s, i + 1, j, j + 1, open);
    lemma_scan_from(s, i + 1, j, Seq::empty(), open);
    assert(open + Seq::<char>::empty() =~= open);
    assert(Seq::<char>::empty().push(s[i]) =~= open);
    assert(open.drop_last() =~= Seq::<char>::empty());
    assert(s[j] == closer(s[i]));
    assert(bracket_scan(s, j + 1, j + 1, Seq::<char>::empty()) == Some(Seq::<char>::empty()));
    assert(bracket_scan(s, j, j + 1, open) == Some(Seq::<char>::empty()));
}

/// A text that evaluates has well-paired brackets: a closing bracket of the
/// wrong kind, one too many, or one missing, makes evaluation fail.
pub proof fn unpaired_brackets_fail<N: Number>(text: Seq<char>)
    requires
        !balanced(significant(text), 0, significant(text).len() as int),
    ensures
        calculation::<N>(text) is Err,
{
    let s = significant(text);
    if expression_value::<N>(s, 0) is Ok {
        lemma_expression_shape::<N>(s, 0);
    }
}

/// A sign can only open an expression: where an operator is directly
/// followed by `+` or `-` (as in `1 - -2`), evaluation fails. Inside a new
/// group (`1 - (-2)`) a sign is allowed again.
pub proof fn stacked_sign_fails<N: Number>(text: Seq<char>)
    requires
        !no_stacked_sign(significant(text), 0, significant(text).len() as int),
    ensures
        calculation::<N>(text) is Err,
{
    let s = significant(text);
    if expression_value::<N>(s, 0) is Ok {
        lemma_expression_shape::<N>(s, 0);
    }
}

} // verus!
