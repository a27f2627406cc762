//! Which bracket style a group is written in does not matter.
use vstd::prelude::*;
use crate::grammar::{
    binary_op, calculation, closer, digits_end, expression_value, factor_value, group_value,
    is_additive, is_close, is_multiplicative, is_open, literal_end, literal_value, product_rest,
    significant, sum_rest, term_value, unary_op,
};
use crate::number::{is_digit, Number};
use crate::shape::{balanced, bracket_scan, lemma_expression_shape};

verus! {

/// `c` with each bracket kind written in a new style: round brackets become
/// `round` and its partner, curly ones `curly`, square ones `square`.
pub open spec fn restyled(c: char, round: char, curly: char, square: char) -> char {
    if c == '(' {
        round
    } else if c == ')' {
        closer(round)
    } else if c == '{' {
        curly
    } else if c == '}' {
        closer(curly)
    } else if c == '[' {
        square
    } else if c == ']' {
        closer(square)
    } else {
        c
    }
}

/// `t` with its brackets restyled as `restyled` says.
pub open spec fn restyle(t: Seq<char>, round: char, curly: char, square: char) -> Seq<char> {
    t.map_values(|c: char| restyled(c, round, curly, square))
}

/// Three opening brackets, one for each kind.
pub open spec fn is_style(round: char, curly: char, square: char) -> bool {
    is_open(round) && is_open(curly) && is_open(square)
}

/// How a character moves the nesting depth: up for an opening bracket,
/// down for a closing one.
pub open spec fn depth_step(c: char) -> int {
    if is_open(c) {
        1
    } else if is_close(c) {
        -1
    } else {
        0
    }
}

/// Opening brackets minus closing brackets in `s[a..b]`.
pub open spec fn depth(s: Seq<char>, a: int, b: int) -> int
    decreases b - a,
{
    if b <= a {
        0
    } else {
        depth(s, a, b - 1) + depth_step(s[b - 1])
    }
}

/// The brackets at `i` and `j` are partners: the one at `j` closes the group
/// that the one at `i` opens, whatever their kinds.
pub open spec fn is_pair(s: Seq<char>, i: int, j: int) -> bool {
    &&& 0 <= i < j < s.len()
    &&& is_open(s[i])
    &&& is_close(s[j])
    &&& depth(s, i + 1, j) == 0
    &&& forall|k: int| i + 1 <= k <= j ==> #[trigger] depth(s, i + 1, k) >= 0
}

/// `c` and `d` are equal, or both opening brackets, or both closing ones.
pub open spec fn same_kind(c: char, d: char) -> bool {
    c == d || (is_open(c) && is_open(d)) || (is_close(c) && is_close(d))
}

/// `t` is `s` with at most the kinds of some brackets changed.
pub open spec fn same_shape(s: Seq<char>, t: Seq<char>) -> bool {
    &&& s.len() == t.len()
    &&& forall|k: int| 0 <= k < s.len() ==> same_kind(#[trigger] s[k], t[k])
}

/// Partners of matching kinds in `s` still match in `t`.
pub open spec fn pairs_agree(s: Seq<char>, t: Seq<char>) -> bool {
    forall|i: int, j: int|
        #[trigger] is_pair(s, i, j) && s[j] == closer(s[i]) ==> t[j] == closer(t[i])
}

proof fn lemma_depth_split(s: Seq<char>, a: int, b: int, c: int)
    requires
        a <= b <= c,
    ensures
        depth(s, a, c) == depth(s, a, b) + depth(s, b, c),
    decreases c - b,
{
    if b < c {
        lemma_depth_split(s, a, b, c - 1);
    }
}

proof fn lemma_depth_same_shape(s: Seq<char>, t: Seq<char>, a: int, b: int)
    requires
        same_shape(s, t),
        0 <= a,
        b <= s.len(),
    ensures
        depth(t, a, b) == depth(s, a, b),
    decreases b - a,
{
    if a < b {
        lemma_depth_same_shape(s, t, a, b - 1);
        assert(same_kind(s[b - 1], t[b - 1]));
    }
}

proof fn lemma_scan_depth(s: Seq<char>, a: int, b: int, st: Seq<char>)
    requires
        a <= b,
        bracket_scan(s, a, b, st) is Some,
    ensures
        bracket_scan(s, a, b, st)->0.len() == st.len() + depth(s, a, b),
        forall|k: int| a <= k <= b ==> st.len() + depth(s, a, k) >= 0,
    decreases b - a,
{
    if a < b {
        let next = if is_open(s[a]) {
            st.push(s[a])
        } else if is_close(s[a]) {
            st.drop_last()
        } else {
            st
        };
        lemma_scan_depth(s, a + 1, b, next);
        assert(depth(s, a, a) == 0);
        assert(depth(s, a, a + 1) == depth_step(s[a]));
        lemma_depth_split(s, a, a + 1, b);
        assert forall|k: int| a <= k <= b implies st.len() + depth(s, a, k) >= 0 by {
            if k > a {
                lemma_depth_split(s, a, a + 1, k);
            }
        }
    }
}

/// A group that the rules read closes at the partner of its opening bracket.
proof fn lemma_group_pair<N: Number>(s: Seq<char>, i: int)
    requires
        0 <= i < s.len(),
        is_open(s[i]),
        group_value::<N>(s, i) is Ok,
    ensures
        is_pair(s, i, group_value::<N>(s, i)->Ok_0.1 - 1),
        s[group_value::<N>(s, i)->Ok_0.1 - 1] == closer(s[i]),
{
    lemma_expression_shape::<N>(s, i + 1);
    let j = expression_value::<N>(s, i + 1)->Ok_0.1;
    assert(balanced(s, i + 1, j));
    lemma_scan_depth(s, i + 1, j, Seq::empty());
}

/// Two pairs that share one end are the same pair.
proof fn lemma_pair_unique(s: Seq<char>, i: int, j: int, i2: int, j2: int)
    requires
        is_pair(s, i, j),
        is_pair(s, i2, j2),
        i == i2 || j == j2,
    ensures
        i == i2 && j == j2,
{
    if i == i2 && j < j2 {
        lemma_depth_split(s, i + 1, j, j + 1);
        assert(depth(s, i + 1, j + 1) >= 0);
    } else if i == i2 && j2 < j {
        lemma_depth_split(s, i + 1, j2, j2 + 1);
        assert(depth(s, i + 1, j2 + 1) >= 0);
    } else if j == j2 && i < i2 {
        lemma_depth_split(s, i + 1, i2 + 1, j);
        lemma_depth_split(s, i + 1, i2, i2 + 1);
        assert(depth(s, i + 1, i2) >= 0);
    } else if j == j2 && i2 < i {
        lemma_depth_split(s, i2 + 1, i + 1, j);
        lemma_depth_split(s, i2 + 1, i, i + 1);
        assert(depth(s, i2 + 1, i) >= 0);
    }
}

proof fn lemma_variant_digits(s: Seq<char>, t: Seq<char>, i: int)
    requires
        same_shape(s, t),
        0 <= i <= s.len(),
    ensures
        digits_end(t, i) == digits_end(s, i),
        i <= digits_end(s, i) <= s.len(),
        forall|k: int| i <= k < digits_end(s, i) ==> is_digit(#[trigger] s[k]),
    decreases s.len() - i,
{
    if i < s.len() {
        assert(same_kind(s[i], t[i]));
        if is_digit(s[i]) {
            lemma_variant_digits(s, t, i + 1);
        }
    }
}

proof fn lemma_variant_literal<N: Number>(s: Seq<char>, t: Seq<char>, i: int)
    requires
        same_shape(s, t),
        0 <= i < s.len(),
    ensures
        literal_value::<N>(t, i) == literal_value::<N>(s, i),
{
    lemma_variant_digits(s, t, i);
    let k = digits_end(s, i);
    let m = literal_end(s, i);
    if 0 <= k < s.len() {
        assert(same_kind(s[k], t[k]));
        if s[k] == '.' {
            lemma_variant_digits(s, t, k + 1);
        }
    }
    assert(literal_end(t, i) == m);
    assert forall|x: int| i <= x < m implies t[x] == s[x] by {
        assert(same_kind(s[x], t[x]));
        if x >= k && 0 <= k < s.len() && s[k] == '.' && x > k {
            assert(is_digit(s[x]));
        }
    }
    assert(t.subrange(i, m) =~= s.subrange(i, m));
}

proof fn lemma_variant_expression<N: Number>(s: Seq<char>, t: Seq<char>, i: int)
    requires
        same_shape(s, t),
        pairs_agree(s, t),
        0 <= i <= s.len(),
        expression_value::<N>(s, i) is Ok,
    ensures
        expression_value::<N>(t, i) == expression_value::<N>(s, i),
    decreases s.len() - i, 3int,
{
    if i < s.len() {
        assert(same_kind(s[i], t[i]));
    }
    if i < s.len() && is_additive(s[i]) {
        lemma_variant_term::<N>(s, t, i + 1);
        let (v, j) = term_value::<N>(s, i + 1)->Ok_0;
        if i < j <= s.len() {
            if let Some(u) = unary_op(s[i], v) {
                lemma_variant_sum::<N>(s, t, j, u);
            }
        }
    } else {
        lemma_variant_term::<N>(s, t, i);
        let (v, j) = term_value::<N>(s, i)->Ok_0;
        if i <= j <= s.len() {
            lemma_variant_sum::<N>(s, t, j, v);
        }
    }
}

proof fn lemma_variant_sum<N: Number>(s: Seq<char>, t: Seq<char>, i: int, acc: N)
    requires
        same_shape(s, t),
        pairs_agree(s, t),
        0 <= i <= s.len(),
        sum_rest::<N>(s, i, acc) is Ok,
    ensures
        sum_rest::<N>(t, i, acc) == sum_rest::<N>(s, i, acc),
    decreases s.len() - i, 0int,
{
    if i < s.len() {
        assert(same_kind(s[i], t[i]));
    }
    if i < s.len() && is_additive(s[i]) {
        lemma_variant_term::<N>(s, t, i + 1);
        let (v, j) = term_value::<N>(s, i + 1)->Ok_0;
        if i < j <= s.len() {
            if let Some(r) = binary_op(acc, s[i], v) {
                lemma_variant_sum::<N>(s, t, j, r);
            }
        }
    }
}

proof fn lemma_variant_term<N: Number>(s: Seq<char>, t: Seq<char>, i: int)
    requires
        same_shape(s, t),
        pairs_agree(s, t),
        0 <= i <= s.len(),
        term_value::<N>(s, i) is Ok,
    ensures
        term_value::<N>(t, i) == term_value::<N>(s, i),
    decreases s.len() - i, 2int,
{
    lemma_variant_factor::<N>(s, t, i);
    let (v, j) = factor_value::<N>(s, i)->Ok_0;
    if i <= j <= s.len() {
        lemma_variant_product::<N>(s, t, j, v);
    }
}

proof fn lemma_variant_product<N: Number>(s: Seq<char>, t: Seq<char>, i: int, acc: N)
    requires
        same_shape(s, t),
        pairs_agree(s, t),
        0 <= i <= s.len(),
        product_rest::<N>(s, i, acc) is Ok,
    ensures
        product_rest::<N>(t, i, acc) == product_rest::<N>(s, i, acc),
    decreases s.len() - i, 0int,
{
    if i < s.len() {
        assert(same_kind(s[i], t[i]));
    }
    if i < s.len() && is_multiplicative(s[i]) {
        lemma_variant_factor::<N>(s, t, i + 1);
        let (v, j) = factor_value::<N>(s, i + 1)->Ok_0;
        if i < j <= s.len() {
            if let Some(r) = binary_op(acc, s[i], v) {
                lemma_variant_product::<N>(s, t, j, r);
            }
        }
    }
}

proof fn lemma_variant_factor<N: Number>(s: Seq<char>, t: Seq<char>, i: int)
    requires
        same_shape(s, t),
        pairs_agree(s, t),
        0 <= i <= s.len(),
        factor_value::<N>(s, i) is Ok,
    ensures
        factor_value::<N>(t, i) == factor_value::<N>(s, i),
    decreases s.len() - i, 1int,
{
    if i < s.len() {
        assert(same_kind(s[i], t[i]));
        if is_open(s[i]) {
            lemma_variant_group::<N>(s, t, i);
        } else if is_digit(s[i]) || s[i] == '.' {
            lemma_variant_literal::<N>(s, t, i);
        }
    }
}

proof fn lemma_variant_group<N: Number>(s: Seq<char>, t: Seq<char>, i: int)
    requires
        same_shape(s, t),
        pairs_agree(s, t),
        0 <= i < s.len(),
        is_open(s[i]),
        group_value::<N>(s, i) is Ok,
    ensures
        group_value::<N>(t, i) == group_value::<N>(s, i),
    decreases s.len() - i, 0int,
{
    lemma_variant_expression::<N>(s, t, i + 1);
    lemma_group_pair::<N>(s, i);
    let j = expression_value::<N>(s, i + 1)->Ok_0.1;
    assert(is_pair(s, i, j));
    assert(t[j] == closer(t[i]));
}

/// Texts whose significant characters differ only in the kinds of brackets,
/// where every pair of partners that matched still matches, evaluate alike.
proof fn lemma_variant_calculation<N: Number>(a: Seq<char>, b: Seq<char>)
    requires
        same_shape(significant(a), significant(b)),
        pairs_agree(significant(a), significant(b)),
        calculation::<N>(a) is Ok,
    ensures
        calculation::<N>(b) == calculation::<N>(a),
{
    lemma_variant_expression::<N>(significant(a), significant(b), 0);
}

proof fn lemma_restyle_significant(t: Seq<char>, round: char, curly: char, square: char)
    requires
        is_style(round, curly, square),
    ensures
        significant(restyle(t, round, curly, square)) == restyle(significant(t), round, curly, square),
    decreases t.len(),
{
    reveal(Seq::filter);
    let u = restyle(t, round, curly, square);
    if t.len() > 0 {
        lemma_restyle_significant(t.drop_last(), round, curly, square);
        assert(u.drop_last() =~= restyle(t.drop_last(), round, curly, square));
        let f = significant(t.drop_last());
        assert(restyle(f.push(t.last()), round, curly, square) =~= restyle(f, round, curly, square).push(
            restyled(t.last(), round, curly, square),
        ));
    } else {
        assert(significant(u) =~= restyle(significant(t), round, curly, square));
    }
}

/// The bracket style does not matter: writing each kind of bracket in
/// another style, consistently, leaves the value of an expression as it was.
pub proof fn bracket_style_is_irrelevant<N: Number>(
    text: Seq<char>,
    round: char,
    curly: char,
    square: char,
)
    requires
        is_style(round, curly, square),
        calculation::<N>(text) is Ok,
    ensures
        calculation::<N>(restyle(text, round, curly, square)) == calculation::<N>(text),
{
    let s = significant(text);
    let t = restyle(s, round, curly, square);
    lemma_restyle_significant(text, round, curly, square);
    assert(same_shape(s, t));
    lemma_variant_calculation::<N>(text, restyle(text, round, curly, square));
}

/// Each group may have a style of its own: rewriting one pair of partner
/// brackets, at `i` and `j` among the significant characters, as the opening
/// bracket `c` and its partner leaves the value as it was, and the pairs as
/// they were, so pairs can be rewritten one after another.
pub proof fn pair_style_is_irrelevant<N: Number>(
    a: Seq<char>,
    b: Seq<char>,
    i: int,
    j: int,
    c: char,
)
    requires
        is_pair(significant(a), i, j),
        is_open(c),
        significant(b) == significant(a).update(i, c).update(j, closer(c)),
        calculation::<N>(a) is Ok,
    ensures
        calculation::<N>(b) == calculation::<N>(a),
        forall|x: int, y: int| is_pair(significant(b), x, y) == is_pair(significant(a), x, y),
{
    let s = significant(a);
    let t = significant(b);
    assert(same_shape(s, t));
    assert forall|x: int, y: int| #[trigger] is_pair(s, x, y) && s[y] == closer(s[x]) implies t[y]
        == closer(t[x]) by {
        if x == i || y == j {
            lemma_pair_unique(s, i, j, x, y);
        }
    }
    lemma_variant_calculation::<N>(a, b);
    assert forall|x: int, y: int| is_pair(t, x, y) == is_pair(s, x, y) by {
        if 0 <= x < y < s.len() {
            lemma_depth_same_shape(s, t, x + 1, y);
            if is_pair(s, x, y) {
                assert forall|k: int| x + 1 <= k <= y implies #[trigger] depth(t, x + 1, k) >= 0
                by {
                    lemma_depth_same_shape(s, t, x + 1, k);
                    assert(depth(s, x + 1, k) >= 0);
                }
            }
            if is_pair(t, x, y) {
                assert forall|k: int| x + 1 <= k <= y implies #[trigger] depth(s, x + 1, k) >= 0
                by {
                    lemma_depth_same_shape(s, t, x + 1, k);
                    assert(depth(t, x + 1, k) >= 0);
                }
            }
            assert(same_kind(s[x], t[x]));
            assert(same_kind(s[y], t[y]));
        }
    }
}

} // verus!
