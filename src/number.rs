use vstd::prelude::*;

verus! {

/// Whether `c` is an ASCII decimal digit.
pub open spec fn is_digit(c: char) -> bool {
    '0' <= c && c <= '9'
}

/// Whether every character of `t` is a decimal digit.
pub open spec fn all_digits(t: Seq<char>) -> bool {
    forall|k: int| 0 <= k < t.len() ==> is_digit(#[trigger] t[k])
}

/// The value of one decimal digit.
pub open spec fn digit_value(c: char) -> int {
    (c as int) - ('0' as int)
}

/// The value of a run of decimal digits, most significant first.
pub open spec fn decimal_value(t: Seq<char>) -> int
    decreases t.len(),
{
    if t.len() == 0 {
        0
    } else {
        decimal_value(t.drop_last()) * 10 + digit_value(t.last())
    }
}

/// A numeric type that expressions can be evaluated in.
///
/// Each operation either yields a value or reports, with `None`, that the
/// type cannot represent or define the result (overflow, division by zero,
/// ...). The spec functions say what each operation returns, for a type
/// whose `obeys_number_spec` holds: the machine integers below define them
/// exactly and are verified against them. A type implemented outside
/// verified code (floating point, say) keeps `obeys_number_spec` false, and
/// then no contract claims anything of what its operations return.
pub trait Number: Sized {
    /// Whether the operations return what the spec functions say.
    closed spec fn obeys_number_spec() -> bool {
        false
    }

    /// What `from_literal` gives for the text of a literal.
    closed spec fn spec_literal(text: Seq<char>) -> Option<Self> {
        arbitrary()
    }

    /// What `plus` gives.
    closed spec fn spec_add(a: Self, b: Self) -> Option<Self> {
        arbitrary()
    }

    /// What `minus` gives.
    closed spec fn spec_sub(a: Self, b: Self) -> Option<Self> {
        arbitrary()
    }

    /// What `times` gives.
    closed spec fn spec_mul(a: Self, b: Self) -> Option<Self> {
        arbitrary()
    }

    /// What `divided_by` gives.
    closed spec fn spec_div(a: Self, b: Self) -> Option<Self> {
        arbitrary()
    }

    /// What `negated` gives.
    closed spec fn spec_neg(a: Self) -> Option<Self> {
        arbitrary()
    }

    /// Reads a literal made of digits with at most one `.`.
    fn from_literal(text: &Vec<char>) -> (r: Option<Self>)
        ensures
            Self::obeys_number_spec() ==> r == Self::spec_literal(text@),
    ;

    fn plus(self, rhs: Self) -> (r: Option<Self>)
        ensures
            Self::obeys_number_spec() ==> r == Self::spec_add(self, rhs),
    ;

    fn minus(self, rhs: Self) -> (r: Option<Self>)
        ensures
            Self::obeys_number_spec() ==> r == Self::spec_sub(self, rhs),
    ;

    fn times(self, rhs: Self) -> (r: Option<Self>)
        ensures
            Self::obeys_number_spec() ==> r == Self::spec_mul(self, rhs),
    ;

    fn divided_by(self, rhs: Self) -> (r: Option<Self>)
        ensures
            Self::obeys_number_spec() ==> r == Self::spec_div(self, rhs),
    ;

    fn negated(self) -> (r: Option<Self>)
        ensures
            Self::obeys_number_spec() ==> r == Self::spec_neg(self),
    ;
}

proof fn lemma_decimal_value_nonneg(t: Seq<char>)
    requires
        all_digits(t),
    ensures
        decimal_value(t) >= 0,
    decreases t.len(),
{
    if t.len() > 0 {
        lemma_decimal_value_nonneg(t.drop_last());
    }
}

proof fn lemma_prefix_exceeds(t: Seq<char>, n: int, limit: int)
    requires
        0 <= n <= t.len(),
        all_digits(t),
        decimal_value(t.take(n)) > limit,
    ensures
        decimal_value(t) > limit,
    decreases t.len() - n,
{
    if n < t.len() {
        assert(t.take(n + 1).drop_last() =~= t.take(n));
        assert(all_digits(t.take(n)));
        lemma_decimal_value_nonneg(t.take(n));
        assert(is_digit(t[n]));
        lemma_prefix_exceeds(t, n + 1, limit);
    } else {
        assert(t.take(n) =~= t);
    }
}

/// Integer division rounding toward zero.
pub open spec fn trunc_div(a: int, b: int) -> int {
    let q = (if a < 0 { -a } else { a }) / (if b < 0 { -b } else { b });
    if (a < 0) == (b < 0) { q } else { -q }
}

/// The value of a digit string when it is at most `limit`.
pub open spec fn bounded_decimal(text: Seq<char>, limit: int) -> Option<int> {
    if text.len() > 0 && all_digits(text) && decimal_value(text) <= limit {
        Some(decimal_value(text))
    } else {
        None
    }
}

/// Reads a nonempty run of decimal digits whose value is at most `limit`.
fn read_decimal(text: &Vec<char>, limit: i128) -> (r: Option<i128>)
    requires
        limit >= 0,
    ensures
        match bounded_decimal(text@, limit as int) {
            Some(v) => r == Some(v as i128),
            None => r is None,
        },
        r matches Some(x) ==> 0 <= x <= limit,
        bounded_decimal(text@, limit as int) matches Some(v) ==> 0 <= v <= limit,
{
    proof {
        if all_digits(text@) {
            lemma_decimal_value_nonneg(text@);
        }
    }
    if text.len() == 0 {
        return None;
    }
    let mut acc: i128 = 0;
    let mut i: usize = 0;
    while i < text.len()
        invariant
            0 <= i <= text.len(),
            text.len() > 0,
            limit >= 0,
            all_digits(text@.take(i as int)),
            acc as int == decimal_value(text@.take(i as int)),
            0 <= acc <= limit,
        decreases text.len() - i,
    {
        let c = text[i];
        assert(text@.take(i as int + 1).drop_last() =~= text@.take(i as int));
        if c < '0' || c > '9' {
            assert(!all_digits(text@)) by {
                assert(!is_digit(text@[i as int]));
            }
            return None;
        }
        let d = (c as u32 - '0' as u32) as i128;
        if d > limit || acc > (limit - d) / 10 {
            proof {
                assert(acc * 10 + d > limit) by (nonlinear_arith)
                    requires
                        d > limit || acc > (limit - d) / 10,
                        acc >= 0,
                        0 <= d <= 9,
                        limit >= 0,
                ;
                assert(decimal_value(text@.take(i as int + 1)) > limit);
                if all_digits(text@) {
                    lemma_prefix_exceeds(text@, i as int + 1, limit as int);
                }
            }
            return None;
        }
        assert(acc * 10 + d <= limit) by (nonlinear_arith)
            requires
                acc <= (limit - d) / 10,
                d <= limit,
                0 <= d <= 9,
                limit >= 0,
        ;
        acc = acc * 10 + d;
        i = i + 1;
        assert(all_digits(text@.take(i as int))) by {
            assert forall|k: int| 0 <= k < i implies is_digit(#[trigger] text@.take(i as int)[k]) by {
                if k < i - 1 {
                    assert(text@.take(i as int)[k] == text@.take(i as int - 1)[k]);
                }
            }
        }
    }
    assert(text@.take(i as int) =~= text@);
    Some(acc)
}

/// Machine integers: exact while the result fits, division rounds toward zero.
impl Number for i64 {
    open spec fn obeys_number_spec() -> bool {
        true
    }

    open spec fn spec_literal(text: Seq<char>) -> Option<i64> {
        match bounded_decimal(text, i64::MAX as int) {
            Some(v) => Some(v as i64),
            None => None,
        }
    }

    open spec fn spec_add(a: i64, b: i64) -> Option<i64> {
        fit_i64(a + b)
    }

    open spec fn spec_sub(a: i64, b: i64) -> Option<i64> {
        fit_i64(a - b)
    }

    open spec fn spec_mul(a: i64, b: i64) -> Option<i64> {
        fit_i64(a * b)
    }

    open spec fn spec_div(a: i64, b: i64) -> Option<i64> {
        if b == 0 {
            None
        } else {
            fit_i64(trunc_div(a as int, b as int))
        }
    }

    open spec fn spec_neg(a: i64) -> Option<i64> {
        fit_i64(-a)
    }

    fn from_literal(text: &Vec<char>) -> (r: Option<i64>) {
        match read_decimal(text, i64::MAX as i128) {
            Some(v) => Some(v as i64),
            None => None,
        }
    }

    fn plus(self, rhs: i64) -> (r: Option<i64>) {
        self.checked_add(rhs)
    }

    fn minus(self, rhs: i64) -> (r: Option<i64>) {
        self.checked_sub(rhs)
    }

    fn times(self, rhs: i64) -> (r: Option<i64>) {
        self.checked_mul(rhs)
    }

    fn divided_by(self, rhs: i64) -> (r: Option<i64>) {
        self.checked_div(rhs)
    }

    fn negated(self) -> (r: Option<i64>) {
        if self == i64::MIN {
            None
        } else {
            Some(-self)
        }
    }
}

/// `v` as an `i64`, when it lies in its range.
pub open spec fn fit_i64(v: int) -> Option<i64> {
    if i64::MIN <= v <= i64::MAX {
        Some(v as i64)
    } else {
        None
    }
}

/// Machine integers: exact while the result fits, division rounds toward zero.
impl Number for i128 {
    open spec fn obeys_number_spec() -> bool {
        true
    }

    open spec fn spec_literal(text: Seq<char>) -> Option<i128> {
        match bounded_decimal(text, i128::MAX as int) {
            Some(v) => Some(v as i128),
            None => None,
        }
    }

    open spec fn spec_add(a: i128, b: i128) -> Option<i128> {
        fit_i128(a + b)
    }

    open spec fn spec_sub(a: i128, b: i128) -> Option<i128> {
        fit_i128(a - b)
    }

    open spec fn spec_mul(a: i128, b: i128) -> Option<i128> {
        fit_i128(a * b)
    }

    open spec fn spec_div(a: i128, b: i128) -> Option<i128> {
        if b == 0 {
            None
        } else {
            fit_i128(trunc_div(a as int, b as int))
        }
    }

    open spec fn spec_neg(a: i128) -> Option<i128> {
        fit_i128(-a)
    }

    fn from_literal(text: &Vec<char>) -> (r: Option<i128>) {
        match read_decimal(text, i128::MAX as i128) {
            Some(v) => Some(v as i128),
            None => None,
        }
    }

    fn plus(self, rhs: i128) -> (r: Option<i128>) {
        self.checked_add(rhs)
    }

    fn minus(self, rhs: i128) -> (r: Option<i128>) {
        self.checked_sub(rhs)
    }

    fn times(self, rhs: i128) -> (r: Option<i128>) {
        self.checked_mul(rhs)
    }

    fn divided_by(self, rhs: i128) -> (r: Option<i128>) {
        self.checked_div(rhs)
    }

    fn negated(self) -> (r: Option<i128>) {
        if self == i128::MIN {
            None
        } else {
            Some(-self)
        }
    }
}

/// `v` as an `i128`, when it lies in its range.
pub open spec fn fit_i128(v: int) -> Option<i128> {
    if i128::MIN <= v <= i128::MAX {
        Some(v as i128)
    } else {
        None
    }
}

} // verus!
