use calculator::{calculate, ErrorKind};

fn kind_of(text: &str) -> ErrorKind {
    calculate::<i64>(text).unwrap_err().kind
}

#[test]
fn chains_of_ones_count_their_terms() {
    for n in [1usize, 2, 3, 10, 1000] {
        let text = vec!["1"; n].join("+");
        assert_eq!(calculate::<i64>(&text).unwrap(), n as i64);
    }
}

#[test]
fn bracket_styles_are_interchangeable() {
    assert_eq!(calculate::<i64>("(1+2)+3").unwrap(), 6);
    assert_eq!(calculate::<i64>("{1+2}+3").unwrap(), 6);
    assert_eq!(calculate::<i64>("[1+2]+3").unwrap(), 6);
    assert_eq!(calculate::<i64>("[(1+2)*{3-1}]/{2}").unwrap(), 3);
    assert_eq!(calculate::<i64>("((1+2)*(3-1))/(2)").unwrap(), 3);
    assert_eq!(calculate::<i64>("(1+[2*3])").unwrap(), 7);
    assert_eq!(calculate::<i64>("[1+(2*3)]").unwrap(), 7);
    assert_eq!(calculate::<i64>("{1+{2*3}}").unwrap(), 7);
}

#[test]
fn brackets_must_pair_by_kind() {
    assert_eq!(kind_of("(1+2]"), ErrorKind::UnmatchedBracket('('));
    assert_eq!(kind_of("[1+2)"), ErrorKind::UnmatchedBracket('['));
    assert_eq!(kind_of("{1+2"), ErrorKind::UnmatchedBracket('{'));
    assert_eq!(kind_of("(1+2))+3"), ErrorKind::UnmatchedBracket(')'));
    assert_eq!(kind_of("(1+2)+3))))"), ErrorKind::UnmatchedBracket(')'));
    assert_eq!(kind_of("1+2]"), ErrorKind::UnmatchedBracket(']'));
}

#[test]
fn precedence_and_truncating_division() {
    assert_eq!(calculate::<i64>("(1+2*3)*4+5*6").unwrap(), 58);
    assert_eq!(calculate::<i64>("1+(2+3*4+5)*6").unwrap(), 115);
    assert_eq!(calculate::<i64>("1 - 2 + 3*4/5*6").unwrap(), 11);
    assert_eq!(calculate::<i64>("10-4-3").unwrap(), 3);
    assert_eq!(calculate::<i64>("100/10/5").unwrap(), 2);
    assert_eq!(calculate::<i64>("-7/2").unwrap(), -3);
    assert_eq!(calculate::<i64>("7/(-2)").unwrap(), -3);
}

#[test]
fn leading_sign_applies_to_the_first_term() {
    assert_eq!(calculate::<i64>("+2").unwrap(), 2);
    assert_eq!(calculate::<i64>("-2").unwrap(), -2);
    assert_eq!(calculate::<i64>("-2*3").unwrap(), -6);
    assert_eq!(calculate::<i64>("-123 + (-45/9)").unwrap(), -128);
    assert_eq!(calculate::<i64>("-123 + (-45/(-9))").unwrap(), -118);
    assert_eq!(kind_of("1 - -2"), ErrorKind::UnexpectedCharacter('-'));
    assert_eq!(kind_of("-123 + -----9"), ErrorKind::UnexpectedCharacter('-'));
    assert_eq!(kind_of("-123 + (-45/-9)"), ErrorKind::UnexpectedCharacter('-'));
    assert_eq!(kind_of("(+)"), ErrorKind::UnexpectedCharacter(')'));
    assert_eq!(kind_of("+"), ErrorKind::UnexpectedEnd);
}

#[test]
fn whitespace_changes_nothing() {
    assert_eq!(calculate::<i64>(" 1 +  2+3 ").unwrap(), calculate::<i64>("1+2+3").unwrap());
    assert_eq!(calculate::<i64>("\t(1\r\n*2)\n").unwrap(), 2);
}

#[test]
fn integer_literals() {
    assert_eq!(calculate::<i64>("9223372036854775807").unwrap(), i64::MAX);
    assert_eq!(kind_of("9223372036854775808"), ErrorKind::LiteralError);
    assert_eq!(kind_of("1."), ErrorKind::LiteralError);
    assert_eq!(kind_of(".5"), ErrorKind::LiteralError);
    assert_eq!(
        calculate::<i128>("170141183460469231731687303715884105727").unwrap(),
        i128::MAX
    );
    assert!(calculate::<i128>("170141183460469231731687303715884105728").is_err());
}

#[test]
fn each_error_kind_has_its_input() {
    assert_eq!(kind_of(""), ErrorKind::UnexpectedEnd);
    assert_eq!(kind_of("   "), ErrorKind::UnexpectedEnd);
    assert_eq!(kind_of("1+"), ErrorKind::UnexpectedEnd);
    assert_eq!(kind_of("1+x"), ErrorKind::UnexpectedCharacter('x'));
    assert_eq!(kind_of("*2"), ErrorKind::UnexpectedCharacter('*'));
    assert_eq!(kind_of("2x"), ErrorKind::TrailingInput);
    assert_eq!(kind_of("(1)(2)"), ErrorKind::TrailingInput);
    assert_eq!(kind_of("1/0"), ErrorKind::ArithmeticFailure);
    assert_eq!(kind_of("9223372036854775807+1"), ErrorKind::ArithmeticFailure);
    assert_eq!(kind_of("-(-9223372036854775807-1)"), ErrorKind::ArithmeticFailure);
    assert_eq!(kind_of("(-9223372036854775807-1)/(-1)"), ErrorKind::ArithmeticFailure);
}

#[test]
fn errors_report_where_they_stopped() {
    let e = calculate::<i64>("1 + 2 ) * 3").unwrap_err();
    assert_eq!(e.kind, ErrorKind::UnmatchedBracket(')'));
    assert_eq!(e.position, 3);
    assert_eq!(e.text, "1 + 2 ) * 3");
    assert_eq!(e.remaining, vec![')', '*', '3']);

    let e = calculate::<i64>("2 * (3 / 0)").unwrap_err();
    assert_eq!(e.kind, ErrorKind::ArithmeticFailure);
    assert_eq!(e.position, 4);
    assert_eq!(e.remaining, vec!['/', '0', ')']);
}
