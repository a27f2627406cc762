use calculator::{calculate, Number};
use num::traits::{CheckedAdd, CheckedDiv, CheckedMul, CheckedSub};

/// `f64` arithmetic, as the standard library does it.
#[derive(Clone, Copy, Debug, PartialEq)]
struct Float(f64);

impl Number for Float {
    fn from_literal(text: &Vec<char>) -> Option<Float> {
        text.iter().collect::<String>().parse::<f64>().ok().map(Float)
    }

    fn plus(self, rhs: Float) -> Option<Float> {
        Some(Float(self.0 + rhs.0))
    }

    fn minus(self, rhs: Float) -> Option<Float> {
        Some(Float(self.0 - rhs.0))
    }

    fn times(self, rhs: Float) -> Option<Float> {
        Some(Float(self.0 * rhs.0))
    }

    fn divided_by(self, rhs: Float) -> Option<Float> {
        Some(Float(self.0 / rhs.0))
    }

    fn negated(self) -> Option<Float> {
        Some(Float(-self.0))
    }
}

/// Exact fractions of `i64`s.
#[derive(Clone, Copy, Debug, PartialEq)]
struct Exact(num::Rational64);

impl Number for Exact {
    fn from_literal(text: &Vec<char>) -> Option<Exact> {
        text.iter().collect::<String>().parse::<num::Rational64>().ok().map(Exact)
    }

    fn plus(self, rhs: Exact) -> Option<Exact> {
        self.0.checked_add(&rhs.0).map(Exact)
    }

    fn minus(self, rhs: Exact) -> Option<Exact> {
        self.0.checked_sub(&rhs.0).map(Exact)
    }

    fn times(self, rhs: Exact) -> Option<Exact> {
        self.0.checked_mul(&rhs.0).map(Exact)
    }

    fn divided_by(self, rhs: Exact) -> Option<Exact> {
        self.0.checked_div(&rhs.0).map(Exact)
    }

    fn negated(self) -> Option<Exact> {
        if *self.0.numer() == i64::MIN {
            None
        } else {
            Some(Exact(-self.0))
        }
    }
}

fn float(text: &str) -> f64 {
    calculate::<Float>(text).unwrap().0
}

fn exact(text: &str) -> num::Rational64 {
    calculate::<Exact>(text).unwrap().0
}

#[test]
fn test_add() {
    assert!(matches!(calculate::<i64>("1+2+3+4+5+6+7+8+9+10"), Ok(55)));
    assert!(matches!(calculate::<i64>("1+2++3"), Err(_)));
    assert!(matches!(calculate::<i64>("+2"), Ok(2)));
    assert!(matches!(calculate::<i64>("-2"), Ok(-2)));
}

#[test]
fn test_paren() {
    assert!(matches!(calculate::<i64>("(1+2)+3"), Ok(6)));
    assert!(matches!(calculate::<i64>("(1+2))+3"), Err(_)));
    assert!(matches!(calculate::<i64>("(1+2)+3))))"), Err(_)));
    assert!(matches!(calculate::<i64>("[{(1+2)}]+(3)"), Ok(6)));
}

#[test]
fn test_whitespace() {
    assert!(matches!(calculate::<i64>(" 1 +  2+3+4 +5+6+7+8+9+10  "), Ok(55)));
    assert!(matches!(calculate::<i64>("1+( 2+3)"), Ok(6)));
    assert!(matches!(calculate::<i64>("  1 + (2\t + 3\n\n  )"), Ok(6)));
}

#[test]
fn test_mul() {
    assert!(matches!(calculate::<i64>("1*2*3*4*5*6*7*8*9*10"), Ok(3628800)));
    assert!(matches!(calculate::<i64>("1*2*3*4*5*"), Err(_)));
    assert!(matches!(calculate::<i64>("*2"), Err(_)));
}

#[test]
fn test_integer_expression() {
    assert!(matches!(calculate::<i64>("(1+2*3)*4+5*6"), Ok(58)));
    assert!(matches!(calculate::<i64>("1+(2+3*4+5)*6"), Ok(115)));
    assert!(matches!(calculate::<i64>("1 - 2 + 3*4/5*6"), Ok(11)));
    assert!(matches!(calculate::<i64>("(2023 + 2024 + 2025) / 2024"), Ok(3)));
    assert!(matches!(calculate::<i64>("6*5*4/(3*2*1)"), Ok(20)));
}

#[test]
fn test_fraction_expression() {
    assert_eq!(float("1.23 * 4 "), 4.92);
    assert_eq!(float("1.23 * (3 + 10.2) - 0.006 "), 16.23);
    assert_eq!(float("1 - 2 + 3*4/5*6"), 13.399999999999999);
    assert_eq!(float("(20.23 + 20.24 + 20.25) / 20.24"), 3.);
    assert_eq!(float("1."), 1.0);
    assert_eq!(float(".1"), 0.1);
}

#[test]
fn test_expression() {
    assert!(matches!(calculate::<i64>("-123 + (-45  / 9)"), Ok(-128)));
    assert!(matches!(calculate::<i64>("-123 + (-45  / -9)"), Err(_)));
    assert!(matches!(calculate::<i64>("-123 + -----9"), Err(_)));
    assert!(matches!(calculate::<i64>("-123 + (-45  / (-9))"), Ok(-118)));

    assert_eq!(float("-1.23 * 4 "), -4.92);
    assert!(calculate::<Float>("-1.23 * -4 ").is_err());
    assert!(calculate::<Float>("-1.23 * -----4 ").is_err());
    assert_eq!(float("-1.23 * (-4) "), 4.92);
}

#[test]
fn test_rational() {
    assert_eq!(exact("-123 + (-45  / 9)"), num::Rational64::from_integer(-128));
    assert_eq!(exact("1/99*3*3*11+100"), num::Rational64::from_integer(101));
    assert_eq!(exact("2/3*5/4"), num::Rational64::new_raw(5, 6));
    assert_eq!(exact("(1/3+1/2-1)*12"), num::Rational64::from_integer(-2));
    assert_eq!(exact("2/3 + 1/6"), "5/6".parse::<num::Rational64>().unwrap());
}

#[test]
fn test_large1() {
    assert_eq!(calculate::<i128>(&vec!["1"; 1000000].join("+")).unwrap(), 1000000);
}

#[test]
fn test_large2() {
    assert_eq!(calculate::<i128>(&vec!["1-1"; 500000].join("+")).unwrap(), 0);
}

#[test]
fn test_large3() {
    assert_eq!(calculate::<i128>(&vec!["2/2"; 500000].join("*")).unwrap(), 1);
}

#[test]
fn exact_fractions_are_lossless() {
    assert_eq!(exact("2/3 + 1/6"), num::Rational64::new(5, 6));
    assert_eq!(exact("1 - 2 + 3*4/5*6"), num::Rational64::new(67, 5));
    assert_ne!(float("1 - 2 + 3*4/5*6"), 13.4);
    assert!(calculate::<Exact>("1/0").is_err());
}

#[test]
fn decimal_literal_shapes() {
    assert_eq!(float("1."), 1.0);
    assert_eq!(float(".1"), 0.1);
    assert_eq!(float("12.5"), 12.5);
    assert!(calculate::<Float>(".").is_err());
}
