use desklings::condition::{compare_whole, parse, Cond, Literal, Op, Relation};

/// Evaluates a parsed condition at a floating-point speed, reading each
/// literal as `f64` and comparing for equality within `f64::EPSILON`, as
/// the application does.
fn holds(c: &Cond, speed: f64) -> bool {
    match c {
        Cond::Always => true,
        Cond::Cmp { op, rhs, .. } => {
            let v: f64 = rhs.text.parse().expect("literal");
            match op {
                Op::Lt => speed < v,
                Op::Le => speed <= v,
                Op::Gt => speed > v,
                Op::Ge => speed >= v,
                Op::Eq => (speed - v).abs() < f64::EPSILON,
                Op::Ne => (speed - v).abs() >= f64::EPSILON,
            }
        }
        Cond::And(l, r) => holds(l, speed) && holds(r, speed),
        Cond::Or(l, r) => holds(l, speed) || holds(r, speed),
    }
}

fn eval(src: &str, speed: f64) -> bool {
    holds(&parse(src).expect("parse"), speed)
}

#[test]
fn basic_comparisons() {
    assert!(eval("speed < 200", 199.0));
    assert!(!eval("speed < 200", 200.0));
    assert!(eval("speed <= 200", 200.0));
    assert!(eval("speed >= 200", 200.0));
    assert!(!eval("speed > 200", 200.0));
    assert!(eval("speed != 200", 199.9));
    assert!(eval("speed == 200", 200.0));
}

#[test]
fn conjunction() {
    assert!(eval("speed >= 200 && speed < 600", 400.0));
    assert!(!eval("speed >= 200 && speed < 600", 700.0));
    assert!(!eval("speed >= 200 && speed < 600", 100.0));
}

#[test]
fn disjunction() {
    assert!(eval("speed < 100 || speed >= 500", 50.0));
    assert!(eval("speed < 100 || speed >= 500", 500.0));
    assert!(!eval("speed < 100 || speed >= 500", 300.0));
}

#[test]
fn precedence_and_over_or() {
    assert!(eval("speed < 10 || speed >= 100 && speed < 200", 0.0));
    assert!(!eval("speed < 10 || speed >= 100 && speed < 200", 50.0));
    assert!(eval("speed < 10 || speed >= 100 && speed < 200", 150.0));
    assert!(!eval("speed < 10 || speed >= 100 && speed < 200", 250.0));
}

#[test]
fn whitespace_insensitive() {
    assert!(eval("  speed<200  ", 100.0));
    assert!(eval("speed  >=  200  &&  speed  <  600", 400.0));
}

#[test]
fn rejects_parentheses() {
    assert!(parse("(speed < 200)").is_err());
}

#[test]
fn rejects_negation() {
    assert!(parse("!speed < 200").is_err());
}

#[test]
fn rejects_unknown_identifier() {
    assert!(parse("bounced == 1").is_err());
}

#[test]
fn rejects_trailing_garbage() {
    assert!(parse("speed < 200 garbage").is_err());
}

#[test]
fn rejects_missing_rhs() {
    assert!(parse("speed <").is_err());
}

fn eval_whole(src: &str, speed: u32) -> bool {
    parse(src).expect("parse").eval_whole(speed)
}

#[test]
fn whole_speeds_match_float_evaluation() {
    let cases = [
        "speed < 200",
        "speed <= 200",
        "speed >= 200",
        "speed > 200",
        "speed != 200",
        "speed == 200",
        "speed >= 200 && speed < 600",
        "speed < 100 || speed >= 500",
        "speed < 10 || speed >= 100 && speed < 200",
        "speed < 199.5",
        "speed > -3",
        "speed == +7.0",
    ];
    for src in cases {
        for speed in [0u32, 7, 10, 50, 100, 199, 200, 201, 250, 400, 500, 600, 700, 1_000_000] {
            assert_eq!(eval_whole(src, speed), eval(src, f64::from(speed)), "{src} at {speed}");
        }
    }
}

#[test]
fn eval_whole_of_always() {
    assert!(Cond::Always.eval_whole(0));
    assert!(Cond::Always.eval_whole(u32::MAX));
}

#[test]
fn compare_whole_reads_literals() {
    let lit = |t: &str| Literal { text: t.to_string() };
    assert_eq!(compare_whole(199, &lit("199.9")), Relation::Below);
    assert_eq!(compare_whole(200, &lit("199.9")), Relation::Above);
    assert_eq!(compare_whole(200, &lit("200.000")), Relation::Equal);
    assert_eq!(compare_whole(0, &lit("-0")), Relation::Equal);
    assert_eq!(compare_whole(0, &lit("-0.5")), Relation::Above);
    assert_eq!(compare_whole(5, &lit("+5")), Relation::Equal);
    assert_eq!(compare_whole(u32::MAX, &lit("99999999999999999999")), Relation::Below);
    assert_eq!(compare_whole(3, &lit(".5")), Relation::Above);
    assert_eq!(compare_whole(3, &lit("3.")), Relation::Equal);
}

#[test]
fn parse_error_messages() {
    let e = parse("(speed < 200)").unwrap_err();
    assert_eq!(e.msg, "expected identifier");
    assert_eq!(e.input, "(speed < 200)");
    assert_eq!(e.message(), "invalid condition \"(speed < 200)\": expected identifier");

    let e = parse("bounced == 1").unwrap_err();
    assert_eq!(e.msg, "unknown identifier \"bounced\"");

    let e = parse("speed ~ 1").unwrap_err();
    assert_eq!(e.msg, "expected comparison operator");

    let e = parse("speed <").unwrap_err();
    assert_eq!(e.msg, "expected number");

    let e = parse("speed < 1.2.3").unwrap_err();
    assert_eq!(e.msg, "bad number literal \"1.2.3\"");

    let e = parse("speed < 200 garbage").unwrap_err();
    assert_eq!(e.msg, "unexpected trailing input \"garbage\"");
    assert_eq!(e.input, "speed < 200 garbage");
}

#[test]
fn parse_builds_left_associative_tree() {
    match parse("speed < 1 || speed > 2 || speed == 3").expect("parse") {
        Cond::Or(l, r) => {
            assert!(matches!(*l, Cond::Or(_, _)));
            assert!(matches!(*r, Cond::Cmp { op: Op::Eq, .. }));
        }
        _ => panic!("expected a disjunction"),
    }
    match parse("speed >= 100 && speed < 200").expect("parse") {
        Cond::And(l, r) => {
            assert!(matches!(*l, Cond::Cmp { op: Op::Ge, .. }));
            match *r {
                Cond::Cmp { op: Op::Lt, rhs, .. } => assert_eq!(rhs.text, "200"),
                _ => panic!("expected a comparison"),
            }
        }
        _ => panic!("expected a conjunction"),
    }
}

#[test]
fn whole_speeds_read_literals_as_f64() {
    let mut literals: Vec<String> = vec![
        "0.0000000000000001".into(),
        "399.99999999999999999".into(),
        "400.00000000000001".into(),
        "400.0000000000001".into(),
        "0.99999999999999994".into(),
        "0.99999999999999995".into(),
        "0.99999999999999997".into(),
        "1.00000000000000011".into(),
        "1.00000000000000012".into(),
        "0.000000000000000222044604925031".into(),
        "0.000000000000000222044604925032".into(),
        "1023.99999999999994".into(),
        "1023.99999999999995".into(),
        "1024.0000000000001".into(),
        "1024.00000000000012".into(),
        "999999.99999999997".into(),
        "1000000.00000000006".into(),
        "4294967295.0000003".into(),
        "4294967294.9999998".into(),
        "2147483648.0000002".into(),
        "2147483647.99999988".into(),
        "-0".into(),
        "-0.0000000000000000001".into(),
        "-3".into(),
        "+7.0".into(),
        "7.".into(),
        ".5".into(),
    ];
    literals.push(format!("0.{}25", "0".repeat(322)));
    literals.push(format!("0.{}247032822920623272088", "0".repeat(323)));
    literals.push(format!("0.{}247032822920623272", "0".repeat(323)));
    literals.push(format!("0.{}1", "0".repeat(400)));
    literals.push(format!("1{}", "0".repeat(400)));
    literals.push(format!("-1{}", "0".repeat(400)));
    literals.push(format!("1.{}1", "0".repeat(60)));
    let speeds = [0u32, 1, 2, 3, 399, 400, 401, 1023, 1024, 1025, 999_999, 1_000_000, 2_147_483_648, u32::MAX];
    for lit in &literals {
        for op in ["<", "<=", ">", ">=", "==", "!="] {
            let src = format!("speed {op} {lit}");
            for speed in speeds {
                assert_eq!(eval_whole(&src, speed), eval(&src, f64::from(speed)), "{src} at {speed}");
            }
        }
    }
}
