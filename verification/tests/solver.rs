use twentyfour::arith::{Arithmetic, Operation};
use twentyfour::eval::{calculate, Frac};
use twentyfour::solve::{find_solutions, solutions, solve};
use twentyfour::token::{tokenize, Token, TokenTree};

#[test]
fn test_calculate1() {
    let calculation = [
        Arithmetic::Num(1),
        Arithmetic::Num(2),
        Arithmetic::Op(Operation::Add),
        Arithmetic::Num(1),
        Arithmetic::Num(7),
        Arithmetic::Op(Operation::Add),
        Arithmetic::Op(Operation::Mul),
    ];
    assert!(calculate(&calculation).unwrap().equals_int(24));
}

#[test]
fn test_calculate2() {
    let calculation = [
        Arithmetic::Num(13),
        Arithmetic::Num(7),
        Arithmetic::Num(7),
        Arithmetic::Op(Operation::Div),
        Arithmetic::Op(Operation::Sub),
        Arithmetic::Num(2),
        Arithmetic::Op(Operation::Mul),
    ];
    assert!(calculate(&calculation).unwrap().equals_int(24));
}

#[test]
fn calculate_keeps_exact_fractions() {
    // (1 / 7) x 7 x 24 stays the exact fraction 168/7, which equals 24.
    let calculation = [
        Arithmetic::Num(1),
        Arithmetic::Num(7),
        Arithmetic::Op(Operation::Div),
        Arithmetic::Num(7),
        Arithmetic::Op(Operation::Mul),
        Arithmetic::Num(24),
        Arithmetic::Op(Operation::Mul),
    ];
    let f = calculate(&calculation).unwrap();
    assert!(f.equals_int(24));
    assert!(!f.equals_int(23));
}

#[test]
fn calculate_division_by_zero_is_never_24() {
    let calculation = [
        Arithmetic::Num(24),
        Arithmetic::Num(0),
        Arithmetic::Op(Operation::Div),
        Arithmetic::Num(1),
        Arithmetic::Op(Operation::Mul),
        Arithmetic::Num(0),
        Arithmetic::Op(Operation::Mul),
    ];
    match calculate(&calculation) {
        Some(f) => assert!(!f.equals_int(24)),
        None => {}
    }
}

#[test]
fn frac_whole_equals_itself() {
    let f = Frac::whole(24);
    assert!(f.equals_int(24));
    assert!(!f.equals_int(0));
    assert_eq!(calculate(&[
        Arithmetic::Num(1),
        Arithmetic::Num(2),
        Arithmetic::Op(Operation::Add),
        Arithmetic::Num(1),
        Arithmetic::Num(7),
        Arithmetic::Op(Operation::Add),
        Arithmetic::Op(Operation::Mul),
    ]),
    Some(Frac { num: 24, den: 1 }));
}

#[test]
fn operation_symbols() {
    assert_eq!(Operation::Add.symbol(), "+");
    assert_eq!(Operation::Sub.symbol(), "-");
    assert_eq!(Operation::Mul.symbol(), "x");
    assert_eq!(Operation::Div.symbol(), "/");
}

#[test]
fn printer_parenthesizes_minimally() {
    let rpn = [
        Arithmetic::Num(13),
        Arithmetic::Num(7),
        Arithmetic::Num(7),
        Arithmetic::Op(Operation::Div),
        Arithmetic::Op(Operation::Sub),
        Arithmetic::Num(2),
        Arithmetic::Op(Operation::Mul),
    ];
    assert_eq!(tokenize(&rpn).to_string(), "(13 - 7 / 7) x 2");

    let plain_sum = [
        Arithmetic::Num(1),
        Arithmetic::Num(2),
        Arithmetic::Op(Operation::Add),
        Arithmetic::Num(3),
        Arithmetic::Op(Operation::Add),
        Arithmetic::Num(4),
        Arithmetic::Op(Operation::Add),
    ];
    assert_eq!(tokenize(&plain_sum).to_string(), "1 + 2 + 3 + 4");

    // A subtraction on the right of a subtraction is parenthesized.
    let nested_sub = [
        Arithmetic::Num(9),
        Arithmetic::Num(5),
        Arithmetic::Num(2),
        Arithmetic::Op(Operation::Sub),
        Arithmetic::Op(Operation::Sub),
        Arithmetic::Num(1),
        Arithmetic::Op(Operation::Add),
    ];
    assert_eq!(tokenize(&nested_sub).to_string(), "9 - (5 - 2) + 1");

    // Any multiplicative child on the right of a division is parenthesized.
    let nested_div = [
        Arithmetic::Num(8),
        Arithmetic::Num(4),
        Arithmetic::Num(2),
        Arithmetic::Op(Operation::Mul),
        Arithmetic::Op(Operation::Div),
        Arithmetic::Num(6),
        Arithmetic::Op(Operation::Mul),
    ];
    assert_eq!(tokenize(&nested_div).to_string(), "8 / (4 x 2) x 6");
}

#[test]
fn printer_renders_negative_leaves() {
    let token = Token::new(Arithmetic::Num(-3));
    assert_eq!(token.to_string(), "-3");
    let rpn = [
        Arithmetic::Num(-3),
        Arithmetic::Num(-8),
        Arithmetic::Op(Operation::Mul),
        Arithmetic::Num(0),
        Arithmetic::Op(Operation::Add),
        Arithmetic::Num(1),
        Arithmetic::Op(Operation::Mul),
    ];
    let tree: TokenTree = tokenize(&rpn);
    assert_eq!(tree.to_string(), "(-3 x -8 + 0) x 1");
}

#[test]
fn no_solution_prints_single_cannot_line() {
    let lines = solve(&[1, 1, 1, 1]);
    assert_eq!(lines, vec!["Cannot get 24 from [1, 1, 1, 1]".to_string()]);
}

#[test]
fn solvable_input_emits_numbered_solutions() {
    let lines = solve(&[1, 2, 1, 7]);
    assert!(!lines.is_empty());
    assert!(!lines[0].starts_with("Cannot"));
    assert!(lines[0].starts_with("01. "));
    for (i, line) in lines.iter().enumerate().take(9) {
        assert!(line.starts_with(&format!("0{}. ", i + 1)));
    }
}

#[test]
fn duplicate_values_keep_solution_exactly_once() {
    let sols = solutions(&[2, 7, 7, 13]);
    let hits = sols.iter().filter(|s| s.as_str() == "(13 - 7 / 7) x 2").count();
    assert_eq!(hits, 1);
}

#[test]
fn solver_is_deterministic() {
    let first = solve(&[2, 7, 7, 13]);
    let second = solve(&[2, 7, 7, 13]);
    assert_eq!(first, second);
    let third = solve(&[1, 2, 1, 7]);
    let fourth = solve(&[1, 2, 1, 7]);
    assert_eq!(third, fourth);
}

#[test]
fn no_two_lines_are_identical() {
    let lines = solve(&[1, 2, 1, 7]);
    for i in 0..lines.len() {
        for j in (i + 1)..lines.len() {
            assert_ne!(lines[i], lines[j]);
        }
    }
}

#[test]
fn solution_count_stays_in_enumerated_space() {
    for input in [[1, 2, 1, 7], [2, 7, 7, 13], [1, 1, 1, 1], [4, 6, 2, 3]] {
        let rpns = find_solutions(&input);
        assert!(rpns.len() <= 24 * 64);
        let sols = solutions(&input);
        assert!(sols.len() <= rpns.len() || rpns.is_empty());
    }
}

#[test]
fn every_emitted_expression_reevaluates_to_24() {
    // Each kept candidate re-evaluates to 24, and each printed string is
    // the rendering of one kept candidate.
    let rpns = find_solutions(&[1, 2, 1, 7]);
    assert!(!rpns.is_empty());
    let mut rendered: Vec<String> = Vec::new();
    for rpn in &rpns {
        assert!(calculate(rpn).unwrap().equals_int(24));
        rendered.push(tokenize(rpn).to_string());
    }
    for sol in solutions(&[1, 2, 1, 7]) {
        assert!(rendered.contains(&sol));
    }
}
