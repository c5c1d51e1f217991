use cgs_calc::catalog::{find, Catalogs, Entry};
use cgs_calc::instruction::{Instruction, Operator};
use cgs_calc::number::{first_non_number, is_literal_exec, Atom, Source};
use cgs_calc::parse::{parse, ParseError};
use cgs_calc::program::{check, Check, Step};

fn chars(s: &str) -> Vec<char> {
    s.chars().collect()
}

#[derive(Debug, PartialEq)]
enum Failure {
    Parse(ParseError),
    Incomplete,
    UnknownName(String),
    UnsupportedFunction(String),
    DimensionMismatch,
}

fn unit_of(e: &Entry) -> [f64; 3] {
    [e.cm_halves as f64 / 2., e.g_halves as f64 / 2., e.s_halves as f64 / 2.]
}

fn entry_value(e: &Entry) -> (f64, [f64; 3]) {
    (e.value.parse::<f64>().unwrap(), unit_of(e))
}

fn atom_value(a: &Atom, cat: &Catalogs) -> (f64, [f64; 3]) {
    match a {
        Atom::Literal(t) => (t.iter().collect::<String>().parse::<f64>().unwrap(), [0.; 3]),
        Atom::Named(Source::Unit, i) => entry_value(&cat.units[*i]),
        Atom::Named(Source::Constant, i) => entry_value(&cat.constants[*i]),
        Atom::Named(Source::Number, i) => entry_value(&cat.numbers[*i]),
        Atom::Scaled(t, i) => {
            let q = t.iter().collect::<String>().parse::<f64>().unwrap();
            let (v, u) = entry_value(&cat.units[*i]);
            (q * v, u)
        }
    }
}

fn dimensionless(u: &[f64; 3]) -> bool {
    u.iter().all(|x| x.abs() < 1e-10)
}

fn name_at(nodes: &[Instruction], i: usize) -> String {
    match &nodes[i].operator {
        Operator::Func(n) => n.iter().collect(),
        _ => String::new(),
    }
}

/// Evaluates a line on f64 values by running its program.
fn eval(line: &str) -> Result<(f64, [f64; 3]), Failure> {
    let cat = Catalogs::new();
    let nodes = parse(line, &cat).map_err(Failure::Parse)?;
    let program = Instruction::program(&nodes, &cat);
    let mut stack: Vec<(f64, [f64; 3])> = Vec::new();
    for step in &program {
        let c = check(*step, &cat);
        match *step {
            Step::Value(i) => match &nodes[i].operator {
                Operator::Number(a) => stack.push(atom_value(a, &cat)),
                _ => panic!("value step on a non-number"),
            },
            Step::Neg => {
                let (q, u) = stack.pop().unwrap();
                stack.push((-q, u));
            }
            Step::Call(_, f) => {
                let (q, u) = stack.pop().unwrap();
                if c == Check::DimensionlessArgument && !dimensionless(&u) {
                    return Err(Failure::DimensionMismatch);
                }
                let func = &cat.functions[f];
                let k = func.scale_num as f64 / func.scale_den as f64;
                let r = match func.name {
                    "sqrt" => q.sqrt(),
                    "cbrt" => q.cbrt(),
                    "sin" => q.sin(),
                    "cos" => q.cos(),
                    _ => panic!("function not used in these tests"),
                };
                stack.push((r, [u[0] * k, u[1] * k, u[2] * k]));
            }
            Step::Incomplete => return Err(Failure::Incomplete),
            Step::UnknownName(i) => return Err(Failure::UnknownName(name_at(&nodes, i))),
            Step::UnsupportedFunction(i) => {
                return Err(Failure::UnsupportedFunction(name_at(&nodes, i)))
            }
            op => {
                let (bq, bu) = stack.pop().unwrap();
                let (aq, au) = stack.pop().unwrap();
                let diff = [au[0] - bu[0], au[1] - bu[1], au[2] - bu[2]];
                if c == Check::SameUnits && !dimensionless(&diff) {
                    return Err(Failure::DimensionMismatch);
                }
                if c == Check::DimensionlessExponent && !dimensionless(&bu) {
                    return Err(Failure::DimensionMismatch);
                }
                stack.push(match op {
                    Step::Mul => (aq * bq, [au[0] + bu[0], au[1] + bu[1], au[2] + bu[2]]),
                    Step::Div => (aq / bq, diff),
                    Step::Add => (aq + bq, au),
                    Step::Sub => (aq - bq, au),
                    _ => (aq.powf(bq), [au[0] * bq, au[1] * bq, au[2] * bq]),
                });
            }
        }
    }
    Ok(stack.pop().unwrap())
}

fn close(a: f64, b: f64) -> bool {
    (a - b).abs() <= 1e-9 * b.abs().max(1.0)
}

fn assert_value(line: &str, q: f64, u: [f64; 3]) {
    let (rq, ru) = eval(line).unwrap();
    assert!(close(rq, q), "{}: {} != {}", line, rq, q);
    for k in 0..3 {
        assert!((ru[k] - u[k]).abs() < 1e-10, "{}: unit {:?} != {:?}", line, ru, u);
    }
}

#[test]
fn precedence_mul_before_add() {
    assert_value("1+2*3", 7., [0.; 3]);
}

#[test]
fn power_is_right_associative() {
    assert_value("2^3^2", 512., [0.; 3]);
    assert_value("(2^3)^2", 64., [0.; 3]);
}

#[test]
fn minus_binds_looser_than_power() {
    assert_value("-2^2", -4., [0.; 3]);
    assert_value("(-2)^2", 4., [0.; 3]);
}

#[test]
fn division_is_left_associative() {
    assert_value("8/2/2", 2., [0.; 3]);
    assert_value("8-2-2", 4., [0.; 3]);
}

#[test]
fn juxtaposition_multiplies() {
    let pi = std::f64::consts::PI;
    assert_value("2 pi", 2. * pi, [0.; 3]);
    assert_value("2*pi", 2. * pi, [0.; 3]);
    assert_value("3cm", 3., [1., 0., 0.]);
    assert_value("3*cm", 3., [1., 0., 0.]);
    assert_value("2(3+1)", 8., [0.; 3]);
}

#[test]
fn juxtaposition_gives_the_same_program() {
    let cat = Catalogs::new();
    let a = Instruction::program(&parse("2 pi", &cat).unwrap(), &cat);
    let b = Instruction::program(&parse("2*pi", &cat).unwrap(), &cat);
    assert_eq!(a, b);
}

#[test]
fn sum_of_length_and_time_fails() {
    assert_eq!(eval("1cm + 1s"), Err(Failure::DimensionMismatch));
}

#[test]
fn exponent_with_unit_fails() {
    assert_eq!(eval("2^cm"), Err(Failure::DimensionMismatch));
}

#[test]
fn sine_of_length_fails() {
    assert_eq!(eval("sin(1cm)"), Err(Failure::DimensionMismatch));
}

#[test]
fn literal_round_trip() {
    let cat = Catalogs::new();
    let a = Atom::parse(&chars("1.6e-19"), &cat).unwrap();
    match a {
        Atom::Literal(t) => {
            let q = t.iter().collect::<String>().parse::<f64>().unwrap();
            assert_eq!(q, 1.6e-19);
        }
        other => panic!("not a literal: {:?}", other),
    }
    assert_value("1.6e-19", 1.6e-19, [0.; 3]);
}

#[test]
fn sum_then_product() {
    assert_value("3*4+5", 17., [0.; 3]);
}

#[test]
fn product_of_lengths() {
    assert_value("3cm * 4cm", 12., [2., 0., 0.]);
}

#[test]
fn rest_energy_of_electron() {
    let q = 9.1093897e-28 * 2.99792458e10f64.powf(2.);
    assert_value("electron_mass * c^2", q, [2., 1., -2.]);
}

#[test]
fn square_root_halves_the_unit() {
    assert_value("sqrt(4cm^2)", 2., [1., 0., 0.]);
}

#[test]
fn sine_of_half_pi() {
    assert_value("sin(pi/2)", 1., [0.; 3]);
}

#[test]
fn whitespace_does_not_change_the_value() {
    assert_eq!(eval("3 * 4 + 5"), eval("3*4+5"));
    assert_eq!(eval(" sqrt ( 4cm^2 ) "), eval("sqrt(4cm^2)"));
}

#[test]
fn empty_slot_is_incomplete() {
    assert_eq!(eval("3*"), Err(Failure::Incomplete));
    assert_eq!(eval(""), Err(Failure::Incomplete));
    assert_eq!(eval("()"), Err(Failure::Incomplete));
}

#[test]
fn unknown_name_is_reported() {
    assert_eq!(eval("foo"), Err(Failure::UnknownName("foo".to_string())));
    assert_eq!(eval("3 + bar"), Err(Failure::UnknownName("bar".to_string())));
}

#[test]
fn unknown_function_is_reported() {
    assert_eq!(eval("foo(2)"), Err(Failure::UnsupportedFunction("foo".to_string())));
}

#[test]
fn parse_errors() {
    let cat = Catalogs::new();
    assert_eq!(parse("2 $ 3", &cat).err(), Some(ParseError::UnrecognizedChar('$')));
    assert_eq!(parse("(2))", &cat).err(), Some(ParseError::UnbalancedParens));
    assert_eq!(parse("2)", &cat).err(), Some(ParseError::UnbalancedParens));
    assert_eq!(parse("1, 2", &cat).err(), Some(ParseError::BadComma));
}

#[test]
fn newline_ends_the_line() {
    assert_value("2+3\n$", 5., [0.; 3]);
}

#[test]
fn classification_of_words() {
    let cat = Catalogs::new();
    assert!(matches!(Atom::parse(&chars("42"), &cat), Ok(Atom::Literal(_))));
    assert!(matches!(Atom::parse(&chars("19"), &cat), Ok(Atom::Literal(_))));
    assert!(matches!(Atom::parse(&chars("cm"), &cat), Ok(Atom::Named(Source::Unit, 0))));
    assert!(matches!(Atom::parse(&chars("c"), &cat), Ok(Atom::Named(Source::Constant, 6))));
    assert!(matches!(Atom::parse(&chars("e"), &cat), Ok(Atom::Named(Source::Number, 1))));
    match Atom::parse(&chars("1.6e-19esu"), &cat) {
        Ok(Atom::Scaled(t, 4)) => assert_eq!(t, chars("1.6e-19")),
        other => panic!("{:?}", other),
    }
    match Atom::parse(&chars("2e"), &cat) {
        Err(()) => {}
        other => panic!("{:?}", other),
    }
    assert!(Atom::parse(&chars(""), &cat).is_err());
    assert!(Atom::parse(&chars("1.2.3"), &cat).is_err());
    assert!(Atom::parse(&chars("3xyz"), &cat).is_err());
}

#[test]
fn numeric_prefix_and_literals() {
    assert_eq!(first_non_number(&chars("12cm")), Some(2));
    assert_eq!(first_non_number(&chars("3e5")), None);
    assert_eq!(first_non_number(&chars("3erg")), Some(1));
    assert_eq!(first_non_number(&chars("pi")), Some(0));
    assert!(is_literal_exec(&chars("1.")));
    assert!(is_literal_exec(&chars("1.5E-3")));
    assert!(!is_literal_exec(&chars("1_000")));
    assert!(!is_literal_exec(&chars("1e")));
}

#[test]
fn catalog_lookup_takes_the_first_hit() {
    let cat = Catalogs::new();
    assert_eq!(find(&cat.units, &chars("kyr")), Some(22));
    assert_eq!(find(&cat.units, &chars("pi")), None);
    assert_eq!(find(&cat.numbers, &chars("pi")), Some(0));
}

#[test]
fn dimension_checks_of_steps() {
    let cat = Catalogs::new();
    assert_eq!(check(Step::Add, &cat), Check::SameUnits);
    assert_eq!(check(Step::Sub, &cat), Check::SameUnits);
    assert_eq!(check(Step::Expon, &cat), Check::DimensionlessExponent);
    assert_eq!(check(Step::Mul, &cat), Check::Free);
    assert_eq!(check(Step::Call(0, 0), &cat), Check::Free);
    assert_eq!(check(Step::Call(0, 2), &cat), Check::DimensionlessArgument);
}

#[test]
fn program_order_follows_precedence() {
    let cat = Catalogs::new();
    let nodes = parse("1+2*3", &cat).unwrap();
    let p = Instruction::program(&nodes, &cat);
    assert_eq!(p.len(), 5);
    assert!(matches!(p[0], Step::Value(_)));
    assert!(matches!(p[1], Step::Value(_)));
    assert!(matches!(p[2], Step::Value(_)));
    assert_eq!(p[3], Step::Mul);
    assert_eq!(p[4], Step::Add);
}

#[test]
fn labels_rank_operators() {
    assert_eq!(Operator::Head.get_label(), usize::MAX);
    assert_eq!(Operator::Parentheses.get_label(), 5);
    assert_eq!(Operator::Neg.get_label(), 4);
    assert_eq!(Operator::Expon.get_label(), 3);
    assert_eq!(Operator::Div.get_label(), 2);
    assert_eq!(Operator::Sub.get_label(), 1);
    assert_eq!(Operator::Working.get_label(), 0);
}

#[test]
fn head_is_a_lone_root() {
    let h = Instruction::head();
    assert!(matches!(h.operator, Operator::Head));
    assert!(h.children.is_none());
}

fn node(operator: Operator, parent: usize, children: Option<(usize, usize)>) -> Instruction {
    Instruction { operator, parent, children }
}

#[test]
fn first_working_child_creates_slots() {
    let mut nodes = vec![Instruction::head()];
    let mut path = vec![0usize];
    assert!(Instruction::get_first_working_child(&mut nodes, &mut path));
    assert_eq!(path, vec![0, 1]);
    assert_eq!(nodes.len(), 3);
    assert_eq!(nodes[0].children, Some((1, 2)));
    assert!(matches!(nodes[1].operator, Operator::Working));
    assert_eq!(nodes[2].parent, 0);
}

#[test]
fn insert_climbs_past_tighter_operators() {
    // 3 * 4 with the cursor on 4; a `+` takes the whole product as its left operand.
    let mut nodes = vec![
        node(Operator::Head, 0, Some((1, 2))),
        node(Operator::Mul, 0, Some((3, 4))),
        node(Operator::Working, 0, None),
        node(Operator::Number(Atom::Literal(vec!['3'])), 1, None),
        node(Operator::Number(Atom::Literal(vec!['4'])), 1, None),
    ];
    let mut path = vec![0usize, 1, 4];
    let r = Instruction::insert_in_parent(&mut nodes, &mut path, Operator::Add);
    assert_eq!(r, 5);
    assert_eq!(path, vec![0, 5]);
    assert_eq!(nodes[0].children, Some((5, 2)));
    assert_eq!(nodes[5].children, Some((1, 6)));
    assert_eq!(nodes[1].parent, 5);
    assert!(matches!(nodes[6].operator, Operator::Working));
}

#[test]
fn insert_nests_power_to_the_right() {
    // 2 ^ 3 with the cursor on 3; another `^` takes only the 3.
    let mut nodes = vec![
        node(Operator::Head, 0, Some((1, 2))),
        node(Operator::Expon, 0, Some((3, 4))),
        node(Operator::Working, 0, None),
        node(Operator::Number(Atom::Literal(vec!['2'])), 1, None),
        node(Operator::Number(Atom::Literal(vec!['3'])), 1, None),
    ];
    let mut path = vec![0usize, 1, 4];
    let r = Instruction::insert_in_parent(&mut nodes, &mut path, Operator::Expon);
    assert_eq!(path, vec![0, 1, r]);
    assert_eq!(nodes[1].children, Some((3, r)));
    assert_eq!(nodes[r].children, Some((4, r + 1)));
}

#[test]
fn close_parentheses_finds_the_open_group() {
    let mut nodes = vec![Instruction::head()];
    let mut path = vec![0usize];
    Instruction::get_first_working_child(&mut nodes, &mut path);
    nodes[1].operator = Operator::Parentheses;
    Instruction::get_first_working_child(&mut nodes, &mut path);
    assert_eq!(path, vec![0, 1, 3]);
    assert!(Instruction::close_parentheses(&nodes, &mut path));
    assert_eq!(path, vec![0, 1]);
    assert!(!Instruction::close_parentheses(&nodes, &mut path));
    assert_eq!(path, vec![0, 1]);
}

#[test]
fn next_child_moves_along_function_arguments() {
    let mut nodes = vec![
        node(Operator::Head, 0, Some((1, 2))),
        node(Operator::Func(vec!['f']), 0, Some((3, 4))),
        node(Operator::Working, 0, None),
        node(Operator::Working, 1, None),
        node(Operator::Working, 1, None),
    ];
    let mut path = vec![0usize, 1, 3];
    assert!(Instruction::get_next_child(&nodes, &mut path));
    assert_eq!(path, vec![0, 1, 4]);
    assert!(!Instruction::get_next_child(&nodes, &mut path));
    assert_eq!(path, vec![0, 1, 4]);
}

#[test]
fn mixed_word_binds_power_to_the_unit() {
    assert_value("4cm^2", 4., [2., 0., 0.]);
    assert_value("3cm * 4", 12., [1., 0., 0.]);
}

#[test]
fn space_before_an_operator_is_benign() {
    let cat = Catalogs::new();
    let a = Instruction::program(&parse("2+ 3", &cat).unwrap(), &cat);
    let b = Instruction::program(&parse("2+3", &cat).unwrap(), &cat);
    assert_eq!(a, b);
}

#[test]
fn scientific_minus_stays_in_the_word() {
    assert_value("2e-3", 2e-3, [0.; 3]);
    assert_eq!(eval("2e - 3"), Err(Failure::UnknownName("2e".to_string())));
    assert_value("2 e - 3", std::f64::consts::E * 2. - 3., [0.; 3]);
}

#[test]
fn parent_links_follow_insertion() {
    let cat = Catalogs::new();
    let nodes = parse("1-2", &cat).unwrap();
    let (sub, _) = nodes[0].children.unwrap();
    assert!(matches!(nodes[sub].operator, Operator::Sub));
    assert_eq!(nodes[sub].get_parent(), 0);
    let (a, b) = nodes[sub].children.unwrap();
    assert_eq!(nodes[a].get_parent(), sub);
    assert_eq!(nodes[b].get_parent(), sub);
}

#[test]
fn closing_parenthesis_may_stop_at_a_function() {
    let cat = Catalogs::new();
    assert!(parse("sin(2))", &cat).is_ok());
    assert_value("sin(0))", 0., [0.; 3]);
    assert_eq!(parse("sin(2)))", &cat).err(), Some(ParseError::UnbalancedParens));
}

#[test]
fn next_child_moves_to_any_following_slot() {
    let mut nodes = vec![
        node(Operator::Head, 0, Some((1, 2))),
        node(Operator::Mul, 0, Some((3, 4))),
        node(Operator::Working, 0, None),
        node(Operator::Number(Atom::Literal(vec!['2'])), 1, None),
        node(Operator::Working, 1, None),
    ];
    let mut path = vec![0usize, 1, 3];
    assert!(Instruction::get_next_child(&nodes, &mut path));
    assert_eq!(path, vec![0, 1, 4]);
    assert!(!Instruction::get_next_child(&nodes, &mut path));
    nodes[1].operator = Operator::Div;
    assert_eq!(path, vec![0, 1, 4]);
}

#[test]
fn space_after_a_word_is_benign() {
    assert_eq!(eval("3 *4"), eval("3*4"));
    assert_eq!(eval("(3 )"), eval("(3)"));
    assert_eq!(eval("2 pi "), eval("2 pi"));
}

#[test]
fn cgs_units_of_catalog_entries() {
    assert_value("dyn", 1., [1., 1., -1.]);
    assert_value("esu", 1., [1.5, -0.5, -1.]);
    assert_value("1.6e-19esu", 1.6e-19, [1.5, -0.5, -1.]);
    assert_value("electron_charge", 4.8032068e-10, [1.5, -0.5, -1.]);
    assert_value("lsun", 3.839e33, [2., 1., -2.]);
    assert_value("2 msun", 2. * 1.989e33, [0., 1., 0.]);
    assert_eq!(eval("2msun"), Err(Failure::UnknownName("2msun".to_string())));
}

fn unit_string(cm: &str, g: &str, s: &str) -> String {
    cgs_calc::unit::format_unit(&chars(cm), &chars(g), &chars(s)).iter().collect()
}

#[test]
fn unit_text_joins_its_factors() {
    assert_eq!(unit_string("2", "0", "0"), "cm^2");
    assert_eq!(unit_string("2", "1", "-2"), "cm^2 g s^-2");
    assert_eq!(unit_string("0", "0", "0"), "");
    assert_eq!(unit_string("0", "1/2", "1"), "g^1/2 s");
    assert_eq!(unit_string("1", "0", "-1"), "cm s^-1");
}
