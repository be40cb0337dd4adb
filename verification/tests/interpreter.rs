use miniscript::arithmetic::{Answer, Request};
use miniscript::interpreter::Interpreter;
use miniscript::operators::Operator;
use miniscript::stop::{Stop, Stopped};
use miniscript::types::{Num, Type};

fn chars(text: &str) -> Vec<char> {
    text.chars().collect()
}

fn text(chars: &[char]) -> String {
    chars.iter().collect()
}

fn number(value: f64) -> Type {
    Type::Number(Num::Finite(value.to_bits()))
}

/// The host's side of the exchange: binary64 arithmetic.
fn perform(request: &Request) -> Answer {
    match request {
        Request::Parse(digits) => Answer::Number(text(digits).parse::<f64>().unwrap().to_bits()),
        Request::Compute(operator, a, b) => {
            let (a, b) = (f64::from_bits(*a), f64::from_bits(*b));
            let result = match operator {
                Operator::Add => a + b,
                Operator::Sub => a - b,
                Operator::Mul => a * b,
                Operator::Div => a / b,
            };
            Answer::Number(result.to_bits())
        }
        Request::Render(a) => Answer::Text(chars(&f64::from_bits(*a).to_string())),
    }
}

/// Evaluates from scratch until no answer is owed, and hands back the result
/// with the interpreter as the last attempt left it.
fn run<T>(
    source: &str,
    bindings: &[(&str, Type)],
    evaluate: impl Fn(&mut Interpreter) -> Result<T, Stopped>,
) -> (Result<T, Stopped>, Interpreter) {
    let mut answers: Vec<Answer> = Vec::new();
    loop {
        let mut interpreter = Interpreter::with_answers(chars(source), answers.clone());
        for (name, value) in bindings {
            interpreter.define(chars(name), value.clone());
        }
        match evaluate(&mut interpreter) {
            Err(Stopped { reason: Stop::Pending(request), .. }) => answers.push(perform(&request)),
            result => return (result, interpreter),
        }
    }
}

fn expression(source: &str) -> Result<Type, Stopped> {
    run(source, &[], |interpreter| interpreter.expression()).0
}

fn program(source: &str) -> (Result<(), Stopped>, Interpreter) {
    run(source, &[], |interpreter| interpreter.program())
}

fn lookup(interpreter: &Interpreter, name: &str) -> Option<Type> {
    interpreter.scope().value(&chars(name)).cloned()
}

fn finite(value: &Type) -> f64 {
    match value {
        Type::Number(Num::Finite(bits)) => f64::from_bits(*bits),
        actual => panic!("Expected a number found {:?}", actual),
    }
}

#[test]
fn term_string() {
    let code = "\"jake\";";
    let result = run(code, &[], |interpreter| interpreter.term()).0.unwrap();
    match result {
        Type::TextString(string) => {
            assert_eq!(text(&string), "jake");
        }
        _ => panic!("Expected string!"),
    }
}

#[test]
fn term_number() {
    let code = "12;";
    let result = run(code, &[], |interpreter| interpreter.term()).0.unwrap();
    match result {
        Type::Number(Num::Finite(number)) => {
            assert_eq!(f64::from_bits(number), 12f64);
        }
        _ => panic!("Expected string!"),
    }
}

#[test]
fn term_variable() {
    let code = "myVar;";
    let result = run(code, &[("myVar", number(10f64))], |interpreter| interpreter.term())
        .0
        .unwrap();
    match result {
        Type::Number(Num::Finite(number)) => {
            assert_eq!(f64::from_bits(number), 10f64);
        }
        _ => panic!("Expected string!"),
    }
}

#[test]
fn expression_add_two_numbers() {
    let code = "10 + 10;";
    let result = expression(code).unwrap();
    match result {
        Type::Number(Num::Finite(number)) => {
            assert_eq!(f64::from_bits(number), 20f64);
        }
        actual => panic!("Expected string found {:?}!", actual),
    }
}

#[test]
fn expression_add_two_strings() {
    let code = "\"10\" + \"10\";";
    let result = expression(code).unwrap();
    match result {
        Type::TextString(string) => {
            assert_eq!(text(&string), "1010");
        }
        actual => panic!("Expected string found {:?}!", actual),
    }
}

#[test]
fn expression_add_number_to_string() {
    let code = "\"10\" + 10;";
    let result = expression(code).unwrap();
    match result {
        Type::TextString(string) => {
            assert_eq!(text(&string), "1010");
        }
        actual => panic!("Expected string found {:?}!", actual),
    }
}

#[test]
fn expression_add_string_to_number() {
    let code = "10 + \"10\";";
    let result = expression(code).unwrap();
    match result {
        Type::TextString(string) => {
            assert_eq!(text(&string), "1010");
        }
        actual => panic!("Expected string found {:?}!", actual),
    }
}

#[test]
fn expression_add_number_to_undefined() {
    let code = "undefined + 10;";
    let result = expression(code).unwrap();
    match result {
        Type::Number(num) => {
            assert_eq!(num, Num::NaN);
        }
        actual => panic!("Expected NaN found {:?}!", actual),
    }
}

#[test]
fn expression_subtract_string_from_string() {
    let code = "\"jake\" - \"e\";";
    let result = expression(code).unwrap();
    match result {
        Type::Number(num) => {
            assert_eq!(num, Num::NaN);
        }
        actual => panic!("Expected NaN found {:?}!", actual),
    }
}

#[test]
fn expression_subtract_number_from_number() {
    let code = "20 - 17;";
    let result = expression(code).unwrap();
    match result {
        Type::Number(Num::Finite(num)) => {
            assert_eq!(f64::from_bits(num), 3f64);
        }
        actual => panic!("Expected 3 found {:?}!", actual),
    }
}

#[test]
fn expression_multiple_operators() {
    let code = "20 - 17 + 7;";
    let result = expression(code).unwrap();
    match result {
        Type::Number(Num::Finite(num)) => {
            assert_eq!(f64::from_bits(num), 10f64);
        }
        actual => panic!("Expected 3 found {:?}!", actual),
    }
}

#[test]
fn expression_multiply_two_numbers() {
    let code = "3 * 3;";
    let result = expression(code).unwrap();
    match result {
        Type::Number(Num::Finite(num)) => {
            assert_eq!(f64::from_bits(num), 9f64);
        }
        actual => panic!("Expected 3 found {:?}!", actual),
    }
}

#[test]
fn expression_multiply_two_numbers_add_one() {
    let code = "3 * 3 + 4;";
    let result = expression(code).unwrap();
    match result {
        Type::Number(Num::Finite(num)) => {
            assert_eq!(f64::from_bits(num), 13f64);
        }
        actual => panic!("Expected 3 found {:?}!", actual),
    }
}

#[test]
fn expression_add_number_to_multiplied_numbers() {
    let code = "4 + 3 * 3;";
    let result = expression(code).unwrap();
    match result {
        Type::Number(Num::Finite(num)) => {
            assert_eq!(f64::from_bits(num), 13f64);
        }
        actual => panic!("Expected 3 found {:?}!", actual),
    }
}

#[test]
fn expression_lots_of_operators() {
    let code = "10 + 9 + 6 - 8 * 10 / 2 + 9 - 4;";
    let result = expression(code).unwrap();
    match result {
        Type::Number(Num::Finite(num)) => {
            assert_eq!(f64::from_bits(num), -10f64);
        }
        actual => panic!("Expected 3 found {:?}!", actual),
    }
}

#[test]
fn expression_parentheses() {
    let code = "4 * (4 + 2);";
    let result = expression(code).unwrap();
    match result {
        Type::Number(Num::Finite(num)) => {
            assert_eq!(f64::from_bits(num), 24f64);
        }
        actual => panic!("Expected 3 found {:?}!", actual),
    }
}

#[test]
fn expression_lots_of_operators_with_parentheses() {
    let code = "10 + 9 + 6 - 8 * 10 / (2 + 9 - 4);";
    let result = expression(code).unwrap();
    match result {
        Type::Number(Num::Finite(num)) => {
            assert_eq!(f64::from_bits(num), 13.571428571428571f64);
        }
        actual => panic!("Expected 3 found {:?}!", actual),
    }
}

#[test]
fn assign_number() {
    let source = "var jake = 26;";
    let (result, interpreter) = run(source, &[], |interpreter| interpreter.assign());
    result.unwrap();
    let value = lookup(&interpreter, "jake");
    match value.unwrap() {
        Type::Number(Num::Finite(val)) => assert_eq!(f64::from_bits(val), 26f64),
        actual => panic!("Expected f64 found {:?}", actual),
    }
}

#[test]
fn assign_string() {
    let source = "var jake = \"jake\";";
    let (result, interpreter) = run(source, &[], |interpreter| interpreter.assign());
    result.unwrap();
    let value = lookup(&interpreter, "jake");
    match value.unwrap() {
        Type::TextString(val) => assert_eq!(text(&val), "jake"),
        actual => panic!("Expected string found {:?}", actual),
    }
}

#[test]
fn assign_string_no_keyword() {
    let source = "jake = \"jake\";";
    let (result, interpreter) = run(
        source,
        &[("jake", Type::TextString(chars("carrington")))],
        |interpreter| interpreter.assign(),
    );
    result.unwrap();
    let value = lookup(&interpreter, "jake");
    match value.unwrap() {
        Type::TextString(val) => assert_eq!(text(&val), "jake"),
        actual => panic!("Expected string found {:?}", actual),
    }
}

#[test]
fn program_test() {
    let source = "var a = 10;
        let b = 20;
        const c = a + b;";
    let (result, interpreter) = program(source);
    result.unwrap();
    match lookup(&interpreter, "c").unwrap() {
        Type::Number(Num::Finite(val)) => assert_eq!(f64::from_bits(val), 30f64),
        actual => panic!("Expected 30 found {:?}", actual),
    }
}

#[test]
fn program_test_with_expression() {
    let source = "var a = 10;
        let b = 20;
        const c = a + b;
        c;
        10 * 10;";
    let (result, interpreter) = program(source);
    result.unwrap();
    match lookup(&interpreter, "c").unwrap() {
        Type::Number(Num::Finite(val)) => assert_eq!(f64::from_bits(val), 30f64),
        actual => panic!("Expected 30 found {:?}", actual),
    }
}

#[test]
fn function_test() {
    let source = "function myFunction() {
            var a = 10;
            var b = 20;
            var c = a + b;
        }";
    let (result, interpreter) = run(source, &[], |interpreter| interpreter.function());
    result.unwrap();
    let function = interpreter.scope().function(&chars("myFunction")).unwrap();
    println!("{:?}", function);
    assert_eq!(
        text(&function.body),
        "\n            var a = 10;\n            var b = 20;\n            var c = a + b;\n        "
    );
    assert!(function.arguments.is_empty());
    assert_eq!(lookup(&interpreter, "myFunction"), Some(Type::Function(chars("myFunction"))));
    assert!(interpreter.finished());
}

#[test]
fn function_call() {
    let source = "
        var outerScope = 10;
        function myFunction() {
            outerScope = 30;
        }
        myFunction();";

    let (result, interpreter) = program(source);
    result.unwrap();
    println!("{:?}", interpreter.scope().function(&chars("myFunction")));
    println!("{:?}", lookup(&interpreter, "outerScope"));
    assert_eq!(interpreter.depth(), 1);
    assert!(interpreter.finished());
    assert_eq!(finite(&lookup(&interpreter, "outerScope").unwrap()), 10f64);
    assert_eq!(lookup(&interpreter, "myFunction"), Some(Type::Function(chars("myFunction"))));
}
