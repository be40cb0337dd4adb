use miniscript::arithmetic::{Answer, Arithmetic, Request};
use miniscript::operators::Operator;
use miniscript::stop::Stop;
use miniscript::types::{is_zero, Field, Function, Num, Type};

fn chars(text: &str) -> Vec<char> {
    text.chars().collect()
}

fn number(value: f64) -> Type {
    Type::Number(Num::Finite(value.to_bits()))
}

fn string(text: &str) -> Type {
    Type::TextString(chars(text))
}

fn silent() -> Arithmetic {
    Arithmetic::new(Vec::new())
}

fn answering(answers: Vec<Answer>) -> Arithmetic {
    Arithmetic::new(answers)
}

#[test]
fn sum_of_numbers_is_the_answer_of_the_unit() {
    let mut unit = answering(vec![Answer::Number(30f64.to_bits())]);
    let sum = number(10.0).add(number(20.0), &mut unit);
    assert_eq!(sum, Ok(number(30.0)));
    assert_eq!(unit.used(), 1);
}

#[test]
fn sum_of_numbers_asks_for_the_sum() {
    let mut unit = silent();
    let sum = number(10.0).add(number(20.0), &mut unit);
    assert_eq!(
        sum,
        Err(Stop::Pending(Request::Compute(Operator::Add, 10f64.to_bits(), 20f64.to_bits())))
    );
    assert_eq!(unit.used(), 0);
}

#[test]
fn difference_of_numbers_asks_for_the_difference() {
    let mut unit = silent();
    let difference = number(20.0).sub(number(17.0), &mut unit);
    assert_eq!(
        difference,
        Err(Stop::Pending(Request::Compute(Operator::Sub, 20f64.to_bits(), 17f64.to_bits())))
    );
    let mut unit = answering(vec![Answer::Number(3f64.to_bits())]);
    assert_eq!(number(20.0).sub(number(17.0), &mut unit), Ok(number(3.0)));
}

#[test]
fn an_answer_of_the_wrong_kind_is_no_answer() {
    let mut unit = answering(vec![Answer::Text(chars("30"))]);
    let sum = number(10.0).add(number(20.0), &mut unit);
    assert_eq!(
        sum,
        Err(Stop::Pending(Request::Compute(Operator::Add, 10f64.to_bits(), 20f64.to_bits())))
    );
    let mut unit = answering(vec![Answer::Number(1)]);
    let joined = number(10.0).add(string("x"), &mut unit);
    assert_eq!(joined, Err(Stop::Pending(Request::Render(10f64.to_bits()))));
}

#[test]
fn number_and_text_are_joined_in_order() {
    let mut unit = answering(vec![Answer::Text(chars("10"))]);
    assert_eq!(number(10.0).add(string("px"), &mut unit), Ok(string("10px")));
    let mut unit = answering(vec![Answer::Text(chars("10"))]);
    assert_eq!(string("px").add(number(10.0), &mut unit), Ok(string("px10")));
}

#[test]
fn number_and_text_are_joined_by_subtraction_too() {
    let mut unit = answering(vec![Answer::Text(chars("10"))]);
    assert_eq!(number(10.0).sub(string("px"), &mut unit), Ok(string("10px")));
    let mut unit = answering(vec![Answer::Text(chars("10"))]);
    assert_eq!(string("px").sub(number(10.0), &mut unit), Ok(string("px10")));
}

#[test]
fn the_sentinel_is_rendered_without_the_unit() {
    let mut unit = silent();
    assert_eq!(Type::Number(Num::NaN).add(string("!"), &mut unit), Ok(string("NaN!")));
    assert_eq!(string("!").add(Type::Number(Num::NaN), &mut unit), Ok(string("!NaN")));
    assert_eq!(Num::NaN.to_text(&mut unit), Ok(chars("NaN")));
    assert_eq!(unit.used(), 0);
}

#[test]
fn a_number_is_rendered_by_the_unit() {
    let mut unit = answering(vec![Answer::Text(chars("2.5"))]);
    assert_eq!(Num::Finite(2.5f64.to_bits()).to_text(&mut unit), Ok(chars("2.5")));
    let mut unit = silent();
    assert_eq!(
        Num::Finite(2.5f64.to_bits()).to_text(&mut unit),
        Err(Request::Render(2.5f64.to_bits()))
    );
}

#[test]
fn texts_are_joined_by_addition() {
    let mut unit = silent();
    assert_eq!(string("ab").add(string("cd"), &mut unit), Ok(string("abcd")));
    assert_eq!(string("cd").add(string("ab"), &mut unit), Ok(string("cdab")));
}

#[test]
fn joining_texts_may_be_grouped_either_way() {
    let mut unit = silent();
    let left = string("a").add(string("b"), &mut unit).unwrap().add(string("c"), &mut unit);
    let right = string("a").add(string("b").add(string("c"), &mut unit).unwrap(), &mut unit);
    assert_eq!(left, Ok(string("abc")));
    assert_eq!(left, right);
}

#[test]
fn text_minus_text_is_the_sentinel() {
    let mut unit = silent();
    assert_eq!(string("jake").sub(string("e"), &mut unit), Ok(Type::Number(Num::NaN)));
}

#[test]
fn undefined_with_a_number_is_the_sentinel() {
    let mut unit = silent();
    assert_eq!(Type::Undefined.add(number(10.0), &mut unit), Ok(Type::Number(Num::NaN)));
    assert_eq!(Type::Undefined.sub(number(10.0), &mut unit), Ok(Type::Number(Num::NaN)));
    assert_eq!(Type::Undefined.add(Type::Number(Num::NaN), &mut unit), Ok(Type::Number(Num::NaN)));
    assert_eq!(unit.used(), 0);
}

#[test]
fn undefined_does_not_multiply() {
    let mut unit = silent();
    assert_eq!(Type::Undefined.mul(number(10.0), &mut unit), Err(Stop::UnsupportedOperationError));
    assert_eq!(Type::Undefined.div(number(10.0), &mut unit), Err(Stop::UnsupportedOperationError));
}

#[test]
fn a_number_with_undefined_is_unsupported() {
    let mut unit = silent();
    assert_eq!(number(10.0).add(Type::Undefined, &mut unit), Err(Stop::UnsupportedOperationError));
    assert_eq!(number(10.0).sub(Type::Undefined, &mut unit), Err(Stop::UnsupportedOperationError));
}

#[test]
fn other_pairs_are_unsupported() {
    let mut unit = silent();
    let operators = [Operator::Add, Operator::Sub, Operator::Mul, Operator::Div];
    for operator in operators {
        assert_eq!(
            Type::Null.apply(operator, number(1.0), &mut unit),
            Err(Stop::UnsupportedOperationError)
        );
        assert_eq!(
            number(1.0).apply(operator, Type::Null, &mut unit),
            Err(Stop::UnsupportedOperationError)
        );
        assert_eq!(
            Type::Boolean(true).apply(operator, Type::Boolean(false), &mut unit),
            Err(Stop::UnsupportedOperationError)
        );
        assert_eq!(
            Type::Object(Vec::new()).apply(operator, number(1.0), &mut unit),
            Err(Stop::UnsupportedOperationError)
        );
        assert_eq!(
            Type::Function(chars("f")).apply(operator, string("x"), &mut unit),
            Err(Stop::UnsupportedOperationError)
        );
        assert_eq!(
            Type::Undefined.apply(operator, Type::Undefined, &mut unit),
            Err(Stop::UnsupportedOperationError)
        );
        assert_eq!(
            Type::Undefined.apply(operator, string("x"), &mut unit),
            Err(Stop::UnsupportedOperationError)
        );
    }
    assert_eq!(unit.used(), 0);
}

#[test]
fn texts_do_not_multiply() {
    let mut unit = silent();
    assert_eq!(string("a").mul(string("b"), &mut unit), Err(Stop::UnsupportedOperationError));
    assert_eq!(string("a").div(string("b"), &mut unit), Err(Stop::UnsupportedOperationError));
    assert_eq!(string("a").mul(number(2.0), &mut unit), Err(Stop::UnsupportedOperationError));
    assert_eq!(number(2.0).div(string("a"), &mut unit), Err(Stop::UnsupportedOperationError));
}

#[test]
fn product_and_quotient_are_the_answers_of_the_unit() {
    let mut unit = answering(vec![Answer::Number(6f64.to_bits()), Answer::Number(1.5f64.to_bits())]);
    assert_eq!(number(2.0).mul(number(3.0), &mut unit), Ok(number(6.0)));
    assert_eq!(number(3.0).div(number(2.0), &mut unit), Ok(number(1.5)));
    assert_eq!(unit.used(), 2);
    let mut unit = silent();
    assert_eq!(
        number(3.0).div(number(2.0), &mut unit),
        Err(Stop::Pending(Request::Compute(Operator::Div, 3f64.to_bits(), 2f64.to_bits())))
    );
    assert_eq!(
        number(3.0).mul(number(2.0), &mut unit),
        Err(Stop::Pending(Request::Compute(Operator::Mul, 3f64.to_bits(), 2f64.to_bits())))
    );
}

#[test]
fn division_by_zero_is_the_sentinel() {
    let mut unit = silent();
    assert_eq!(number(1.0).div(number(0.0), &mut unit), Ok(Type::Number(Num::NaN)));
    assert_eq!(number(1.0).div(number(-0.0), &mut unit), Ok(Type::Number(Num::NaN)));
    assert_eq!(number(0.0).div(number(0.0), &mut unit), Ok(Type::Number(Num::NaN)));
    assert_eq!(unit.used(), 0);
    assert!(is_zero(0f64.to_bits()));
    assert!(is_zero((-0f64).to_bits()));
    assert!(!is_zero(1f64.to_bits()));
    assert!(!is_zero(f64::MIN_POSITIVE.to_bits()));
}

#[test]
fn multiplication_by_zero_asks_the_unit() {
    let mut unit = answering(vec![Answer::Number(0f64.to_bits())]);
    assert_eq!(number(1.0).mul(number(0.0), &mut unit), Ok(number(0.0)));
    assert_eq!(unit.used(), 1);
}

#[test]
fn the_sentinel_propagates() {
    let mut unit = silent();
    let nan = Type::Number(Num::NaN);
    let operators = [Operator::Add, Operator::Sub, Operator::Mul, Operator::Div];
    for operator in operators {
        assert_eq!(nan.clone().apply(operator, number(1.0), &mut unit), Ok(nan.clone()));
        assert_eq!(number(1.0).apply(operator, nan.clone(), &mut unit), Ok(nan.clone()));
        assert_eq!(nan.clone().apply(operator, nan.clone(), &mut unit), Ok(nan.clone()));
        assert_eq!(Num::NaN.compute(operator, Num::Finite(5), &mut unit), Ok(Num::NaN));
    }
    assert_eq!(Num::NaN.add(Num::Finite(1), &mut unit), Ok(Num::NaN));
    assert_eq!(Num::Finite(1).sub(Num::NaN, &mut unit), Ok(Num::NaN));
    assert_eq!(unit.used(), 0);
}

#[test]
fn answers_are_used_in_order() {
    let mut unit = answering(vec![
        Answer::Number(1),
        Answer::Text(chars("two")),
        Answer::Number(3),
    ]);
    assert_eq!(unit.parse(&chars("7")), Ok(1));
    assert_eq!(unit.render(9), Ok(chars("two")));
    assert_eq!(unit.compute(Operator::Mul, 4, 5), Ok(3));
    assert_eq!(unit.used(), 3);
    assert_eq!(unit.parse(&chars("7")), Err(Request::Parse(chars("7"))));
    assert_eq!(unit.render(9), Err(Request::Render(9)));
    assert_eq!(unit.compute(Operator::Mul, 4, 5), Err(Request::Compute(Operator::Mul, 4, 5)));
    assert_eq!(unit.used(), 3);
}

#[test]
fn a_clone_is_equal_to_its_model() {
    let object = Type::Object(vec![
        Field { name: chars("a"), value: number(1.0) },
        Field {
            name: chars("b"),
            value: Type::Object(vec![Field { name: chars("c"), value: string("deep") }]),
        },
    ]);
    let values = vec![
        Type::Null,
        Type::Undefined,
        number(2.5),
        Type::Number(Num::NaN),
        Type::Boolean(true),
        string("text"),
        object,
        Type::Function(chars("f")),
    ];
    for value in values {
        assert_eq!(value.clone(), value);
    }
    let function = Function { arguments: Vec::new(), body: chars("var a = 1;") };
    assert_eq!(function.clone(), function);
}

#[test]
fn a_stop_is_fatal_unless_it_is_pending() {
    assert!(Stop::SyntaxError { expected: ';', found: None }.is_fatal());
    assert!(Stop::UndefinedVariableError { name: chars("x") }.is_fatal());
    assert!(Stop::UnsupportedOperationError.is_fatal());
    assert!(!Stop::Pending(Request::Render(0)).is_fatal());
}
