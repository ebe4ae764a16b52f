use docindex::combinator::Combinator;
use docindex::render::tuple_to_string;
use docindex::value::{Scalar, Value};

fn s(x: &str) -> Value {
    Value::Scalar(Scalar::Strand(x.to_string()))
}

fn arr(xs: &[&str]) -> Value {
    Value::Array(xs.iter().map(|x| Scalar::Strand(x.to_string())).collect())
}

fn all(source: Vec<(Value, bool)>) -> Vec<String> {
    let mut c = Combinator::new(source);
    let mut out = Vec::new();
    while let Some(t) = c.next() {
        out.push(tuple_to_string(&t));
    }
    out
}

#[test]
fn spreads_array_column() {
    let got = all(vec![(s("Tobie"), false), (arr(&["piano", "violin"]), false)]);
    assert_eq!(got, vec!["['Tobie', 'piano']", "['Tobie', 'violin']"]);
}

#[test]
fn cartesian_product_count_and_order() {
    let got = all(vec![(arr(&["a", "b"]), false), (arr(&["x", "y", "z"]), false)]);
    assert_eq!(got.len(), 6);
    assert_eq!(
        got,
        vec![
            "['a', 'x']",
            "['a', 'y']",
            "['a', 'z']",
            "['b', 'x']",
            "['b', 'y']",
            "['b', 'z']"
        ]
    );
}

#[test]
fn empty_array_gives_one_null() {
    let got = all(vec![(s("n"), false), (arr(&[]), false)]);
    assert_eq!(got, vec!["['n', NULL]"]);
}

#[test]
fn zero_columns_give_one_empty_tuple() {
    let got = all(vec![]);
    assert_eq!(got, vec!["[]"]);
}

#[test]
fn flattened_array_is_one_component() {
    let got = all(vec![(arr(&["a", "b"]), true)]);
    assert_eq!(got, vec!["['a', 'b']"]);
}

#[test]
fn exhausted_combinator_stays_exhausted() {
    let mut c = Combinator::new(vec![(s("a"), false)]);
    assert!(c.next().is_some());
    assert!(c.next().is_none());
    assert!(c.next().is_none());
}

#[test]
fn renders_scalars() {
    let t = vec![
        Value::Scalar(Scalar::Number(-42)),
        Value::Scalar(Scalar::Bool(true)),
        Value::Scalar(Scalar::Absent),
        Value::Scalar(Scalar::Number(i64::MIN)),
    ];
    assert_eq!(tuple_to_string(&t), "[-42, true, NONE, -9223372036854775808]");
    assert_eq!(tuple_to_string(&vec![s("Tobie")]), "'Tobie'");
}
