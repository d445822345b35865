use yql_core::array::{Array, DataType, Scalar};
use yql_core::error::{Error, EvalError};
use yql_core::expr::{BinaryOperator, UnaryOperator};
use yql_core::physical::{AggregateFunction, PhysicalExpr};
use yql_core::schema::{DataSet, Field, Schema};

fn dataset(a: Vec<Scalar>, b: Vec<Scalar>) -> DataSet {
    let schema = Schema::try_new(vec![
        Field::new("a", DataType::Int64),
        Field::new("b", DataType::Int32),
    ])
    .unwrap();
    DataSet::try_new(
        schema,
        vec![
            Array::materialize(DataType::Int64, &a),
            Array::materialize(DataType::Int32, &b),
        ],
    )
    .unwrap()
}

fn column(index: usize) -> PhysicalExpr {
    PhysicalExpr::Column { index }
}

fn literal(value: i64) -> PhysicalExpr {
    PhysicalExpr::Literal {
        value: Scalar::Int64(value),
    }
}

fn binary(op: BinaryOperator, lhs: PhysicalExpr, rhs: PhysicalExpr) -> PhysicalExpr {
    PhysicalExpr::Binary {
        op,
        lhs: Box::new(lhs),
        rhs: Box::new(rhs),
    }
}

fn aggregate(function: AggregateFunction, arg: PhysicalExpr) -> PhysicalExpr {
    PhysicalExpr::Aggregate {
        function,
        arg: Box::new(arg),
        state: Scalar::Null,
    }
}

fn cells(array: &Array) -> Vec<Scalar> {
    (0..array.len()).map(|i| array.scalar_value(i)).collect()
}

fn sample() -> DataSet {
    dataset(
        vec![Scalar::Int64(7), Scalar::Null, Scalar::Int64(-3)],
        vec![Scalar::Int32(2), Scalar::Int32(5), Scalar::Int32(0)],
    )
}

#[test]
fn arithmetic_widens_integers_and_passes_nulls() {
    let mut sum = binary(BinaryOperator::Plus, column(0), column(1));
    let array = sum.eval(&sample()).unwrap();
    assert_eq!(array.data_type(), DataType::Int64);
    assert_eq!(
        cells(&array),
        vec![Scalar::Int64(9), Scalar::Null, Scalar::Int64(-3)]
    );
    let mut product = binary(
        BinaryOperator::Multiply,
        binary(BinaryOperator::Minus, column(0), literal(1)),
        literal(3),
    );
    assert_eq!(
        cells(&product.eval(&sample()).unwrap()),
        vec![Scalar::Int64(18), Scalar::Null, Scalar::Int64(-12)]
    );
}

#[test]
fn division_truncates_towards_zero() {
    let data = dataset(
        vec![Scalar::Int64(7), Scalar::Int64(-7), Scalar::Int64(7)],
        vec![Scalar::Int32(2), Scalar::Int32(2), Scalar::Int32(-2)],
    );
    let mut quotient = binary(BinaryOperator::Divide, column(0), column(1));
    assert_eq!(
        cells(&quotient.eval(&data).unwrap()),
        vec![Scalar::Int64(3), Scalar::Int64(-3), Scalar::Int64(-3)]
    );
}

#[test]
fn division_by_zero_is_an_error() {
    let mut quotient = binary(BinaryOperator::Divide, column(0), column(1));
    assert_eq!(
        quotient.eval(&sample()).err(),
        Some(EvalError::DivideByZero)
    );
}

#[test]
fn overflow_is_an_error() {
    let data = dataset(vec![Scalar::Int64(i64::MAX)], vec![Scalar::Int32(1)]);
    let mut sum = binary(BinaryOperator::Plus, column(0), column(1));
    assert_eq!(sum.eval(&data).err(), Some(EvalError::Overflow));
    let least = dataset(vec![Scalar::Int64(i64::MIN)], vec![Scalar::Int32(-1)]);
    let mut quotient = binary(BinaryOperator::Divide, column(0), column(1));
    assert_eq!(quotient.eval(&least).err(), Some(EvalError::Overflow));
    let mut negated = PhysicalExpr::Unary {
        op: UnaryOperator::Neg,
        expr: Box::new(column(0)),
    };
    assert_eq!(negated.eval(&least).err(), Some(EvalError::Overflow));
}

#[test]
fn type_mismatch_and_missing_column_are_errors() {
    let mut bad = binary(
        BinaryOperator::Plus,
        column(0),
        PhysicalExpr::Literal {
            value: Scalar::String("x".to_string()),
        },
    );
    assert_eq!(bad.eval(&sample()).err(), Some(EvalError::TypeMismatch));
    let mut not = PhysicalExpr::Unary {
        op: UnaryOperator::Not,
        expr: Box::new(column(0)),
    };
    assert_eq!(not.eval(&sample()).err(), Some(EvalError::TypeMismatch));
    let mut missing = column(9);
    assert_eq!(missing.eval(&sample()).err(), Some(EvalError::NoSuchColumn));
    assert_eq!(Error::Eval(EvalError::NoSuchColumn), Error::Eval(EvalError::NoSuchColumn));
}

#[test]
fn comparisons_and_logic() {
    let mut greater = binary(BinaryOperator::Gt, column(0), column(1));
    let array = greater.eval(&sample()).unwrap();
    assert_eq!(array.data_type(), DataType::Boolean);
    assert_eq!(
        cells(&array),
        vec![Scalar::Boolean(true), Scalar::Null, Scalar::Boolean(false)]
    );
    let mut both = binary(
        BinaryOperator::And,
        binary(BinaryOperator::LtEq, column(1), literal(2)),
        binary(BinaryOperator::NotEq, column(1), literal(0)),
    );
    assert_eq!(
        cells(&both.eval(&sample()).unwrap()),
        vec![
            Scalar::Boolean(true),
            Scalar::Boolean(false),
            Scalar::Boolean(false)
        ]
    );
    let mut same = binary(
        BinaryOperator::Eq,
        PhysicalExpr::Literal {
            value: Scalar::String("a".to_string()),
        },
        PhysicalExpr::Literal {
            value: Scalar::String("a".to_string()),
        },
    );
    assert_eq!(
        cells(&same.eval(&sample()).unwrap()),
        vec![Scalar::Boolean(true); 3]
    );
}

#[test]
fn aggregates_give_running_results_and_skip_nulls() {
    let data = sample();
    let mut sum = aggregate(AggregateFunction::Sum, column(0));
    assert_eq!(
        cells(&sum.eval(&data).unwrap()),
        vec![Scalar::Int64(7), Scalar::Int64(7), Scalar::Int64(4)]
    );
    // the state goes on into the next batch
    assert_eq!(
        cells(&sum.eval(&data).unwrap()),
        vec![Scalar::Int64(11), Scalar::Int64(11), Scalar::Int64(8)]
    );
    let mut count = aggregate(AggregateFunction::Count, column(0));
    assert_eq!(
        cells(&count.eval(&data).unwrap()),
        vec![Scalar::Int64(1), Scalar::Int64(1), Scalar::Int64(2)]
    );
    let mut least = aggregate(AggregateFunction::Min, column(1));
    assert_eq!(
        cells(&least.eval(&data).unwrap()),
        vec![Scalar::Int64(2), Scalar::Int64(2), Scalar::Int64(0)]
    );
    let mut most = aggregate(AggregateFunction::Max, column(1));
    assert_eq!(
        cells(&most.eval(&data).unwrap()),
        vec![Scalar::Int64(2), Scalar::Int64(5), Scalar::Int64(5)]
    );
}

#[test]
fn aggregate_over_no_value_is_null() {
    let data = dataset(vec![Scalar::Null], vec![Scalar::Null]);
    let mut sum = aggregate(AggregateFunction::Sum, column(0));
    assert_eq!(cells(&sum.eval(&data).unwrap()), vec![Scalar::Null]);
}

#[test]
fn state_is_saved_and_loaded() {
    let data = sample();
    let mut expr = binary(
        BinaryOperator::Plus,
        aggregate(AggregateFunction::Sum, column(0)),
        aggregate(AggregateFunction::Max, column(1)),
    );
    expr.eval(&data).unwrap();
    let saved = expr.save_state();

    let mut restored = binary(
        BinaryOperator::Plus,
        aggregate(AggregateFunction::Sum, column(0)),
        aggregate(AggregateFunction::Max, column(1)),
    );
    assert_eq!(restored.load_state(&saved), Ok(()));
    assert_eq!(restored, expr);
    assert_eq!(
        cells(&restored.eval(&data).unwrap()),
        cells(&expr.eval(&data).unwrap())
    );
}

#[test]
fn state_of_another_shape_is_refused() {
    let mut one = aggregate(AggregateFunction::Sum, column(0));
    one.eval(&sample()).unwrap();
    let saved = one.save_state();

    let mut two = binary(
        BinaryOperator::Plus,
        aggregate(AggregateFunction::Sum, column(0)),
        aggregate(AggregateFunction::Max, column(1)),
    );
    assert_eq!(two.load_state(&saved), Err(Error::State));
    let mut none = column(0);
    assert_eq!(none.load_state(&saved), Err(Error::State));
    // cut short, or with something behind it
    let mut fresh = aggregate(AggregateFunction::Sum, column(0));
    assert_eq!(fresh.load_state(&saved[..saved.len() - 1]), Err(Error::State));
    let mut longer = saved.clone();
    longer.push(0);
    assert_eq!(fresh.load_state(&longer), Err(Error::State));
    assert_eq!(fresh, aggregate(AggregateFunction::Sum, column(0)));
    assert_eq!(fresh.load_state(&saved), Ok(()));
    assert_eq!(fresh, one);
}

#[test]
fn duplicate_copies_the_state() {
    let mut sum = aggregate(AggregateFunction::Sum, column(0));
    sum.eval(&sample()).unwrap();
    let copy = sum.duplicate();
    assert_eq!(copy, sum);
}
