use yql_core::array::{Array, DataType, Scalar, TimeUnit};
use yql_core::checkpoint::CheckPointBarrier;
use yql_core::error::{Error, EvalError};
use yql_core::expr::BinaryOperator;
use yql_core::operators::{filter, project};
use yql_core::physical::PhysicalExpr;
use yql_core::schema::{DataSet, Field, Schema};
use yql_core::stream::{Event, FilterStream, ProjectStream};

const TIME: DataType = DataType::Timestamp(TimeUnit::Millisecond);

fn batch(rows: &[(Option<i64>, i64, i64)]) -> DataSet {
    let schema = Schema::try_new(vec![
        Field::new("a", DataType::Int64),
        Field::new("b", DataType::Int64),
        Field::new("t", TIME),
    ])
    .unwrap();
    let a = rows
        .iter()
        .map(|r| r.0.map(Scalar::Int64).unwrap_or(Scalar::Null))
        .collect();
    let b = rows.iter().map(|r| Scalar::Int64(r.1)).collect();
    let t = rows.iter().map(|r| Scalar::Timestamp(r.2)).collect();
    DataSet::try_new(
        schema,
        vec![
            Array::materialize(DataType::Int64, &a),
            Array::materialize(DataType::Int64, &b),
            Array::materialize(TIME, &t),
        ],
    )
    .unwrap()
}

fn rows(dataset: &DataSet) -> Vec<Vec<Scalar>> {
    (0..dataset.num_rows())
        .map(|r| {
            (0..dataset.num_columns())
                .map(|c| dataset.column(c).scalar_value(r))
                .collect()
        })
        .collect()
}

fn binary(op: BinaryOperator, lhs: PhysicalExpr, rhs: PhysicalExpr) -> PhysicalExpr {
    PhysicalExpr::Binary {
        op,
        lhs: Box::new(lhs),
        rhs: Box::new(rhs),
    }
}

fn col(index: usize) -> PhysicalExpr {
    PhysicalExpr::Column { index }
}

fn number(value: i64) -> PhysicalExpr {
    PhysicalExpr::Literal {
        value: Scalar::Int64(value),
    }
}

fn sample() -> DataSet {
    batch(&[
        (Some(5), 1, 10),
        (None, 2, 20),
        (Some(-1), 0, 30),
        (Some(9), 3, 40),
    ])
}

#[test]
fn filter_keeps_the_rows_at_which_the_predicate_is_true() {
    let mut positive = binary(BinaryOperator::Gt, col(0), number(0));
    let kept = filter(&sample(), &mut positive).unwrap();
    assert_eq!(
        rows(&kept),
        vec![
            vec![Scalar::Int64(5), Scalar::Int64(1), Scalar::Timestamp(10)],
            vec![Scalar::Int64(9), Scalar::Int64(3), Scalar::Timestamp(40)],
        ]
    );
    let mut never = binary(BinaryOperator::Gt, col(0), number(100));
    let kept = filter(&sample(), &mut never).unwrap();
    assert_eq!(kept.num_rows(), 0);
    assert_eq!(kept.num_columns(), 3);
}

#[test]
fn filter_with_a_predicate_that_is_no_boolean_keeps_nothing() {
    let mut sum = binary(BinaryOperator::Plus, col(0), col(1));
    assert_eq!(filter(&sample(), &mut sum).unwrap().num_rows(), 0);
    let mut bad = binary(BinaryOperator::Divide, col(0), col(1));
    assert_eq!(
        filter(&sample(), &mut bad).err(),
        Some(Error::Eval(EvalError::DivideByZero))
    );
}

fn projection_schema() -> Schema {
    Schema::try_new(vec![
        Field::new("sum", DataType::Int64),
        Field::new("t", TIME),
    ])
    .unwrap()
}

#[test]
fn project_evaluates_each_expression_as_a_column() {
    let mut exprs = vec![binary(BinaryOperator::Plus, col(0), col(1)), col(2)];
    let out = project(&sample(), &mut exprs, &projection_schema()).unwrap();
    assert_eq!(out.schema().fields()[0].name, "sum");
    assert_eq!(
        rows(&out),
        vec![
            vec![Scalar::Int64(6), Scalar::Timestamp(10)],
            vec![Scalar::Null, Scalar::Timestamp(20)],
            vec![Scalar::Int64(-1), Scalar::Timestamp(30)],
            vec![Scalar::Int64(12), Scalar::Timestamp(40)],
        ]
    );
}

#[test]
fn project_refuses_columns_that_do_not_fit_the_schema() {
    let mut too_few = vec![col(0)];
    assert_eq!(
        project(&sample(), &mut too_few, &projection_schema()).err(),
        Some(Error::InvalidSchema)
    );
    let mut other_types = vec![col(2), col(0)];
    assert_eq!(
        project(&sample(), &mut other_types, &projection_schema()).err(),
        Some(Error::InvalidSchema)
    );
}

fn only_dataset(mut events: Vec<Event>) -> (Option<i64>, DataSet) {
    assert_eq!(events.len(), 1);
    match events.pop().unwrap() {
        Event::DataSet {
            current_watermark,
            dataset,
        } => (current_watermark, dataset),
        Event::CreateCheckPoint(_) => panic!("a barrier where a dataset was expected"),
    }
}

#[test]
fn filter_stream_carries_the_watermark_and_passes_barriers_on() {
    let mut stream = FilterStream::new(binary(BinaryOperator::Gt, col(0), number(0)));
    let (watermark, dataset) = only_dataset(
        stream
            .next(Event::DataSet {
                current_watermark: Some(77),
                dataset: sample(),
            })
            .unwrap(),
    );
    assert_eq!(watermark, Some(77));
    assert_eq!(dataset.num_rows(), 2);

    let mut barrier = CheckPointBarrier::new(2, 1, false);
    barrier.set_state(3, Some(vec![1]));
    let mut passed = stream.next(Event::CreateCheckPoint(barrier)).unwrap();
    assert_eq!(passed.len(), 1);
    match passed.pop().unwrap() {
        Event::CreateCheckPoint(barrier) => {
            assert!(barrier.is_saved(3));
            assert!(!barrier.is_complete());
        }
        Event::DataSet { .. } => panic!("a dataset where the barrier was expected"),
    }
    assert!(!stream.is_ended());
    let passed = stream
        .next(Event::CreateCheckPoint(CheckPointBarrier::new(1, 1, true)))
        .unwrap();
    assert_eq!(passed.len(), 1);
    assert!(stream.is_ended());
    assert_eq!(
        stream
            .next(Event::DataSet {
                current_watermark: None,
                dataset: sample(),
            })
            .unwrap()
            .len(),
        0
    );
}

#[test]
fn division_by_zero_in_a_projection_is_a_terminal_error() {
    let mut stream = ProjectStream::new(
        vec![binary(BinaryOperator::Divide, col(0), col(1)), col(2)],
        projection_schema(),
    );
    let (watermark, dataset) = only_dataset(
        stream
            .next(Event::DataSet {
                current_watermark: None,
                dataset: batch(&[(Some(8), 2, 10)]),
            })
            .unwrap(),
    );
    assert_eq!(watermark, None);
    assert_eq!(
        rows(&dataset),
        vec![vec![Scalar::Int64(4), Scalar::Timestamp(10)]]
    );
    assert_eq!(
        stream
            .next(Event::DataSet {
                current_watermark: Some(5),
                dataset: sample(),
            })
            .err(),
        Some(Error::Eval(EvalError::DivideByZero))
    );
    assert!(stream.is_ended());
    // no further events follow
    assert_eq!(
        stream
            .next(Event::DataSet {
                current_watermark: Some(6),
                dataset: batch(&[(Some(8), 2, 10)]),
            })
            .unwrap()
            .len(),
        0
    );
    assert_eq!(
        stream
            .next(Event::CreateCheckPoint(CheckPointBarrier::new(1, 1, false)))
            .unwrap()
            .len(),
        0
    );
}
