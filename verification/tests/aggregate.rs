use yql_core::aggregate::AggregateManager;
use yql_core::array::{Array, DataType, Scalar, TimeUnit};
use yql_core::error::{Error, EvalError};
use yql_core::expr::BinaryOperator;
use yql_core::grouping::{group_by_exprs, group_by_window};
use yql_core::physical::{AggregateFunction, PhysicalExpr};
use yql_core::schema::{DataSet, Field, Schema};
use yql_core::window::Window;

const TIME: DataType = DataType::Timestamp(TimeUnit::Millisecond);

fn input_schema() -> Schema {
    Schema::try_new(vec![
        Field::new("k", DataType::String),
        Field::new("v", DataType::Int64),
        Field::new("t", TIME),
    ])
    .unwrap()
}

fn output_schema() -> Schema {
    Schema::try_new(vec![
        Field::new("k", DataType::String),
        Field::new("total", DataType::Int64),
        Field::new("window_start", TIME),
    ])
    .unwrap()
}

fn batch(rows: &[(&str, i64, i64)]) -> DataSet {
    let keys = rows
        .iter()
        .map(|r| Scalar::String(r.0.to_string()))
        .collect();
    let values = rows.iter().map(|r| Scalar::Int64(r.1)).collect();
    let times = rows.iter().map(|r| Scalar::Timestamp(r.2)).collect();
    DataSet::try_new(
        input_schema(),
        vec![
            Array::materialize(DataType::String, &keys),
            Array::materialize(DataType::Int64, &values),
            Array::materialize(TIME, &times),
        ],
    )
    .unwrap()
}

fn sum_of_v() -> PhysicalExpr {
    PhysicalExpr::Aggregate {
        function: AggregateFunction::Sum,
        arg: Box::new(PhysicalExpr::Column { index: 1 }),
        state: Scalar::Null,
    }
}

fn manager(window: Window) -> AggregateManager {
    AggregateManager::try_new(
        output_schema(),
        vec![PhysicalExpr::Column { index: 0 }],
        vec![PhysicalExpr::Column { index: 0 }, sum_of_v()],
        window,
        2,
    )
    .unwrap()
}

fn rows(dataset: &DataSet) -> Vec<Vec<Scalar>> {
    (0..dataset.num_rows())
        .map(|r| {
            (0..dataset.num_columns())
                .map(|c| dataset.column(c).scalar_value(r))
                .collect()
        })
        .collect()
}

fn row(key: &str, total: i64, start: i64) -> Vec<Scalar> {
    vec![
        Scalar::String(key.to_string()),
        Scalar::Int64(total),
        Scalar::Timestamp(start),
    ]
}

#[test]
fn rows_go_to_the_window_of_their_time() {
    let window = Window::Fixed { length: 1000 };
    let data = batch(&[
        ("a", 1, 500),
        ("a", 1, 999),
        ("a", 1, 1000),
        ("a", 1, 1500),
        ("a", 1, 2500),
    ]);
    let groups = group_by_window(&data, 2, &window).unwrap();
    let spans: Vec<(i64, i64, usize)> = groups
        .iter()
        .map(|g| (g.0, g.1, g.2.num_rows()))
        .collect();
    assert_eq!(spans, vec![(0, 1000, 2), (1000, 2000, 2), (2000, 3000, 1)]);
}

#[test]
fn windows_come_by_ascending_start_whatever_the_order_of_rows() {
    let window = Window::Fixed { length: 1000 };
    let data = batch(&[("a", 1, 2500), ("b", 2, 100), ("c", 3, 1200), ("d", 4, 150)]);
    let groups = group_by_window(&data, 2, &window).unwrap();
    let starts: Vec<i64> = groups.iter().map(|g| g.0).collect();
    assert_eq!(starts, vec![0, 1000, 2000]);
    assert_eq!(
        rows(&groups[0].2),
        vec![
            vec![
                Scalar::String("b".to_string()),
                Scalar::Int64(2),
                Scalar::Timestamp(100)
            ],
            vec![
                Scalar::String("d".to_string()),
                Scalar::Int64(4),
                Scalar::Timestamp(150)
            ],
        ]
    );
}

#[test]
fn rows_without_event_time_are_in_no_window() {
    let window = Window::Fixed { length: 1000 };
    let schema = input_schema();
    let data = DataSet::try_new(
        schema,
        vec![
            Array::materialize(
                DataType::String,
                &vec![Scalar::String("a".to_string()), Scalar::String("b".to_string())],
            ),
            Array::materialize(DataType::Int64, &vec![Scalar::Int64(1), Scalar::Int64(2)]),
            Array::materialize(TIME, &vec![Scalar::Null, Scalar::Timestamp(10)]),
        ],
    )
    .unwrap();
    let groups = group_by_window(&data, 2, &window).unwrap();
    assert_eq!(groups.len(), 1);
    assert_eq!(groups[0].2.num_rows(), 1);
    // a time column that is no timestamp column holds no event time
    let none = group_by_window(&data, 1, &window).unwrap();
    assert_eq!(none.len(), 0);
    // a time column that the dataset does not have
    assert_eq!(
        group_by_window(&data, 3, &window).err(),
        Some(Error::Eval(EvalError::NoSuchColumn))
    );
}

#[test]
fn groups_come_in_the_order_of_their_first_rows() {
    let data = batch(&[("b", 1, 0), ("a", 2, 0), ("b", 3, 0), ("c", 4, 0), ("a", 5, 0)]);
    let mut exprs = vec![PhysicalExpr::Column { index: 0 }];
    let groups = group_by_exprs(&data, &mut exprs).unwrap();
    let keys: Vec<Vec<Scalar>> = groups.iter().map(|g| g.0.clone()).collect();
    assert_eq!(
        keys,
        vec![
            vec![Scalar::String("b".to_string())],
            vec![Scalar::String("a".to_string())],
            vec![Scalar::String("c".to_string())],
        ]
    );
    let values: Vec<Vec<Scalar>> = groups
        .iter()
        .map(|g| {
            (0..g.1.num_rows())
                .map(|r| g.1.column(1).scalar_value(r))
                .collect()
        })
        .collect();
    assert_eq!(
        values,
        vec![
            vec![Scalar::Int64(1), Scalar::Int64(3)],
            vec![Scalar::Int64(2), Scalar::Int64(5)],
            vec![Scalar::Int64(4)],
        ]
    );
}

#[test]
fn null_keys_are_one_group() {
    let schema = input_schema();
    let data = DataSet::try_new(
        schema,
        vec![
            Array::materialize(
                DataType::String,
                &vec![Scalar::Null, Scalar::String("a".to_string()), Scalar::Null],
            ),
            Array::materialize(
                DataType::Int64,
                &vec![Scalar::Int64(1), Scalar::Int64(2), Scalar::Int64(3)],
            ),
            Array::materialize(
                TIME,
                &vec![Scalar::Timestamp(1), Scalar::Timestamp(2), Scalar::Timestamp(3)],
            ),
        ],
    )
    .unwrap();
    let mut exprs = vec![PhysicalExpr::Column { index: 0 }];
    let groups = group_by_exprs(&data, &mut exprs).unwrap();
    assert_eq!(groups.len(), 2);
    assert_eq!(groups[0].0, vec![Scalar::Null]);
    assert_eq!(groups[0].1.num_rows(), 2);
}

#[test]
fn grouped_sums_are_emitted_when_the_watermark_passes_the_window() {
    let mut manager = manager(Window::Fixed { length: 1000 });
    let out = manager
        .aggregate(
            &batch(&[("a", 1, 100), ("a", 2, 200), ("b", 5, 300)]),
            Some(2000),
        )
        .unwrap();
    assert_eq!(out.len(), 1);
    assert_eq!(rows(&out[0]), vec![row("a", 3, 0), row("b", 5, 0)]);
    assert_eq!(manager.open_windows(), 0);
    assert_eq!(manager.watermark(), Some(2000));
}

#[test]
fn nothing_is_emitted_until_the_watermark_is_beyond_the_end() {
    let mut manager = manager(Window::Fixed { length: 1000 });
    let data = batch(&[("a", 1, 500), ("a", 1, 1500), ("a", 1, 2500)]);
    // no watermark at all
    assert_eq!(manager.aggregate(&data, None).unwrap().len(), 0);
    assert_eq!(manager.open_windows(), 3);
    // a watermark at the end of the first window does not close it
    let nothing = batch(&[]);
    assert_eq!(manager.aggregate(&nothing, Some(1000)).unwrap().len(), 0);
    // one beyond it does
    let out = manager.aggregate(&nothing, Some(1001)).unwrap();
    assert_eq!(out.len(), 1);
    assert_eq!(rows(&out[0]), vec![row("a", 1, 0)]);
    // at 2000 the window that ends at 2000 stays open
    assert_eq!(manager.aggregate(&nothing, Some(2000)).unwrap().len(), 0);
    assert_eq!(manager.open_windows(), 2);
    let out = manager.aggregate(&nothing, Some(5000)).unwrap();
    assert_eq!(out.len(), 2);
    assert_eq!(rows(&out[0]), vec![row("a", 1, 1000)]);
    assert_eq!(rows(&out[1]), vec![row("a", 1, 2000)]);
}

#[test]
fn sums_run_on_over_batches() {
    let mut manager = manager(Window::Fixed { length: 1000 });
    assert_eq!(
        manager
            .aggregate(&batch(&[("a", 1, 100), ("b", 10, 100)]), None)
            .unwrap()
            .len(),
        0
    );
    assert_eq!(
        manager
            .aggregate(&batch(&[("b", 20, 900), ("a", 2, 200)]), Some(500))
            .unwrap()
            .len(),
        0
    );
    let out = manager.aggregate(&batch(&[]), Some(1500)).unwrap();
    assert_eq!(out.len(), 1);
    assert_eq!(rows(&out[0]), vec![row("a", 3, 0), row("b", 30, 0)]);
}

#[test]
fn late_rows_are_dropped() {
    let mut manager = manager(Window::Fixed { length: 1000 });
    let out = manager
        .aggregate(&batch(&[("a", 1, 100)]), Some(5000))
        .unwrap();
    assert_eq!(out.len(), 1);
    // the window from 0 to 1000 is closed: a row at 100 comes too late
    let out = manager
        .aggregate(&batch(&[("a", 7, 100), ("a", 9, 5500)]), Some(5000))
        .unwrap();
    assert_eq!(out.len(), 0);
    assert_eq!(manager.open_windows(), 1);
    let out = manager.aggregate(&batch(&[]), Some(9000)).unwrap();
    assert_eq!(out.len(), 1);
    assert_eq!(rows(&out[0]), vec![row("a", 9, 5000)]);
}

#[test]
fn sliding_windows_count_a_row_in_each_window_that_holds_it() {
    let mut manager = manager(Window::Sliding {
        length: 2000,
        interval: 1000,
    });
    let out = manager
        .aggregate(&batch(&[("a", 1, 500), ("a", 2, 1500)]), Some(10000))
        .unwrap();
    assert_eq!(out.len(), 3);
    assert_eq!(rows(&out[0]), vec![row("a", 1, -1000)]);
    assert_eq!(rows(&out[1]), vec![row("a", 3, 0)]);
    assert_eq!(rows(&out[2]), vec![row("a", 2, 1000)]);
}

#[test]
fn a_result_of_another_type_than_its_field_is_emitted_as_null() {
    let schema = Schema::try_new(vec![
        Field::new("total", DataType::String),
        Field::new("window_start", TIME),
    ])
    .unwrap();
    let mut manager = AggregateManager::try_new(
        schema,
        vec![],
        vec![sum_of_v()],
        Window::Fixed { length: 1000 },
        2,
    )
    .unwrap();
    let out = manager
        .aggregate(&batch(&[("a", 1, 100)]), Some(5000))
        .unwrap();
    assert_eq!(
        rows(&out[0]),
        vec![vec![Scalar::Null, Scalar::Timestamp(0)]]
    );
}

#[test]
fn an_operator_that_is_not_configured_is_refused() {
    let no_time = Schema::try_new(vec![
        Field::new("k", DataType::String),
        Field::new("total", DataType::Int64),
    ])
    .unwrap();
    assert_eq!(
        AggregateManager::try_new(
            no_time,
            vec![],
            vec![PhysicalExpr::Column { index: 0 }, sum_of_v()],
            Window::Fixed { length: 1000 },
            2,
        )
        .err(),
        Some(Error::InvalidSchema)
    );
    assert_eq!(
        AggregateManager::try_new(
            output_schema(),
            vec![],
            vec![PhysicalExpr::Column { index: 0 }, sum_of_v()],
            Window::Fixed { length: 0 },
            2,
        )
        .err(),
        Some(Error::InvalidSchema)
    );
    assert_eq!(
        AggregateManager::try_new(
            output_schema(),
            vec![],
            vec![PhysicalExpr::Column { index: 0 }],
            Window::Fixed { length: 1000 },
            2,
        )
        .err(),
        Some(Error::InvalidSchema)
    );
}

#[test]
fn division_by_zero_surfaces_as_an_error() {
    let quotient = PhysicalExpr::Binary {
        op: BinaryOperator::Divide,
        lhs: Box::new(PhysicalExpr::Column { index: 1 }),
        rhs: Box::new(PhysicalExpr::Literal {
            value: Scalar::Int64(0),
        }),
    };
    let mut manager = AggregateManager::try_new(
        output_schema(),
        vec![PhysicalExpr::Column { index: 0 }],
        vec![PhysicalExpr::Column { index: 0 }, quotient],
        Window::Fixed { length: 1000 },
        2,
    )
    .unwrap();
    assert_eq!(
        manager
            .aggregate(&batch(&[("a", 1, 100)]), Some(5000))
            .err(),
        Some(Error::Eval(EvalError::DivideByZero))
    );
}

#[test]
fn a_checkpoint_gives_back_what_was_saved() {
    let inputs = [
        batch(&[("a", 1, 100), ("b", 5, 300), ("a", 2, 1200)]),
        batch(&[("c", 7, 2100), ("a", 4, 250), ("b", 1, 1999)]),
    ];
    let mut straight = manager(Window::Fixed { length: 1000 });
    let mut saved = manager(Window::Fixed { length: 1000 });
    for input in &inputs {
        assert_eq!(straight.aggregate(input, None).unwrap().len(), 0);
        assert_eq!(saved.aggregate(input, None).unwrap().len(), 0);
    }
    let blob = saved.save_state().unwrap();
    drop(saved);

    let mut restored = manager(Window::Fixed { length: 1000 });
    assert_eq!(restored.load_state(blob.clone()), Ok(()));
    assert_eq!(restored.open_windows(), 3);
    // a saved state saves again as the same bytes
    assert_eq!(restored.save_state().unwrap(), blob);

    let expected = straight.aggregate(&batch(&[]), Some(100000)).unwrap();
    let actual = restored.aggregate(&batch(&[]), Some(100000)).unwrap();
    assert_eq!(expected.len(), 3);
    assert_eq!(actual.len(), 3);
    for (e, a) in expected.iter().zip(actual.iter()) {
        assert_eq!(rows(e), rows(a));
    }
    assert_eq!(
        rows(&actual[0]),
        vec![row("a", 5, 0), row("b", 5, 0)]
    );
    assert_eq!(rows(&actual[1]), vec![row("a", 2, 1000), row("b", 1, 1000)]);
    assert_eq!(rows(&actual[2]), vec![row("c", 7, 2000)]);
}

#[test]
fn the_state_goes_on_after_a_restore() {
    let mut first = manager(Window::Fixed { length: 1000 });
    first
        .aggregate(&batch(&[("a", 1, 100), ("b", 2, 200)]), None)
        .unwrap();
    let blob = first.save_state().unwrap();
    let mut second = manager(Window::Fixed { length: 1000 });
    second.load_state(blob).unwrap();
    let out = second
        .aggregate(&batch(&[("a", 10, 300), ("c", 3, 400)]), Some(2000))
        .unwrap();
    assert_eq!(
        rows(&out[0]),
        vec![row("a", 11, 0), row("b", 2, 0), row("c", 3, 0)]
    );
}

#[test]
fn a_truncated_state_is_refused_and_nothing_is_restored() {
    let mut saved = manager(Window::Fixed { length: 1000 });
    saved
        .aggregate(&batch(&[("a", 1, 100), ("b", 5, 300)]), None)
        .unwrap();
    let blob = saved.save_state().unwrap();
    for cut in 0..blob.len() {
        let mut fresh = manager(Window::Fixed { length: 1000 });
        assert_eq!(fresh.load_state(blob[..cut].to_vec()), Err(Error::State));
        assert_eq!(fresh.open_windows(), 0);
    }
    let mut longer = blob.clone();
    longer.push(0);
    let mut fresh = manager(Window::Fixed { length: 1000 });
    assert_eq!(fresh.load_state(longer), Err(Error::State));
}

#[test]
fn a_state_of_another_operator_is_refused() {
    let mut saved = manager(Window::Fixed { length: 1000 });
    saved.aggregate(&batch(&[("a", 1, 100)]), None).unwrap();
    let blob = saved.save_state().unwrap();
    // one aggregate expression instead of two
    let schema = Schema::try_new(vec![
        Field::new("total", DataType::Int64),
        Field::new("window_start", TIME),
    ])
    .unwrap();
    let mut other = AggregateManager::try_new(
        schema,
        vec![PhysicalExpr::Column { index: 0 }],
        vec![sum_of_v()],
        Window::Fixed { length: 1000 },
        2,
    )
    .unwrap();
    assert_eq!(other.load_state(blob), Err(Error::State));
    assert_eq!(other.open_windows(), 0);
}

#[test]
fn process_dataset_opens_the_window_and_the_group() {
    let mut manager = manager(Window::Fixed { length: 1000 });
    let rows_of_a = batch(&[("a", 1, 100), ("a", 2, 200)]);
    assert_eq!(
        manager.process_dataset(0, 1000, vec![Scalar::String("a".to_string())], &rows_of_a),
        Ok(())
    );
    assert_eq!(manager.open_windows(), 1);
    let rows_of_b = batch(&[("b", 5, 1300)]);
    assert_eq!(
        manager.process_dataset(1000, 2000, vec![Scalar::String("b".to_string())], &rows_of_b),
        Ok(())
    );
    assert_eq!(manager.open_windows(), 2);
    let out = manager.aggregate(&batch(&[]), Some(9000)).unwrap();
    assert_eq!(rows(&out[0]), vec![row("a", 3, 0)]);
    assert_eq!(rows(&out[1]), vec![row("b", 5, 1000)]);
}

#[test]
fn every_window_that_has_ended_is_emitted_whatever_stands_before_it() {
    let mut manager = manager(Window::Fixed { length: 1000 });
    let rows_of_a = batch(&[("a", 1, 100)]);
    // The earlier window ends later than the one that starts behind it.
    assert_eq!(
        manager.process_dataset(0, 5000, vec![Scalar::String("a".to_string())], &rows_of_a),
        Ok(())
    );
    let rows_of_b = batch(&[("b", 5, 1300)]);
    assert_eq!(
        manager.process_dataset(1000, 2000, vec![Scalar::String("b".to_string())], &rows_of_b),
        Ok(())
    );
    let out = manager.aggregate(&batch(&[]), Some(3000)).unwrap();
    assert_eq!(out.len(), 1);
    assert_eq!(rows(&out[0]), vec![row("b", 5, 1000)]);
    assert_eq!(manager.open_windows(), 1);
    let out = manager.aggregate(&batch(&[]), Some(5001)).unwrap();
    assert_eq!(out.len(), 1);
    assert_eq!(rows(&out[0]), vec![row("a", 1, 0)]);
    assert_eq!(manager.open_windows(), 0);
}

#[test]
fn closed_windows_come_out_earliest_first() {
    let mut manager = manager(Window::Fixed { length: 1000 });
    manager
        .aggregate(&batch(&[("a", 4, 2100), ("a", 1, 100), ("a", 2, 1100), ("a", 8, 3100)]), None)
        .unwrap();
    assert_eq!(manager.open_windows(), 4);
    let out = manager.aggregate(&batch(&[]), Some(3001)).unwrap();
    assert_eq!(out.len(), 3);
    assert_eq!(rows(&out[0]), vec![row("a", 1, 0)]);
    assert_eq!(rows(&out[1]), vec![row("a", 2, 1000)]);
    assert_eq!(rows(&out[2]), vec![row("a", 4, 2000)]);
    assert_eq!(manager.open_windows(), 1);
}
