use yql_core::aggregate::AggregateManager;
use yql_core::array::{Array, DataType, Scalar, TimeUnit};
use yql_core::checkpoint::{decode_states, encode_states, CheckPointBarrier, StateMap};
use yql_core::error::{Error, EvalError};
use yql_core::expr::BinaryOperator;
use yql_core::physical::{AggregateFunction, PhysicalExpr};
use yql_core::schema::{DataSet, Field, Schema};
use yql_core::stream::{
    create_aggregate_stream, save_state, AggregateStream, CreateStreamContext, DataStream, Event,
    PhysicalAggregateNode, Polled, Polling,
};
use yql_core::window::Window;

const TIME: DataType = DataType::Timestamp(TimeUnit::Millisecond);

fn batch(rows: &[(&str, i64, i64)]) -> DataSet {
    let schema = Schema::try_new(vec![
        Field::new("k", DataType::String),
        Field::new("v", DataType::Int64),
        Field::new("t", TIME),
    ])
    .unwrap();
    let keys = rows
        .iter()
        .map(|r| Scalar::String(r.0.to_string()))
        .collect();
    let values = rows.iter().map(|r| Scalar::Int64(r.1)).collect();
    let times = rows.iter().map(|r| Scalar::Timestamp(r.2)).collect();
    DataSet::try_new(
        schema,
        vec![
            Array::materialize(DataType::String, &keys),
            Array::materialize(DataType::Int64, &values),
            Array::materialize(TIME, &times),
        ],
    )
    .unwrap()
}

fn node(id: usize, divisor: Option<i64>) -> PhysicalAggregateNode {
    let sum = PhysicalExpr::Aggregate {
        function: AggregateFunction::Sum,
        arg: Box::new(PhysicalExpr::Column { index: 1 }),
        state: Scalar::Null,
    };
    let total = match divisor {
        Some(d) => PhysicalExpr::Binary {
            op: BinaryOperator::Divide,
            lhs: Box::new(sum),
            rhs: Box::new(PhysicalExpr::Literal {
                value: Scalar::Int64(d),
            }),
        },
        None => sum,
    };
    PhysicalAggregateNode {
        id,
        schema: Schema::try_new(vec![
            Field::new("k", DataType::String),
            Field::new("total", DataType::Int64),
            Field::new("window_start", TIME),
        ])
        .unwrap(),
        group_exprs: vec![PhysicalExpr::Column { index: 0 }],
        aggr_exprs: vec![PhysicalExpr::Column { index: 0 }, total],
        window: Window::Fixed { length: 1000 },
        time_idx: 2,
    }
}

fn fresh_stream(id: usize) -> AggregateStream {
    let mut ctx = CreateStreamContext {
        prev_state: StateMap::new(),
    };
    create_aggregate_stream(&mut ctx, node(id, None)).unwrap()
}

fn datasets(events: Vec<Event>) -> Vec<(Option<i64>, Vec<Vec<Scalar>>)> {
    events
        .into_iter()
        .map(|e| match e {
            Event::DataSet {
                current_watermark,
                dataset,
            } => (
                current_watermark,
                (0..dataset.num_rows())
                    .map(|r| {
                        (0..dataset.num_columns())
                            .map(|c| dataset.column(c).scalar_value(r))
                            .collect()
                    })
                    .collect(),
            ),
            Event::CreateCheckPoint(_) => panic!("a barrier where a dataset was expected"),
        })
        .collect()
}

fn row(key: &str, total: i64, start: i64) -> Vec<Scalar> {
    vec![
        Scalar::String(key.to_string()),
        Scalar::Int64(total),
        Scalar::Timestamp(start),
    ]
}

#[test]
fn state_map_holds_one_state_for_a_node() {
    let mut map = StateMap::new();
    assert_eq!(map.len(), 0);
    assert!(!map.contains(3));
    map.insert(3, vec![1, 2, 3]);
    map.insert(0, vec![]);
    assert_eq!(map.len(), 2);
    assert!(map.contains(3));
    assert!(map.contains(0));
    assert_eq!(map.remove(3), Some(vec![1, 2, 3]));
    assert_eq!(map.remove(3), None);
    assert_eq!(map.remove(7), None);
    assert_eq!(map.len(), 1);
}

#[test]
fn checkpoint_blob_is_little_endian_and_length_prefixed() {
    let mut map = StateMap::new();
    map.insert(258, vec![0xaa, 0xbb]);
    map.insert(1, vec![]);
    let blob = encode_states(&map);
    assert_eq!(
        blob,
        vec![
            2, 0, 0, 0, 0, 0, 0, 0, // two entries
            2, 1, 0, 0, 0, 0, 0, 0, // node 258
            2, 0, 0, 0, 0, 0, 0, 0, // two bytes
            0xaa, 0xbb, //
            1, 0, 0, 0, 0, 0, 0, 0, // node 1
            0, 0, 0, 0, 0, 0, 0, 0, // no bytes
        ]
    );
    let mut decoded = decode_states(&blob).unwrap();
    assert_eq!(decoded.len(), 2);
    assert_eq!(decoded.remove(258), Some(vec![0xaa, 0xbb]));
    assert_eq!(decoded.remove(1), Some(vec![]));
    assert_eq!(encode_states(&StateMap::new()), vec![0; 8]);
}

#[test]
fn a_blob_that_is_cut_short_or_names_a_node_twice_is_refused() {
    let mut map = StateMap::new();
    map.insert(1, vec![9, 9, 9]);
    map.insert(2, vec![8]);
    let blob = encode_states(&map);
    for cut in 0..blob.len() {
        assert_eq!(decode_states(&blob[..cut]).err(), Some(Error::State));
    }
    let mut longer = blob.clone();
    longer.push(0);
    assert_eq!(decode_states(&longer).err(), Some(Error::State));
    let twice = vec![
        2, 0, 0, 0, 0, 0, 0, 0, //
        5, 0, 0, 0, 0, 0, 0, 0, //
        0, 0, 0, 0, 0, 0, 0, 0, //
        5, 0, 0, 0, 0, 0, 0, 0, //
        0, 0, 0, 0, 0, 0, 0, 0, //
    ];
    assert_eq!(decode_states(&twice).err(), Some(Error::State));
    // a length that the blob cannot hold
    let huge = vec![
        1, 0, 0, 0, 0, 0, 0, 0, //
        5, 0, 0, 0, 0, 0, 0, 0, //
        0xff, 0xff, 0xff, 0xff, 0xff, 0xff, 0xff, 0xff, //
    ];
    assert_eq!(decode_states(&huge).err(), Some(Error::State));
}

#[test]
fn a_barrier_is_complete_when_all_have_reported() {
    let mut barrier = CheckPointBarrier::new(2, 1, false);
    assert!(!barrier.is_exit());
    assert!(!barrier.is_complete());
    assert!(!barrier.is_saved(4));
    barrier.source_done();
    assert!(!barrier.is_complete());
    barrier.set_state(4, Some(vec![1]));
    assert!(barrier.is_saved(4));
    assert!(!barrier.is_complete());
    // a second report of the same node changes nothing
    barrier.set_state(4, Some(vec![2]));
    assert!(!barrier.is_complete());
    barrier.set_state(0, None);
    assert!(barrier.is_complete());
    // one node more than was counted changes nothing
    barrier.set_state(9, Some(vec![3]));
    assert!(!barrier.is_saved(9));
    barrier.source_done();
    assert!(barrier.is_complete());
    let mut states = barrier.take_state();
    assert_eq!(states.len(), 1);
    assert_eq!(states.remove(4), Some(vec![1]));
}

#[test]
fn the_checkpoint_of_a_barrier_that_is_not_complete_is_not_saved() {
    let mut barrier = CheckPointBarrier::new(1, 1, false);
    barrier.set_state(0, Some(vec![5]));
    assert_eq!(save_state(barrier), None);
    let mut barrier = CheckPointBarrier::new(1, 1, true);
    assert!(barrier.is_exit());
    barrier.set_state(0, Some(vec![5]));
    barrier.source_done();
    let blob = save_state(barrier).unwrap();
    let mut states = decode_states(&blob).unwrap();
    assert_eq!(states.remove(0), Some(vec![5]));
}

#[test]
fn the_stream_passes_completed_windows_on_with_the_batch_watermark() {
    let mut stream = fresh_stream(1);
    let passed = stream
        .next(Event::DataSet {
            current_watermark: Some(500),
            dataset: batch(&[("a", 1, 100), ("b", 5, 300)]),
        })
        .unwrap();
    assert_eq!(passed.len(), 0);
    let passed = stream
        .next(Event::DataSet {
            current_watermark: Some(3000),
            dataset: batch(&[("a", 2, 200), ("a", 4, 1100)]),
        })
        .unwrap();
    assert_eq!(
        datasets(passed),
        vec![
            (Some(3000), vec![row("a", 3, 0), row("b", 5, 0)]),
            (Some(3000), vec![row("a", 4, 1000)]),
        ]
    );
    assert!(!stream.is_ended());
}

#[test]
fn the_stream_reports_its_state_to_a_barrier_and_passes_it_on() {
    let mut stream = fresh_stream(7);
    stream
        .next(Event::DataSet {
            current_watermark: None,
            dataset: batch(&[("a", 1, 100)]),
        })
        .unwrap();
    let mut barrier = CheckPointBarrier::new(2, 1, false);
    barrier.source_done();
    barrier.set_state(0, None);
    let mut passed = stream.next(Event::CreateCheckPoint(barrier)).unwrap();
    assert_eq!(passed.len(), 1);
    assert!(!stream.is_ended());
    let barrier = match passed.pop().unwrap() {
        Event::CreateCheckPoint(barrier) => barrier,
        Event::DataSet { .. } => panic!("a dataset where the barrier was expected"),
    };
    assert!(barrier.is_saved(7));
    assert!(barrier.is_complete());
    let blob = save_state(barrier).unwrap();

    // a pipeline that is built from the blob goes on where the other stood
    let (_, mut ctx) = DataStream::try_new(2, 1, Some(blob)).unwrap();
    assert_eq!(ctx.prev_state.len(), 1);
    let mut restored = create_aggregate_stream(&mut ctx, node(7, None)).unwrap();
    assert_eq!(ctx.prev_state.len(), 0);
    let passed = restored
        .next(Event::DataSet {
            current_watermark: Some(5000),
            dataset: batch(&[("a", 10, 200)]),
        })
        .unwrap();
    assert_eq!(datasets(passed), vec![(Some(5000), vec![row("a", 11, 0)])]);
}

#[test]
fn states_of_unknown_nodes_are_left_alone() {
    let mut map = StateMap::new();
    map.insert(99, vec![1, 2, 3]);
    let mut ctx = CreateStreamContext { prev_state: map };
    let stream = create_aggregate_stream(&mut ctx, node(1, None)).unwrap();
    assert!(!stream.is_ended());
    assert_eq!(ctx.prev_state.len(), 1);
    assert!(ctx.prev_state.contains(99));
}

#[test]
fn a_state_that_cannot_be_loaded_fails_the_creation() {
    let mut map = StateMap::new();
    map.insert(1, vec![1, 2, 3]);
    let mut ctx = CreateStreamContext { prev_state: map };
    assert_eq!(
        create_aggregate_stream(&mut ctx, node(1, None)).err(),
        Some(Error::State)
    );
    let mut unconfigured = node(1, None);
    unconfigured.window = Window::Fixed { length: 0 };
    let mut ctx = CreateStreamContext {
        prev_state: StateMap::new(),
    };
    assert_eq!(
        create_aggregate_stream(&mut ctx, unconfigured).err(),
        Some(Error::InvalidSchema)
    );
}

#[test]
fn a_truncated_blob_fails_the_creation_of_the_pipeline() {
    let mut stream = fresh_stream(0);
    stream
        .next(Event::DataSet {
            current_watermark: None,
            dataset: batch(&[("a", 1, 100)]),
        })
        .unwrap();
    let mut passed = stream
        .next(Event::CreateCheckPoint(CheckPointBarrier::new(1, 0, false)))
        .unwrap();
    let barrier = match passed.pop().unwrap() {
        Event::CreateCheckPoint(barrier) => barrier,
        Event::DataSet { .. } => panic!("a dataset where the barrier was expected"),
    };
    let blob = save_state(barrier).unwrap();
    assert!(DataStream::try_new(1, 0, Some(blob.clone())).is_ok());
    assert_eq!(
        DataStream::try_new(1, 0, Some(blob[..blob.len() - 1].to_vec())).err(),
        Some(Error::State)
    );
    assert_eq!(
        DataStream::try_new(1, 0, Some(vec![])).err(),
        Some(Error::State)
    );
    let (_, ctx) = DataStream::try_new(1, 0, None).unwrap();
    assert_eq!(ctx.prev_state.len(), 0);
}

#[test]
fn an_exit_barrier_ends_the_stream() {
    let mut stream = fresh_stream(0);
    let passed = stream
        .next(Event::CreateCheckPoint(CheckPointBarrier::new(1, 0, true)))
        .unwrap();
    assert_eq!(passed.len(), 1);
    assert!(stream.is_ended());
    let passed = stream
        .next(Event::DataSet {
            current_watermark: Some(9000),
            dataset: batch(&[("a", 1, 100)]),
        })
        .unwrap();
    assert_eq!(passed.len(), 0);
}

#[test]
fn an_error_ends_the_stream_and_nothing_follows() {
    let mut ctx = CreateStreamContext {
        prev_state: StateMap::new(),
    };
    let mut stream = create_aggregate_stream(&mut ctx, node(0, Some(0))).unwrap();
    assert_eq!(
        stream
            .next(Event::DataSet {
                current_watermark: Some(5000),
                dataset: batch(&[("a", 1, 100)]),
            })
            .err(),
        Some(Error::Eval(EvalError::DivideByZero))
    );
    assert!(stream.is_ended());
    let passed = stream
        .next(Event::DataSet {
            current_watermark: Some(9000),
            dataset: batch(&[("a", 1, 6000)]),
        })
        .unwrap();
    assert_eq!(passed.len(), 0);
    let passed = stream
        .next(Event::CreateCheckPoint(CheckPointBarrier::new(1, 0, false)))
        .unwrap();
    assert_eq!(passed.len(), 0);
}

#[test]
fn the_data_stream_sends_barriers_and_yields_datasets() {
    let (stream, _) = DataStream::try_new(3, 2, None).unwrap();
    assert!(stream.on_tick(false).is_none());
    let barrier = stream.on_tick(true).unwrap();
    assert!(!barrier.is_exit());
    assert!(!barrier.is_complete());
    let exit = stream.on_shutdown();
    assert!(exit.is_exit());

    assert!(matches!(DataStream::poll_next(Polled::Pending), Polling::Pending));
    assert!(matches!(DataStream::poll_next(Polled::Ended), Polling::Ended));
    assert!(matches!(
        DataStream::poll_next(Polled::Failed(Error::State)),
        Polling::Fail(Error::State)
    ));
    assert!(matches!(
        DataStream::poll_next(Polled::Ready(Event::CreateCheckPoint(barrier))),
        Polling::Again
    ));
    match DataStream::poll_next(Polled::Ready(Event::DataSet {
        current_watermark: Some(1),
        dataset: batch(&[("a", 1, 100)]),
    })) {
        Polling::Yield(dataset) => assert_eq!(dataset.num_rows(), 1),
        _ => panic!("the dataset was not handed on"),
    }
}

#[test]
fn manager_state_is_bytes_of_the_documented_layout() {
    let schema = Schema::try_new(vec![
        Field::new("total", DataType::Int64),
        Field::new("window_start", TIME),
    ])
    .unwrap();
    let mut manager = AggregateManager::try_new(
        schema,
        vec![],
        vec![PhysicalExpr::Aggregate {
            function: AggregateFunction::Sum,
            arg: Box::new(PhysicalExpr::Column { index: 1 }),
            state: Scalar::Null,
        }],
        Window::Fixed { length: 1000 },
        2,
    )
    .unwrap();
    manager.aggregate(&batch(&[("a", 258, 1100)]), None).unwrap();
    assert_eq!(
        manager.save_state().unwrap(),
        vec![
            0, 0, 0, 0, 0, 0, 0, 0, // no grouping expressions
            1, 0, 0, 0, 0, 0, 0, 0, // one window
            0xe8, 3, 0, 0, 0, 0, 0, 0, // from 1000
            0xd0, 7, 0, 0, 0, 0, 0, 0, // to 2000
            1, 0, 0, 0, 0, 0, 0, 0, // one group
            0, 0, 0, 0, 0, 0, 0, 0, // with the empty key
            1, 0, 0, 0, 0, 0, 0, 0, // one expression state
            17, 0, 0, 0, 0, 0, 0, 0, // of seventeen bytes:
            1, 0, 0, 0, 0, 0, 0, 0, // one state cell,
            4, 2, 1, 0, 0, 0, 0, 0, 0, // a 64-bit integer, 258
            1, 0, 0, 0, 0, 0, 0, 0, // one result
            4, 2, 1, 0, 0, 0, 0, 0, 0, // a 64-bit integer, 258
        ]
    );
}

#[test]
fn a_checkpoint_holds_one_entry_for_each_node_that_reported_a_state() {
    let mut barrier = CheckPointBarrier::new(3, 1, false);
    barrier.source_done();
    barrier.set_state(5, Some(vec![50]));
    barrier.set_state(2, Some(vec![20, 21]));
    // reports that come again change nothing
    barrier.set_state(5, Some(vec![51]));
    barrier.set_state(2, None);
    barrier.set_state(8, Some(vec![]));
    assert!(barrier.is_complete());
    let blob = save_state(barrier).unwrap();
    let mut states = decode_states(&blob).unwrap();
    assert_eq!(states.len(), 3);
    assert_eq!(states.remove(5), Some(vec![50]));
    assert_eq!(states.remove(2), Some(vec![20, 21]));
    assert_eq!(states.remove(8), Some(vec![]));
    assert_eq!(states.len(), 0);
}

#[test]
fn a_node_without_state_has_no_entry_in_the_checkpoint() {
    let mut barrier = CheckPointBarrier::new(2, 0, false);
    barrier.set_state(1, None);
    barrier.set_state(0, Some(vec![7]));
    assert!(barrier.is_complete());
    let states = barrier.take_state();
    assert_eq!(states.len(), 1);
    assert!(states.contains(0));
    assert!(!states.contains(1));
}

#[test]
fn a_stream_that_has_reported_leaves_the_barrier_as_it_is() {
    let mut stream = fresh_stream(3);
    stream
        .next(Event::DataSet {
            current_watermark: None,
            dataset: batch(&[("a", 1, 100)]),
        })
        .unwrap();
    let mut barrier = CheckPointBarrier::new(2, 0, false);
    barrier.set_state(3, Some(vec![9, 9]));
    let mut passed = stream.next(Event::CreateCheckPoint(barrier)).unwrap();
    let barrier = match passed.pop().unwrap() {
        Event::CreateCheckPoint(barrier) => barrier,
        Event::DataSet { .. } => panic!("a dataset where the barrier was expected"),
    };
    assert!(!barrier.is_complete());
    let mut states = barrier.take_state();
    assert_eq!(states.remove(3), Some(vec![9, 9]));
}
