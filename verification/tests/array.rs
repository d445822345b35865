use yql_core::array::{
    Array, DataType, PrimitiveBuilder, Scalar, StringBuilder, TimeUnit,
};
use yql_core::error::Error;
use yql_core::schema::{DataSet, Field, Schema};

#[test]
fn builder_keeps_what_was_appended() {
    let items = vec![Some(3i64), None, Some(-7), Some(i64::MAX), None];
    let mut builder = PrimitiveBuilder::<i64>::new();
    builder.append_all(&items);
    let array = Array::Int64(builder.finish());
    assert_eq!(array.len(), 5);
    assert_eq!(array.scalar_value(0), Scalar::Int64(3));
    assert_eq!(array.scalar_value(1), Scalar::Null);
    assert_eq!(array.scalar_value(2), Scalar::Int64(-7));
    assert_eq!(array.scalar_value(3), Scalar::Int64(i64::MAX));
    assert_eq!(array.scalar_value(4), Scalar::Null);
    assert_eq!(array.data_type(), DataType::Int64);
}

#[test]
fn builder_appends_one_by_one() {
    let mut builder = PrimitiveBuilder::<bool>::with_capacity(4);
    builder.append(true);
    builder.append_null();
    builder.append_opt(Some(false));
    builder.append_opt(None);
    let array = Array::Boolean(builder.finish());
    assert_eq!(array.len(), 4);
    assert_eq!(array.scalar_value(0), Scalar::Boolean(true));
    assert_eq!(array.scalar_value(1), Scalar::Null);
    assert_eq!(array.scalar_value(2), Scalar::Boolean(false));
    assert_eq!(array.scalar_value(3), Scalar::Null);
}

#[test]
fn string_builder_keeps_texts_and_nulls() {
    let mut builder = StringBuilder::new();
    builder.append("");
    builder.append("héllo wörld");
    builder.append_null();
    builder.append_opt(Some("日本語"));
    builder.append_opt(None);
    builder.append("x");
    let array = Array::String(builder.finish());
    assert_eq!(array.len(), 6);
    assert_eq!(array.scalar_value(0), Scalar::String(String::new()));
    assert_eq!(
        array.scalar_value(1),
        Scalar::String("héllo wörld".to_string())
    );
    assert_eq!(array.scalar_value(2), Scalar::Null);
    assert_eq!(array.scalar_value(3), Scalar::String("日本語".to_string()));
    assert_eq!(array.scalar_value(4), Scalar::Null);
    assert_eq!(array.scalar_value(5), Scalar::String("x".to_string()));
}

#[test]
fn null_array_is_all_null() {
    let array = Array::new_null(3);
    assert_eq!(array.len(), 3);
    assert_eq!(array.data_type(), DataType::Null);
    assert_eq!(array.scalar_value(2), Scalar::Null);
}

#[test]
fn timestamp_scalar_array_repeats_its_value() {
    let array = Array::new_timestamp_scalar(TimeUnit::Millisecond, 3, Some(42));
    assert_eq!(array.len(), 3);
    assert_eq!(array.data_type(), DataType::Timestamp(TimeUnit::Millisecond));
    assert_eq!(array.scalar_value(0), Scalar::Timestamp(42));
    assert_eq!(array.scalar_value(2), Scalar::Timestamp(42));
    let nulls = Array::new_timestamp_scalar(TimeUnit::Second, 2, None);
    assert_eq!(nulls.scalar_value(1), Scalar::Null);
}

#[test]
fn materialize_stores_a_value_of_another_type_as_null() {
    let scalars = vec![
        Scalar::Int32(1),
        Scalar::Int64(2),
        Scalar::Null,
        Scalar::String("3".to_string()),
        Scalar::Int32(-4),
    ];
    let array = Array::materialize(DataType::Int32, &scalars);
    assert_eq!(array.data_type(), DataType::Int32);
    assert_eq!(array.len(), 5);
    assert_eq!(array.scalar_value(0), Scalar::Int32(1));
    assert_eq!(array.scalar_value(1), Scalar::Null);
    assert_eq!(array.scalar_value(2), Scalar::Null);
    assert_eq!(array.scalar_value(3), Scalar::Null);
    assert_eq!(array.scalar_value(4), Scalar::Int32(-4));
}

#[test]
fn materialize_every_type() {
    let cases = vec![
        (DataType::Int8, Scalar::Int8(-8)),
        (DataType::Int16, Scalar::Int16(16)),
        (DataType::Int32, Scalar::Int32(32)),
        (DataType::Int64, Scalar::Int64(64)),
        (DataType::Float32, Scalar::Float32(1.5f32.to_bits())),
        (DataType::Float64, Scalar::Float64((-2.25f64).to_bits())),
        (DataType::Boolean, Scalar::Boolean(true)),
        (
            DataType::Timestamp(TimeUnit::Nanosecond),
            Scalar::Timestamp(99),
        ),
        (DataType::String, Scalar::String("s".to_string())),
    ];
    for (data_type, scalar) in cases {
        let array = Array::materialize(data_type, &vec![scalar.clone(), Scalar::Null]);
        assert_eq!(array.data_type(), data_type);
        assert_eq!(array.scalar_value(0), scalar);
        assert_eq!(array.scalar_value(1), Scalar::Null);
    }
    let nulls = Array::materialize(DataType::Null, &vec![Scalar::Int8(1), Scalar::Null]);
    assert_eq!(nulls.len(), 2);
    assert_eq!(nulls.scalar_value(0), Scalar::Null);
}

#[test]
fn scalars_compare_by_value() {
    assert!(Scalar::Null.same(&Scalar::Null));
    assert!(Scalar::String("a".to_string()).same(&Scalar::String("a".to_string())));
    assert!(!Scalar::String("a".to_string()).same(&Scalar::String("b".to_string())));
    assert!(!Scalar::Int32(1).same(&Scalar::Int64(1)));
    assert!(!Scalar::Timestamp(1).same(&Scalar::Int64(1)));
    assert!(Scalar::Float64(0.5f64.to_bits()).same(&Scalar::Float64(0.5f64.to_bits())));
    assert!(Scalar::Null.is_null());
    assert!(!Scalar::Boolean(false).is_null());
    let text = Scalar::String("dup".to_string());
    assert_eq!(text.duplicate(), text);
}

fn two_fields() -> Vec<Field> {
    vec![
        Field::new("a", DataType::Int64),
        Field::new("b", DataType::String),
    ]
}

#[test]
fn schema_refuses_duplicate_names() {
    let schema = Schema::try_new(two_fields()).unwrap();
    assert_eq!(schema.len(), 2);
    assert_eq!(schema.data_type(1), DataType::String);
    assert_eq!(schema.fields()[0].name, "a");
    let twice = vec![
        Field::new("a", DataType::Int64),
        Field::new("b", DataType::String),
        Field::new("a", DataType::Boolean),
    ];
    assert_eq!(Schema::try_new(twice).err(), Some(Error::InvalidSchema));
    assert!(Schema::try_new(vec![]).is_ok());
}

#[test]
fn dataset_wants_columns_that_fit_the_schema() {
    let ints = || Array::materialize(DataType::Int64, &vec![Scalar::Int64(1), Scalar::Int64(2)]);
    let texts = |n: usize| {
        Array::materialize(
            DataType::String,
            &(0..n)
                .map(|i| Scalar::String(format!("t{}", i)))
                .collect(),
        )
    };
    let schema = || Schema::try_new(two_fields()).unwrap();
    let dataset = DataSet::try_new(schema(), vec![ints(), texts(2)]).unwrap();
    assert_eq!(dataset.num_rows(), 2);
    assert_eq!(dataset.num_columns(), 2);
    assert_eq!(dataset.column(1).scalar_value(1), Scalar::String("t1".to_string()));
    assert_eq!(dataset.schema().len(), 2);

    // another count of columns
    assert_eq!(
        DataSet::try_new(schema(), vec![ints()]).err(),
        Some(Error::InvalidSchema)
    );
    // another type
    assert_eq!(
        DataSet::try_new(schema(), vec![texts(2), ints()]).err(),
        Some(Error::InvalidSchema)
    );
    // unequal lengths
    assert_eq!(
        DataSet::try_new(schema(), vec![ints(), texts(3)]).err(),
        Some(Error::InvalidSchema)
    );
}

#[test]
fn take_rows_picks_rows_in_the_given_order() {
    let schema = Schema::try_new(two_fields()).unwrap();
    let dataset = DataSet::try_new(
        schema,
        vec![
            Array::materialize(
                DataType::Int64,
                &vec![Scalar::Int64(10), Scalar::Null, Scalar::Int64(30)],
            ),
            Array::materialize(
                DataType::String,
                &vec![
                    Scalar::String("x".to_string()),
                    Scalar::String("y".to_string()),
                    Scalar::Null,
                ],
            ),
        ],
    )
    .unwrap();
    let taken = dataset.take_rows(&vec![2, 0, 2]);
    assert_eq!(taken.num_rows(), 3);
    assert_eq!(taken.column(0).scalar_value(0), Scalar::Int64(30));
    assert_eq!(taken.column(0).scalar_value(1), Scalar::Int64(10));
    assert_eq!(taken.column(0).scalar_value(2), Scalar::Int64(30));
    assert_eq!(taken.column(1).scalar_value(0), Scalar::Null);
    assert_eq!(taken.column(1).scalar_value(1), Scalar::String("x".to_string()));
    let none = dataset.take_rows(&vec![]);
    assert_eq!(none.num_rows(), 0);
    assert_eq!(none.num_columns(), 2);
}
