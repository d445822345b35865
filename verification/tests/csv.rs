use yql_core::array::{DataType, Scalar, TimeUnit};
use yql_core::csv::{
    append_data, classify_field, create_builders, create_dataset, default_delimiter,
    infer_field_schema, read_records, resolve_type, ColumnBuilder, CsvCell, CsvOptions,
};
use yql_core::error::Error;
use yql_core::schema::{DataSet, Field, Schema};
use yql_core::text::parse_integer;

fn cell(text: &str) -> CsvCell {
    CsvCell {
        text: text.to_string(),
        float32: text.parse::<f32>().ok().map(f32::to_bits),
        float64: text.parse::<f64>().ok().map(f64::to_bits),
    }
}

fn record(fields: &[&str]) -> Vec<CsvCell> {
    fields.iter().map(|f| cell(f)).collect()
}

fn texts(fields: &[&str]) -> Vec<String> {
    fields.iter().map(|f| f.to_string()).collect()
}

fn rows(dataset: &DataSet) -> Vec<Vec<Scalar>> {
    (0..dataset.num_rows())
        .map(|r| {
            (0..dataset.num_columns())
                .map(|c| dataset.column(c).scalar_value(r))
                .collect()
        })
        .collect()
}

#[test]
fn options_default_to_comma_and_no_header() {
    assert_eq!(default_delimiter(), b',');
    let options = CsvOptions::default();
    assert_eq!(options.delimiter, b',');
    assert!(!options.has_header);
}

#[test]
fn field_types_are_inferred_by_the_patterns() {
    assert_eq!(infer_field_schema("12"), DataType::Int64);
    assert_eq!(infer_field_schema("-12"), DataType::Int64);
    assert_eq!(infer_field_schema("007"), DataType::Int64);
    assert_eq!(infer_field_schema("1.5"), DataType::Float64);
    assert_eq!(infer_field_schema("-0.25"), DataType::Float64);
    assert_eq!(infer_field_schema("true"), DataType::Boolean);
    assert_eq!(infer_field_schema("FALSE"), DataType::Boolean);
    assert_eq!(infer_field_schema("True"), DataType::Boolean);
    assert_eq!(infer_field_schema("abc"), DataType::String);
    assert_eq!(infer_field_schema(""), DataType::String);
    assert_eq!(infer_field_schema("1."), DataType::String);
    assert_eq!(infer_field_schema(".5"), DataType::String);
    assert_eq!(infer_field_schema("+5"), DataType::String);
    assert_eq!(infer_field_schema("1e5"), DataType::String);
    assert_eq!(infer_field_schema(" 12"), DataType::String);
    assert_eq!(infer_field_schema("12 "), DataType::String);
    assert_eq!(infer_field_schema("truely"), DataType::String);
    assert_eq!(infer_field_schema("1.2.3"), DataType::String);
    assert_eq!(infer_field_schema("12\n13"), DataType::String);
}

#[test]
fn a_quoted_field_is_a_string() {
    assert_eq!(infer_field_schema("\"12\""), DataType::String);
    assert_eq!(infer_field_schema("\"true"), DataType::String);
    assert_eq!(infer_field_schema("\""), DataType::String);
}

#[test]
fn classify_field_takes_the_first_that_matches() {
    assert_eq!(
        classify_field(true, Some(true), Some(true), Some(true)),
        DataType::String
    );
    assert_eq!(
        classify_field(false, Some(true), Some(true), Some(true)),
        DataType::Boolean
    );
    assert_eq!(
        classify_field(false, Some(false), Some(true), Some(true)),
        DataType::Float64
    );
    assert_eq!(
        classify_field(false, None, Some(false), Some(true)),
        DataType::Int64
    );
    assert_eq!(
        classify_field(false, Some(false), Some(false), Some(false)),
        DataType::String
    );
    assert_eq!(classify_field(false, None, None, None), DataType::String);
}

#[test]
fn column_types_are_resolved() {
    // string, boolean, float, integer
    assert_eq!(resolve_type(false, false, false, true), DataType::Int64);
    assert_eq!(resolve_type(false, false, true, false), DataType::Float64);
    assert_eq!(resolve_type(false, false, true, true), DataType::Float64);
    // Booleans are recognised in a field, but a column of them stays text.
    assert_eq!(resolve_type(false, true, false, false), DataType::String);
    assert_eq!(resolve_type(true, false, false, false), DataType::String);
    assert_eq!(resolve_type(false, true, false, true), DataType::String);
    assert_eq!(resolve_type(false, true, true, false), DataType::String);
    assert_eq!(resolve_type(true, false, false, true), DataType::String);
    assert_eq!(resolve_type(false, true, true, true), DataType::String);
    assert_eq!(resolve_type(false, false, false, false), DataType::String);
}

#[test]
fn schema_of_a_file_without_header() {
    let options = CsvOptions::default();
    let records = vec![
        texts(&["1", "2.5", "true", "x", "7"]),
        texts(&["2", "3", "false", "4", ""]),
        texts(&["3", "4.25"]),
    ];
    let schema = options.infer_schema(&records[0], &records).unwrap();
    let names: Vec<&str> = schema.fields().iter().map(|f| f.name.as_str()).collect();
    assert_eq!(names, vec!["c1", "c2", "c3", "c4", "c5"]);
    let types: Vec<DataType> = schema.fields().iter().map(|f| f.data_type).collect();
    assert_eq!(
        types,
        vec![
            DataType::Int64,
            DataType::Float64,
            DataType::String,
            DataType::String,
            DataType::String,
        ]
    );
}

#[test]
fn schema_of_a_file_with_header() {
    let options = CsvOptions {
        delimiter: b';',
        has_header: true,
    };
    let header = texts(&["id", "price", "note"]);
    let records = vec![texts(&["1", "2", "a"]), texts(&["2", "3.5", "b"])];
    let schema = options.infer_schema(&header, &records).unwrap();
    assert_eq!(
        schema.fields().clone(),
        vec![
            Field::new("id", DataType::Int64),
            Field::new("price", DataType::Float64),
            Field::new("note", DataType::String),
        ]
    );
    // a column without any field is a string column
    let empty = options.infer_schema(&header, &vec![]).unwrap();
    assert_eq!(empty.data_type(0), DataType::String);
}

#[test]
fn a_header_that_names_two_columns_alike_is_refused() {
    let options = CsvOptions {
        delimiter: b',',
        has_header: true,
    };
    let header = texts(&["a", "b", "a"]);
    assert_eq!(
        options.infer_schema(&header, &vec![]).err(),
        Some(Error::InvalidSchema)
    );
}

#[test]
fn columns_are_numbered_in_decimal() {
    let options = CsvOptions::default();
    let first: Vec<String> = (0..120).map(|i| i.to_string()).collect();
    let schema = options.infer_schema(&first, &vec![]).unwrap();
    assert_eq!(schema.fields()[0].name, "c1");
    assert_eq!(schema.fields()[8].name, "c9");
    assert_eq!(schema.fields()[9].name, "c10");
    assert_eq!(schema.fields()[99].name, "c100");
    assert_eq!(schema.fields()[119].name, "c120");
}

#[test]
fn integers_are_read_as_rust_reads_them() {
    assert_eq!(parse_integer("0"), Some(0));
    assert_eq!(parse_integer("+15"), Some(15));
    assert_eq!(parse_integer("-15"), Some(-15));
    assert_eq!(parse_integer("0015"), Some(15));
    assert_eq!(parse_integer("9223372036854775807"), Some(i64::MAX));
    assert_eq!(parse_integer("-9223372036854775808"), Some(i64::MIN));
    assert_eq!(parse_integer("9223372036854775808"), None);
    assert_eq!(parse_integer("-9223372036854775809"), None);
    assert_eq!(parse_integer("99999999999999999999999999999999999999999"), None);
    assert_eq!(parse_integer(""), None);
    assert_eq!(parse_integer("-"), None);
    assert_eq!(parse_integer("+"), None);
    assert_eq!(parse_integer("1 "), None);
    assert_eq!(parse_integer(" 1"), None);
    assert_eq!(parse_integer("1.0"), None);
    assert_eq!(parse_integer("--1"), None);
    assert_eq!(parse_integer("١٢"), None);
    for text in ["0", "+15", "-15", "0015", "", "-", "1 ", "12a", "-0"] {
        assert_eq!(parse_integer(text), text.parse::<i64>().ok());
    }
}

fn all_types() -> Schema {
    Schema::try_new(vec![
        Field::new("n", DataType::Null),
        Field::new("i8", DataType::Int8),
        Field::new("i16", DataType::Int16),
        Field::new("i32", DataType::Int32),
        Field::new("i64", DataType::Int64),
        Field::new("f32", DataType::Float32),
        Field::new("f64", DataType::Float64),
        Field::new("b", DataType::Boolean),
        Field::new("t", DataType::Timestamp(TimeUnit::Millisecond)),
        Field::new("s", DataType::String),
    ])
    .unwrap()
}

#[test]
fn records_become_a_dataset() {
    let schema = all_types();
    let records = vec![
        record(&["x", "-128", "300", "-70000", "5000000000", "1.5", "-2.25", "true", "1600000000000", "héllo"]),
        record(&["", "127", "-300", "70000", "-5", "0.1", "1e3", "false", "-1", ""]),
        record(&["y", "1"]),
    ];
    let dataset = read_records(&schema, &records).unwrap();
    assert_eq!(dataset.num_rows(), 3);
    assert_eq!(
        rows(&dataset),
        vec![
            vec![
                Scalar::Null,
                Scalar::Int8(-128),
                Scalar::Int16(300),
                Scalar::Int32(-70000),
                Scalar::Int64(5000000000),
                Scalar::Float32(1.5f32.to_bits()),
                Scalar::Float64((-2.25f64).to_bits()),
                Scalar::Boolean(true),
                Scalar::Timestamp(1600000000000),
                Scalar::String("héllo".to_string()),
            ],
            vec![
                Scalar::Null,
                Scalar::Int8(127),
                Scalar::Int16(-300),
                Scalar::Int32(70000),
                Scalar::Int64(-5),
                Scalar::Float32(0.1f32.to_bits()),
                Scalar::Float64(1000f64.to_bits()),
                Scalar::Boolean(false),
                Scalar::Timestamp(-1),
                Scalar::String(String::new()),
            ],
            vec![
                Scalar::Null,
                Scalar::Int8(1),
                Scalar::Null,
                Scalar::Null,
                Scalar::Null,
                Scalar::Null,
                Scalar::Null,
                Scalar::Null,
                Scalar::Null,
                Scalar::Null,
            ],
        ]
    );
}

#[test]
fn the_first_field_that_is_no_value_is_named() {
    let schema = Schema::try_new(vec![
        Field::new("a", DataType::Int8),
        Field::new("b", DataType::Boolean),
    ])
    .unwrap();
    let records = vec![
        record(&["1", "maybe"]),
        record(&["2", "true"]),
        record(&["128", "nope"]),
        record(&["x", "true"]),
    ];
    // columns are filled one after the other: the first column fails first
    assert_eq!(
        read_records(&schema, &records).err(),
        Some(Error::CsvValue { column: 0, row: 2 })
    );
    let records = vec![record(&["1", "true"]), record(&["2", "True"])];
    assert_eq!(
        read_records(&schema, &records).err(),
        Some(Error::CsvValue { column: 1, row: 1 })
    );
    let floats = Schema::try_new(vec![Field::new("f", DataType::Float64)]).unwrap();
    assert_eq!(
        read_records(&floats, &vec![record(&["1.5"]), record(&["one"])]).err(),
        Some(Error::CsvValue { column: 0, row: 1 })
    );
}

#[test]
fn builders_are_created_appended_to_and_finished() {
    let schema = Schema::try_new(vec![
        Field::new("a", DataType::Int64),
        Field::new("b", DataType::String),
    ])
    .unwrap();
    let mut builders = create_builders(&schema);
    assert_eq!(builders.len(), 2);
    assert!(matches!(builders[0], ColumnBuilder::Int64(_)));
    assert!(matches!(builders[1], ColumnBuilder::String(_)));
    assert_eq!(
        append_data(&schema, &mut builders, &vec![record(&["1", "x"])]),
        Ok(())
    );
    assert_eq!(
        append_data(&schema, &mut builders, &vec![record(&["2", "y"]), record(&["3"])]),
        Ok(())
    );
    let dataset = create_dataset(schema, builders).unwrap();
    assert_eq!(
        rows(&dataset),
        vec![
            vec![Scalar::Int64(1), Scalar::String("x".to_string())],
            vec![Scalar::Int64(2), Scalar::String("y".to_string())],
            vec![Scalar::Int64(3), Scalar::Null],
        ]
    );
}

#[test]
fn builders_that_do_not_fit_the_schema_make_no_dataset() {
    let schema = || {
        Schema::try_new(vec![
            Field::new("a", DataType::Int64),
            Field::new("b", DataType::String),
        ])
        .unwrap()
    };
    assert_eq!(
        create_dataset(schema(), vec![ColumnBuilder::new(DataType::Int64)]).err(),
        Some(Error::InvalidSchema)
    );
    assert_eq!(
        create_dataset(
            schema(),
            vec![
                ColumnBuilder::new(DataType::String),
                ColumnBuilder::new(DataType::Int64)
            ]
        )
        .err(),
        Some(Error::InvalidSchema)
    );
    let mut longer = ColumnBuilder::new(DataType::Int64);
    longer.append_null();
    assert_eq!(
        create_dataset(schema(), vec![longer, ColumnBuilder::new(DataType::String)]).err(),
        Some(Error::InvalidSchema)
    );
    assert!(create_dataset(
        schema(),
        vec![
            ColumnBuilder::new(DataType::Int64),
            ColumnBuilder::new(DataType::String)
        ]
    )
    .is_ok());
}

#[test]
fn a_reader_reads_batch_after_batch() {
    let schema = Schema::try_new(vec![Field::new("a", DataType::Int64)]).unwrap();
    let records: Vec<Vec<CsvCell>> = (0..10).map(|i| record(&[&i.to_string()])).collect();
    let mut reader = CsvOptions::default().open(schema, records);
    assert_eq!(reader.skip(2), Ok(()));
    let first = reader.read_batch(Some(3)).unwrap();
    assert_eq!(
        rows(&first),
        vec![
            vec![Scalar::Int64(2)],
            vec![Scalar::Int64(3)],
            vec![Scalar::Int64(4)]
        ]
    );
    assert_eq!(reader.read_batch(Some(0)).unwrap().num_rows(), 0);
    let rest = reader.read_batch(None).unwrap();
    assert_eq!(rest.num_rows(), 5);
    assert_eq!(rest.column(0).scalar_value(4), Scalar::Int64(9));
    assert_eq!(reader.read_batch(Some(4)).unwrap().num_rows(), 0);
    assert_eq!(reader.skip(100), Ok(()));
    assert_eq!(reader.read_batch(None).unwrap().num_rows(), 0);
}
