//! CSV as a source of datasets: the schema that the records of a file
//! suggest, and the datasets that its records make under a schema.
//!
//! The records are handed over as they were read: a record is the texts of
//! its fields.

use vstd::prelude::*;
use vstd::slice::slice_subrange;
use crate::array::Array;
use crate::array::ArrayView;
use crate::array::DataType;
use crate::array::PrimitiveBuilder;
use crate::array::ScalarValue;
use crate::array::StringBuilder;
use crate::array::TimeUnit;
use crate::array::lift;
use crate::array::lift_strings;
use crate::schema::DataSet;
use crate::schema::DataSetView;
use crate::schema::array_views;
use crate::schema::arrays_wf;
use crate::text::integer_text;
use crate::text::parse_integer;
use crate::text::same_text;
use crate::error::Error;
use crate::schema::Field;
use crate::schema::FieldView;
use crate::schema::Schema;
use crate::schema::field_views;
use crate::schema::unique_names;
use crate::text::push_char;

verus! {

/// How a CSV text is cut into records and fields.
#[derive(Clone, Copy, Debug, PartialEq, Eq, Structural)]
pub struct CsvOptions {
    /// The byte between two fields.
    pub delimiter: u8,
    /// Whether the first record holds the names of the columns.
    pub has_header: bool,
}

/// The delimiter of a CSV text where none is given: a comma.
pub fn default_delimiter() -> (delimiter: u8)
    ensures
        delimiter == 0x2c,
{
    0x2c
}

impl Default for CsvOptions {
    fn default() -> (options: Self)
        ensures
            options == (CsvOptions { delimiter: 0x2c, has_header: false }),
    {
        CsvOptions { delimiter: default_delimiter(), has_header: false }
    }
}

/// Whether the regular expression `pattern` matches somewhere in `text`,
/// as the `regex` crate decides it; nothing where `pattern` is no regular
/// expression.
pub uninterp spec fn regex_match(pattern: Seq<char>, text: Seq<char>) -> Option<bool>;

/// `Regex::new` and `Regex::is_match` of the `regex` crate: whether
/// `pattern` matches somewhere in `text`; nothing where `pattern` cannot be
/// compiled.
#[verifier::external_body]
fn pattern_matches(pattern: &str, text: &str) -> (matched: Option<bool>)
    ensures
        matched == regex_match(pattern@, text@),
{
    match regex::Regex::new(pattern) {
        Ok(compiled) => Some(compiled.is_match(text)),
        Err(_) => None,
    }
}

/// The pattern of a boolean field: `true` or `false`, in any letter case.
pub open spec fn boolean_pattern() -> Seq<char> {
    "(?i)^(true)$|^(false)$"@
}

/// The pattern of a decimal field: digits on both sides of a point, maybe
/// behind a minus sign.
pub open spec fn decimal_pattern() -> Seq<char> {
    "^-?(\\d+\\.\\d+)$"@
}

/// The pattern of an integer field: digits, maybe behind a minus sign.
pub open spec fn integer_pattern() -> Seq<char> {
    "^-?(\\d+)$"@
}

/// The type that a field suggests, given whether it starts with a double
/// quote and which of the three patterns match it: a quoted field is a
/// string; otherwise the first pattern that matches decides, the boolean
/// before the decimal before the integer; a field that none matches is a
/// string.
pub open spec fn field_type(
    quoted: bool,
    boolean: Option<bool>,
    decimal: Option<bool>,
    integer: Option<bool>,
) -> DataType {
    if quoted {
        DataType::String
    } else if boolean == Some(true) {
        DataType::Boolean
    } else if decimal == Some(true) {
        DataType::Float64
    } else if integer == Some(true) {
        DataType::Int64
    } else {
        DataType::String
    }
}

/// The type that a field suggests; see [`field_type`].
pub fn classify_field(
    quoted: bool,
    boolean: Option<bool>,
    decimal: Option<bool>,
    integer: Option<bool>,
) -> (data_type: DataType)
    ensures
        data_type == field_type(quoted, boolean, decimal, integer),
{
    if quoted {
        DataType::String
    } else if matches!(boolean, Some(true)) {
        DataType::Boolean
    } else if matches!(decimal, Some(true)) {
        DataType::Float64
    } else if matches!(integer, Some(true)) {
        DataType::Int64
    } else {
        DataType::String
    }
}

/// The type that the text of a field suggests.
pub open spec fn inferred_type(text: Seq<char>) -> DataType {
    field_type(
        text.len() > 0 && text[0] == '"',
        regex_match(boolean_pattern(), text),
        regex_match(decimal_pattern(), text),
        regex_match(integer_pattern(), text),
    )
}

/// The type that the text of a field suggests: a string where it starts
/// with a double quote, else what the patterns say of it.
pub fn infer_field_schema(string: &str) -> (data_type: DataType)
    ensures
        data_type == inferred_type(string@),
{
    let quoted = string.unicode_len() > 0 && string.get_char(0) == '"';
    if quoted {
        return DataType::String;
    }
    let boolean = pattern_matches("(?i)^(true)$|^(false)$", string);
    if matches!(boolean, Some(true)) {
        return DataType::Boolean;
    }
    let decimal = pattern_matches("^-?(\\d+\\.\\d+)$", string);
    if matches!(decimal, Some(true)) {
        return DataType::Float64;
    }
    let integer = pattern_matches("^-?(\\d+)$", string);
    classify_field(quoted, boolean, decimal, integer)
}

/// The character of a decimal digit.
pub open spec fn digit_char(digit: int) -> char {
    ((48 + digit) as u8) as char
}

/// The decimal digits of a number.
pub open spec fn number_text(n: nat) -> Seq<char>
    decreases n,
{
    if n < 10 {
        seq![digit_char(n as int)]
    } else {
        number_text(n / 10).push(digit_char((n % 10) as int))
    }
}

/// The name of the column `index` of a file without header, counted from
/// zero: `c1`, `c2`, and so on.
pub open spec fn column_name(index: nat) -> Seq<char> {
    seq!['c'] + number_text(index + 1)
}

/// Appends the decimal digits of a number.
fn write_number(text: &mut String, n: usize)
    ensures
        final(text)@ == old(text)@ + number_text(n as nat),
    decreases n,
{
    if n >= 10 {
        write_number(text, n / 10);
    }
    let digit = (48 + (n % 10) as u8) as char;
    push_char(text, digit);
    assert(text@ =~= old(text)@ + number_text(n as nat));
}

/// The texts of the fields of a record.
pub open spec fn texts(record: Seq<String>) -> Seq<Seq<char>> {
    record.map_values(|field: String| field@)
}

/// The texts of the fields of records.
pub open spec fn tables(records: Seq<Vec<String>>) -> Seq<Seq<Seq<char>>> {
    records.map_values(|record: Vec<String>| texts(record@))
}

/// Whether the record `row` has a field in the column `column` that
/// suggests the type `kind`.
pub open spec fn suggests(
    records: Seq<Seq<Seq<char>>>,
    row: int,
    column: int,
    kind: DataType,
) -> bool {
    &&& 0 <= row < records.len()
    &&& 0 <= column < records[row].len()
    &&& inferred_type(records[row][column]) == kind
}

/// Whether one of the first `rows` records suggests the type `kind` for
/// the column `column`.
pub open spec fn seen(records: Seq<Seq<Seq<char>>>, column: int, kind: DataType, rows: int) -> bool {
    exists|row: int| row < rows && suggests(records, row, column, kind)
}

/// The type of a column, given which types its fields suggest: 64-bit
/// integers where they suggest nothing else; 64-bit floating point where
/// they suggest that, alone or beside 64-bit integers; a string in every
/// other case: where a field is a string or a boolean, and where the column
/// has no field at all.
pub open spec fn resolved_type(string: bool, boolean: bool, float: bool, integer: bool) -> DataType {
    if string || boolean {
        DataType::String
    } else if float {
        DataType::Float64
    } else if integer {
        DataType::Int64
    } else {
        DataType::String
    }
}

/// The type of a column; see [`resolved_type`].
pub fn resolve_type(string: bool, boolean: bool, float: bool, integer: bool) -> (data_type:
    DataType)
    ensures
        data_type == resolved_type(string, boolean, float, integer),
{
    let numbers_only = !string && !boolean;
    if numbers_only && float {
        DataType::Float64
    } else if numbers_only && integer {
        DataType::Int64
    } else {
        DataType::String
    }
}

/// The type that the records suggest for a column.
pub open spec fn column_type(records: Seq<Seq<Seq<char>>>, column: int) -> DataType {
    resolved_type(
        seen(records, column, DataType::String, records.len() as int),
        seen(records, column, DataType::Boolean, records.len() as int),
        seen(records, column, DataType::Float64, records.len() as int),
        seen(records, column, DataType::Int64, records.len() as int),
    )
}

/// The fields that the records of a file suggest: one for each field of
/// the first record; named by the first record where the file has a
/// header, `c1`, `c2` and so on where it has none.
pub open spec fn inferred_fields(
    has_header: bool,
    first: Seq<Seq<char>>,
    records: Seq<Seq<Seq<char>>>,
) -> Seq<FieldView> {
    Seq::new(
        first.len(),
        |i: int|
            FieldView {
                name: if has_header {
                    first[i]
                } else {
                    column_name(i as nat)
                },
                data_type: column_type(records, i),
            },
    )
}

/// Which types the fields of a column have suggested so far.
struct Suggested {
    string: bool,
    boolean: bool,
    float: bool,
    integer: bool,
}

impl Suggested {
    spec fn tells(self, records: Seq<Seq<Seq<char>>>, column: int, rows: int) -> bool {
        &&& self.string == seen(records, column, DataType::String, rows)
        &&& self.boolean == seen(records, column, DataType::Boolean, rows)
        &&& self.float == seen(records, column, DataType::Float64, rows)
        &&& self.integer == seen(records, column, DataType::Int64, rows)
    }
}

/// One more record adds what it suggests to what was seen.
proof fn lemma_seen_step(records: Seq<Seq<Seq<char>>>, column: int, kind: DataType, rows: int)
    ensures
        seen(records, column, kind, rows + 1) == (seen(records, column, kind, rows) || suggests(
            records,
            rows,
            column,
            kind,
        )),
{
    if seen(records, column, kind, rows + 1) {
        let row = choose|row: int| row < rows + 1 && suggests(records, row, column, kind);
        if row < rows {
            assert(seen(records, column, kind, rows));
        }
    }
    if seen(records, column, kind, rows) {
        let row = choose|row: int| row < rows && suggests(records, row, column, kind);
        assert(row < rows + 1 && suggests(records, row, column, kind));
    }
    if suggests(records, rows, column, kind) {
        assert(rows < rows + 1 && suggests(records, rows, column, kind));
    }
}

impl CsvOptions {
    /// The schema that the records of a file suggest. `first` is the first
    /// record of the file, `records` are its data records: all but the
    /// first where the file has a header, all where it has none.
    ///
    /// A schema has no two fields of one name: a header that names two
    /// columns alike is refused.
    pub fn infer_schema(&self, first: &Vec<String>, records: &Vec<Vec<String>>) -> (made: Result<
        Schema,
        Error,
    >)
        ensures
            made is Ok <==> unique_names(
                inferred_fields(self.has_header, texts(first@), tables(records@)),
            ),
            made matches Ok(schema) ==> schema@ == inferred_fields(
                self.has_header,
                texts(first@),
                tables(records@),
            ),
            made matches Err(e) ==> e == Error::InvalidSchema,
    {
        let ghost table = tables(records@);
        let ghost expected = inferred_fields(self.has_header, texts(first@), table);
        let width = first.len();
        let mut flags: Vec<Suggested> = Vec::with_capacity(width);
        let mut i: usize = 0;
        while i < width
            invariant
                i <= width,
                flags.len() == i,
                forall|j: int| 0 <= j < i ==> (#[trigger] flags@[j]).tells(table, j, 0),
            decreases width - i,
        {
            flags.push(Suggested { string: false, boolean: false, float: false, integer: false });
            i += 1;
        }
        let mut row: usize = 0;
        while row < records.len()
            invariant
                row <= records.len(),
                table == tables(records@),
                flags.len() == width,
                forall|j: int| 0 <= j < width ==> (#[trigger] flags@[j]).tells(table, j, row as int),
            decreases records.len() - row,
        {
            let record = &records[row];
            assert(table[row as int] == texts(record@));
            let mut column: usize = 0;
            while column < width
                invariant
                    column <= width,
                    row < records.len(),
                    table == tables(records@),
                    table[row as int] == texts(record@),
                    flags.len() == width,
                    forall|j: int|
                        0 <= j < column ==> (#[trigger] flags@[j]).tells(table, j, row + 1),
                    forall|j: int|
                        column <= j < width ==> (#[trigger] flags@[j]).tells(table, j, row as int),
                decreases width - column,
            {
                proof {
                    lemma_seen_step(table, column as int, DataType::String, row as int);
                    lemma_seen_step(table, column as int, DataType::Boolean, row as int);
                    lemma_seen_step(table, column as int, DataType::Float64, row as int);
                    lemma_seen_step(table, column as int, DataType::Int64, row as int);
                }
                if column < record.len() {
                    let kind = infer_field_schema(record[column].as_str());
                    assert(table[row as int][column as int] == record@[column as int]@);
                    let was = &flags[column];
                    let now = Suggested {
                        string: was.string || kind == DataType::String,
                        boolean: was.boolean || kind == DataType::Boolean,
                        float: was.float || kind == DataType::Float64,
                        integer: was.integer || kind == DataType::Int64,
                    };
                    flags[column] = now;
                }
                column += 1;
            }
            row += 1;
        }
        let mut fields: Vec<Field> = Vec::with_capacity(width);
        let mut c: usize = 0;
        while c < width
            invariant
                c <= width,
                width == first@.len(),
                table == tables(records@),
                expected == inferred_fields(self.has_header, texts(first@), table),
                flags.len() == width,
                fields.len() == c,
                forall|j: int|
                    0 <= j < width ==> (#[trigger] flags@[j]).tells(
                        table,
                        j,
                        records@.len() as int,
                    ),
                forall|j: int| 0 <= j < c ==> (#[trigger] fields@[j])@ == expected[j],
            decreases width - c,
        {
            let seen = &flags[c];
            let data_type = resolve_type(seen.string, seen.boolean, seen.float, seen.integer);
            let name = if self.has_header {
                first[c].clone()
            } else {
                let mut name = String::new();
                push_char(&mut name, 'c');
                write_number(&mut name, c + 1);
                assert(name@ =~= column_name(c as nat));
                name
            };
            assert(texts(first@)[c as int] == first@[c as int]@);
            fields.push(Field { name, data_type });
            c += 1;
        }
        assert(field_views(fields@) =~= expected);
        Schema::try_new(fields)
    }
}

/// A field of a record: its text, and the floating-point numbers that the
/// text writes, as bit patterns, where it writes one.
#[derive(Clone, Debug, PartialEq, Eq)]
pub struct CsvCell {
    pub text: String,
    pub float32: Option<u32>,
    pub float64: Option<u64>,
}

/// The mathematical value of a [`CsvCell`].
pub struct CsvCellView {
    pub text: Seq<char>,
    pub float32: Option<u32>,
    pub float64: Option<u64>,
}

impl View for CsvCell {
    type V = CsvCellView;

    open spec fn view(&self) -> CsvCellView {
        CsvCellView { text: self.text@, float32: self.float32, float64: self.float64 }
    }
}

/// The views of the fields of a record.
pub open spec fn cell_views(record: Seq<CsvCell>) -> Seq<CsvCellView> {
    record.map_values(|cell: CsvCell| cell@)
}

/// The views of records.
pub open spec fn record_views(records: Seq<Vec<CsvCell>>) -> Seq<Seq<CsvCellView>> {
    records.map_values(|record: Vec<CsvCell>| cell_views(record@))
}

/// The integer that a text writes, where it lies from `low` to `high`.
pub open spec fn integer_within(text: Seq<char>, low: int, high: int) -> Option<int> {
    match integer_text(text) {
        Some(v) => if low <= v <= high {
            Some(v)
        } else {
            None
        },
        None => None,
    }
}

/// The value of a field in a column of type `data_type`, or nothing where
/// the field is no value of that type. Integers and timestamps are written
/// in decimal digits, maybe behind a sign; booleans as `true` or `false`;
/// a string is the text itself; in a column of nulls every field is null.
pub open spec fn cell_value(data_type: DataType, cell: CsvCellView) -> Option<ScalarValue> {
    match data_type {
        DataType::Null => Some(ScalarValue::Null),
        DataType::Int8 => match integer_within(cell.text, i8::MIN as int, i8::MAX as int) {
            Some(v) => Some(ScalarValue::Int8(v as i8)),
            None => None,
        },
        DataType::Int16 => match integer_within(cell.text, i16::MIN as int, i16::MAX as int) {
            Some(v) => Some(ScalarValue::Int16(v as i16)),
            None => None,
        },
        DataType::Int32 => match integer_within(cell.text, i32::MIN as int, i32::MAX as int) {
            Some(v) => Some(ScalarValue::Int32(v as i32)),
            None => None,
        },
        DataType::Int64 => match integer_within(cell.text, i64::MIN as int, i64::MAX as int) {
            Some(v) => Some(ScalarValue::Int64(v as i64)),
            None => None,
        },
        DataType::Float32 => match cell.float32 {
            Some(bits) => Some(ScalarValue::Float32(bits)),
            None => None,
        },
        DataType::Float64 => match cell.float64 {
            Some(bits) => Some(ScalarValue::Float64(bits)),
            None => None,
        },
        DataType::Boolean => if cell.text == "true"@ {
            Some(ScalarValue::Boolean(true))
        } else if cell.text == "false"@ {
            Some(ScalarValue::Boolean(false))
        } else {
            None
        },
        DataType::Timestamp(_) => match integer_within(
            cell.text,
            i64::MIN as int,
            i64::MAX as int,
        ) {
            Some(v) => Some(ScalarValue::Timestamp(v as i64)),
            None => None,
        },
        DataType::String => Some(ScalarValue::String(cell.text)),
    }
}

/// The value of the field of the record `row` in the column `column`: null
/// where the record has no such field.
pub open spec fn value_at(
    data_type: DataType,
    records: Seq<Seq<CsvCellView>>,
    row: int,
    column: int,
) -> Option<ScalarValue> {
    if column < records[row].len() {
        cell_value(data_type, records[row][column])
    } else {
        Some(ScalarValue::Null)
    }
}

/// Write-only accumulator of a column of any type.
pub enum ColumnBuilder {
    Null(usize),
    Int8(PrimitiveBuilder<i8>),
    Int16(PrimitiveBuilder<i16>),
    Int32(PrimitiveBuilder<i32>),
    Int64(PrimitiveBuilder<i64>),
    Float32(PrimitiveBuilder<u32>),
    Float64(PrimitiveBuilder<u64>),
    Boolean(PrimitiveBuilder<bool>),
    Timestamp(TimeUnit, PrimitiveBuilder<i64>),
    String(StringBuilder),
}

impl View for ColumnBuilder {
    type V = ArrayView;

    /// The column that the builder holds so far.
    open spec fn view(&self) -> ArrayView {
        match *self {
            ColumnBuilder::Null(len) => ArrayView {
                data_type: DataType::Null,
                cells: Seq::new(len as nat, |i: int| ScalarValue::Null),
            },
            ColumnBuilder::Int8(b) => ArrayView {
                data_type: DataType::Int8,
                cells: lift(b.cells(), DataType::Int8),
            },
            ColumnBuilder::Int16(b) => ArrayView {
                data_type: DataType::Int16,
                cells: lift(b.cells(), DataType::Int16),
            },
            ColumnBuilder::Int32(b) => ArrayView {
                data_type: DataType::Int32,
                cells: lift(b.cells(), DataType::Int32),
            },
            ColumnBuilder::Int64(b) => ArrayView {
                data_type: DataType::Int64,
                cells: lift(b.cells(), DataType::Int64),
            },
            ColumnBuilder::Float32(b) => ArrayView {
                data_type: DataType::Float32,
                cells: lift(b.cells(), DataType::Float32),
            },
            ColumnBuilder::Float64(b) => ArrayView {
                data_type: DataType::Float64,
                cells: lift(b.cells(), DataType::Float64),
            },
            ColumnBuilder::Boolean(b) => ArrayView {
                data_type: DataType::Boolean,
                cells: lift(b.cells(), DataType::Boolean),
            },
            ColumnBuilder::Timestamp(unit, b) => ArrayView {
                data_type: DataType::Timestamp(unit),
                cells: lift(b.cells(), DataType::Timestamp(unit)),
            },
            ColumnBuilder::String(b) => ArrayView {
                data_type: DataType::String,
                cells: lift_strings(b.cells()),
            },
        }
    }
}

impl ColumnBuilder {
    pub open spec fn wf(&self) -> bool {
        match *self {
            ColumnBuilder::Null(_) => true,
            ColumnBuilder::Int8(b) => b.wf(),
            ColumnBuilder::Int16(b) => b.wf(),
            ColumnBuilder::Int32(b) => b.wf(),
            ColumnBuilder::Int64(b) => b.wf(),
            ColumnBuilder::Float32(b) => b.wf(),
            ColumnBuilder::Float64(b) => b.wf(),
            ColumnBuilder::Boolean(b) => b.wf(),
            ColumnBuilder::Timestamp(_, b) => b.wf(),
            ColumnBuilder::String(b) => b.wf(),
        }
    }

    /// An empty builder of a column of type `data_type`.
    pub fn new(data_type: DataType) -> (builder: ColumnBuilder)
        ensures
            builder.wf(),
            builder@.data_type == data_type,
            builder@.cells == Seq::<ScalarValue>::empty(),
    {
        let builder = match data_type {
            DataType::Null => ColumnBuilder::Null(0),
            DataType::Int8 => ColumnBuilder::Int8(PrimitiveBuilder::new()),
            DataType::Int16 => ColumnBuilder::Int16(PrimitiveBuilder::new()),
            DataType::Int32 => ColumnBuilder::Int32(PrimitiveBuilder::new()),
            DataType::Int64 => ColumnBuilder::Int64(PrimitiveBuilder::new()),
            DataType::Float32 => ColumnBuilder::Float32(PrimitiveBuilder::new()),
            DataType::Float64 => ColumnBuilder::Float64(PrimitiveBuilder::new()),
            DataType::Boolean => ColumnBuilder::Boolean(PrimitiveBuilder::new()),
            DataType::Timestamp(unit) => ColumnBuilder::Timestamp(unit, PrimitiveBuilder::new()),
            DataType::String => ColumnBuilder::String(StringBuilder::new()),
        };
        assert(builder@.cells =~= Seq::<ScalarValue>::empty());
        builder
    }

    /// Whether one more cell can be appended: a column of nulls counts its
    /// cells in a machine word.
    pub open spec fn has_room(&self) -> bool {
        *self matches ColumnBuilder::Null(len) ==> len < usize::MAX
    }

    /// Appends a null cell.
    pub fn append_null(&mut self)
        requires
            old(self).wf(),
            old(self).has_room(),
        ensures
            final(self).wf(),
            final(self)@.data_type == old(self)@.data_type,
            final(self)@.cells == old(self)@.cells.push(ScalarValue::Null),
    {
        match self {
            ColumnBuilder::Null(len) => {
                *len = *len + 1;
            },
            ColumnBuilder::Int8(b) => b.append_null(),
            ColumnBuilder::Int16(b) => b.append_null(),
            ColumnBuilder::Int32(b) => b.append_null(),
            ColumnBuilder::Int64(b) => b.append_null(),
            ColumnBuilder::Float32(b) => b.append_null(),
            ColumnBuilder::Float64(b) => b.append_null(),
            ColumnBuilder::Boolean(b) => b.append_null(),
            ColumnBuilder::Timestamp(_, b) => b.append_null(),
            ColumnBuilder::String(b) => b.append_null(),
        }
        assert(self@.cells =~= old(self)@.cells.push(ScalarValue::Null));
    }

    /// Appends the value of a field, where the field is a value of the
    /// column's type; says whether it is one.
    pub fn append_cell(&mut self, cell: &CsvCell) -> (appended: bool)
        requires
            old(self).wf(),
            old(self).has_room(),
        ensures
            final(self).wf(),
            final(self)@.data_type == old(self)@.data_type,
            match cell_value(old(self)@.data_type, cell@) {
                Some(value) => appended && final(self)@.cells == old(self)@.cells.push(value),
                None => !appended && final(self)@ == old(self)@,
            },
    {
        let ghost before = self@.cells;
        let appended = match self {
            ColumnBuilder::Null(len) => {
                *len = *len + 1;
                true
            },
            ColumnBuilder::Int8(b) => match parse_integer(cell.text.as_str()) {
                Some(v) => if -0x80 <= v && v <= 0x7f {
                    b.append(v as i8);
                    true
                } else {
                    false
                },
                None => false,
            },
            ColumnBuilder::Int16(b) => match parse_integer(cell.text.as_str()) {
                Some(v) => if -0x8000 <= v && v <= 0x7fff {
                    b.append(v as i16);
                    true
                } else {
                    false
                },
                None => false,
            },
            ColumnBuilder::Int32(b) => match parse_integer(cell.text.as_str()) {
                Some(v) => if -0x8000_0000 <= v && v <= 0x7fff_ffff {
                    b.append(v as i32);
                    true
                } else {
                    false
                },
                None => false,
            },
            ColumnBuilder::Int64(b) => match parse_integer(cell.text.as_str()) {
                Some(v) => {
                    b.append(v);
                    true
                },
                None => false,
            },
            ColumnBuilder::Float32(b) => match cell.float32 {
                Some(bits) => {
                    b.append(bits);
                    true
                },
                None => false,
            },
            ColumnBuilder::Float64(b) => match cell.float64 {
                Some(bits) => {
                    b.append(bits);
                    true
                },
                None => false,
            },
            ColumnBuilder::Boolean(b) => {
                if same_text(cell.text.as_str(), "true") {
                    b.append(true);
                    true
                } else if same_text(cell.text.as_str(), "false") {
                    b.append(false);
                    true
                } else {
                    false
                }
            },
            ColumnBuilder::Timestamp(_, b) => match parse_integer(cell.text.as_str()) {
                Some(v) => {
                    b.append(v);
                    true
                },
                None => false,
            },
            ColumnBuilder::String(b) => {
                b.append(cell.text.as_str());
                true
            },
        };
        proof {
            if appended {
                assert(self@.cells =~= before.push(
                    cell_value(old(self)@.data_type, cell@)->Some_0,
                ));
            }
        }
        appended
    }

    /// Ends the accumulation; the column holds the appended cells in order.
    pub fn finish(self) -> (array: Array)
        requires
            self.wf(),
        ensures
            array.wf(),
            array@ == self@,
    {
        match self {
            ColumnBuilder::Null(len) => Array::Null(len),
            ColumnBuilder::Int8(b) => Array::Int8(b.finish()),
            ColumnBuilder::Int16(b) => Array::Int16(b.finish()),
            ColumnBuilder::Int32(b) => Array::Int32(b.finish()),
            ColumnBuilder::Int64(b) => Array::Int64(b.finish()),
            ColumnBuilder::Float32(b) => Array::Float32(b.finish()),
            ColumnBuilder::Float64(b) => Array::Float64(b.finish()),
            ColumnBuilder::Boolean(b) => Array::Boolean(b.finish()),
            ColumnBuilder::Timestamp(unit, b) => Array::Timestamp(unit, b.finish()),
            ColumnBuilder::String(b) => Array::String(b.finish()),
        }
    }
}

/// The views of a sequence of builders.
pub open spec fn builder_views(builders: Seq<ColumnBuilder>) -> Seq<ArrayView> {
    builders.map_values(|b: ColumnBuilder| b@)
}

/// There is one well-formed builder for each field, of the field's type.
pub open spec fn builders_fit(builders: Seq<ColumnBuilder>, schema: Seq<FieldView>) -> bool {
    &&& builders.len() == schema.len()
    &&& forall|i: int|
        0 <= i < builders.len() ==> (#[trigger] builders[i]).wf() && builders[i]@.data_type
            == schema[i].data_type
}

/// One empty builder for each field of a schema, of the field's type.
pub fn create_builders(schema: &Schema) -> (builders: Vec<ColumnBuilder>)
    ensures
        builders_fit(builders@, schema@),
        forall|i: int|
            0 <= i < builders@.len() ==> (#[trigger] builders@[i])@.cells
                == Seq::<ScalarValue>::empty(),
{
    let mut builders: Vec<ColumnBuilder> = Vec::with_capacity(schema.len());
    let mut i: usize = 0;
    while i < schema.len()
        invariant
            i <= schema@.len(),
            builders.len() == i,
            forall|j: int|
                0 <= j < i ==> (#[trigger] builders@[j]).wf() && builders@[j]@.data_type
                    == schema@[j].data_type && builders@[j]@.cells == Seq::<ScalarValue>::empty(),
        decreases schema@.len() - i,
    {
        builders.push(ColumnBuilder::new(schema.data_type(i)));
        i += 1;
    }
    builders
}

/// Whether the field of the record `row` in the column `column` is no
/// value of the column's type.
pub open spec fn fails_at(
    schema: Seq<FieldView>,
    records: Seq<Seq<CsvCellView>>,
    column: int,
    row: int,
) -> bool {
    &&& 0 <= column < schema.len()
    &&& 0 <= row < records.len()
    &&& value_at(schema[column].data_type, records, row, column) is None
}

/// The cells that records add to the column `column`.
pub open spec fn added_cells(data_type: DataType, records: Seq<Seq<CsvCellView>>, column: int)
    -> Seq<ScalarValue> {
    Seq::new(records.len(), |row: int| value_at(data_type, records, row, column)->Some_0)
}

/// What appending records to builders comes to. Where every field is a
/// value of its column's type, each column gets the values of its fields,
/// record after record. Otherwise the error names the first field that is
/// none: the first in the first column that has one.
pub open spec fn appends(
    before: Seq<ArrayView>,
    after: Seq<ArrayView>,
    schema: Seq<FieldView>,
    records: Seq<Seq<CsvCellView>>,
    result: Result<(), Error>,
) -> bool {
    match result {
        Ok(_) => {
            &&& forall|column: int, row: int| !(#[trigger] fails_at(schema, records, column, row))
            &&& forall|column: int|
                0 <= column < schema.len() ==> (#[trigger] after[column]).cells
                    == before[column].cells + added_cells(
                    schema[column].data_type,
                    records,
                    column,
                )
        },
        Err(error) => {
            &&& error matches Error::CsvValue { column, row }
            &&& fails_at(schema, records, column as int, row as int)
            &&& forall|c: int, r: int|
                (c < column || (c == column && r < row)) ==> !(#[trigger] fails_at(
                    schema,
                    records,
                    c,
                    r,
                ))
        },
    }
}

/// Every column of nulls can count `more` cells more.
pub open spec fn have_room(builders: Seq<ColumnBuilder>, more: nat) -> bool {
    forall|i: int|
        0 <= i < builders.len() ==> ((#[trigger] builders[i]) matches ColumnBuilder::Null(len)
            ==> len + more <= usize::MAX)
}

/// Whether every column of nulls can count `more` cells more.
pub fn fit_more(builders: &Vec<ColumnBuilder>, more: usize) -> (fit: bool)
    ensures
        fit == have_room(builders@, more as nat),
{
    let mut i: usize = 0;
    while i < builders.len()
        invariant
            i <= builders@.len(),
            have_room(builders@.take(i as int), more as nat),
        decreases builders@.len() - i,
    {
        if let ColumnBuilder::Null(len) = &builders[i] {
            if more > usize::MAX - *len {
                assert(!(builders@[i as int] matches ColumnBuilder::Null(n) ==> n + more
                    <= usize::MAX));
                return false;
            }
        }
        assert forall|j: int| 0 <= j < i + 1 implies ((
        #[trigger] builders@.take(i + 1)[j]) matches ColumnBuilder::Null(n) ==> n + more
            <= usize::MAX) by {
            if j < i {
                assert(builders@.take(i as int)[j] == builders@[j]);
            }
        }
        i += 1;
    }
    assert(builders@.take(i as int) =~= builders@);
    true
}

/// Appends the fields of records to the builders of their columns, column
/// after column. A record that is too short for a column adds a null.
pub fn append_data(schema: &Schema, builders: &mut Vec<ColumnBuilder>, records: &[Vec<CsvCell>]) -> (result:
    Result<(), Error>)
    requires
        builders_fit(old(builders)@, schema@),
        have_room(old(builders)@, records@.len()),
    ensures
        builders_fit(final(builders)@, schema@),
        appends(
            builder_views(old(builders)@),
            builder_views(final(builders)@),
            schema@,
            record_views(records@),
            result,
        ),
{
    let ghost fields = schema@;
    let ghost table = record_views(records@);
    let ghost start = builder_views(builders@);
    let width = builders.len();
    let mut column: usize = 0;
    while column < width
        invariant
            column <= width,
            width == fields.len(),
            old(builders)@.len() == width,
            fields == schema@,
            table == record_views(records@),
            start == builder_views(old(builders)@),
            builders_fit(builders@, fields),
            have_room(old(builders)@, records@.len()),
            forall|j: int| column <= j < width ==> (#[trigger] builders@[j]) == old(builders)@[j],
            forall|c: int, r: int| c < column ==> !(#[trigger] fails_at(fields, table, c, r)),
            forall|j: int|
                0 <= j < column ==> (#[trigger] builders@[j])@.cells == start[j].cells
                    + added_cells(fields[j].data_type, table, j),
        decreases width - column,
    {
        let ghost data_type = fields[column as int].data_type;
        let ghost held = builders@;
        assert(start[column as int] == old(builders)@[column as int]@);
        let mut row: usize = 0;
        while row < records.len()
            invariant
                row <= records.len(),
                column < width,
                width == fields.len(),
                width == builders@.len(),
                old(builders)@.len() == width,
                fields == schema@,
                start == builder_views(old(builders)@),
                table == record_views(records@),
                data_type == fields[column as int].data_type,
                forall|c: int, r: int| c < column ==> !(#[trigger] fails_at(fields, table, c, r)),
                builders_fit(builders@, fields),
                old(builders)@[column as int] matches ColumnBuilder::Null(len) ==> len
                    + records@.len() <= usize::MAX,
                builders@[column as int] matches ColumnBuilder::Null(len) ==> (old(builders)@[column as int] matches ColumnBuilder::Null(
                    first,
                ) && len == first + row),
                forall|j: int| 0 <= j < width && j != column ==> (#[trigger] builders@[j]) == held[j],
                forall|r: int| r < row ==> !(#[trigger] fails_at(fields, table, column as int, r)),
                builders@[column as int]@.cells == start[column as int].cells + Seq::new(
                    row as nat,
                    |r: int| value_at(data_type, table, r, column as int)->Some_0,
                ),
            decreases records.len() - row,
        {
            let record = &records[row];
            let ghost cells = builders@[column as int]@.cells;
            let ghost others = builders@;
            assert(table[row as int] == cell_views(record@));
            if column < record.len() {
                assert(table[row as int][column as int] == record@[column as int]@);
                if !builders[column].append_cell(&record[column]) {
                    return Err(Error::CsvValue { column, row });
                }
            } else {
                builders[column].append_null();
            }
            proof {
                let value = value_at(data_type, table, row as int, column as int)->Some_0;
                assert(builders@[column as int]@.cells == cells.push(value));
                assert(cells.push(value) =~= start[column as int].cells + Seq::new(
                    (row + 1) as nat,
                    |r: int| value_at(data_type, table, r, column as int)->Some_0,
                ));
                assert forall|j: int| 0 <= j < width && j != column implies (
                #[trigger] builders@[j]) == held[j] by {
                    assert(builders@[j] == others[j]);
                }
            }
            row += 1;
        }
        proof {
            assert(Seq::new(
                records@.len(),
                |r: int| value_at(data_type, table, r, column as int)->Some_0,
            ) =~= added_cells(data_type, table, column as int));
            assert forall|j: int| 0 <= j < column + 1 implies (#[trigger] builders@[j])@.cells
                == start[j].cells + added_cells(fields[j].data_type, table, j) by {
                if j < column {
                    assert(builders@[j] == held[j]);
                }
            }
        }
        column += 1;
    }
    proof {
        assert forall|column: int|
            0 <= column < fields.len() implies (#[trigger] builder_views(builders@)[column]).cells
            == start[column].cells + added_cells(fields[column].data_type, table, column) by {
            assert(builder_views(builders@)[column] == builders@[column]@);
        }
    }
    Ok(())
}

/// The dataset of the columns that the builders hold, under `schema`;
/// refused where the builders do not fit the schema or hold columns of
/// unequal lengths.
pub fn create_dataset(schema: Schema, builders: Vec<ColumnBuilder>) -> (made: Result<
    DataSet,
    Error,
>)
    requires
        forall|i: int| 0 <= i < builders@.len() ==> (#[trigger] builders@[i]).wf(),
    ensures
        made is Ok <==> (DataSetView {
            schema: schema@,
            columns: builder_views(builders@),
        }).fitting(),
        made matches Ok(dataset) ==> dataset@ == (DataSetView {
            schema: schema@,
            columns: builder_views(builders@),
        }),
        made matches Err(e) ==> e == Error::InvalidSchema,
{
    let ghost views = builder_views(builders@);
    let mut columns: Vec<Array> = Vec::with_capacity(builders.len());
    for builder in held: builders
        invariant
            held.seq().len() == views.len(),
            forall|i: int| 0 <= i < held.seq().len() ==> (#[trigger] held.seq()[i]).wf(),
            forall|i: int| 0 <= i < held.seq().len() ==> (#[trigger] held.seq()[i])@ == views[i],
            columns@.len() == held.index(),
            arrays_wf(columns@),
            forall|i: int| 0 <= i < columns@.len() ==> (#[trigger] columns@[i])@ == views[i],
    {
        columns.push(builder.finish());
    }
    assert(array_views(columns@) =~= views);
    DataSet::try_new(schema, columns)
}

/// The dataset that records make under a schema: one row for each record,
/// and in each column the values of the records' fields.
pub open spec fn batch_dataset(schema: Seq<FieldView>, records: Seq<Seq<CsvCellView>>)
    -> DataSetView {
    DataSetView {
        schema,
        columns: Seq::new(
            schema.len(),
            |column: int|
                ArrayView {
                    data_type: schema[column].data_type,
                    cells: added_cells(schema[column].data_type, records, column),
                },
        ),
    }
}

/// What reading records as a dataset comes to: the dataset of the
/// records, where every field is a value of its column's type; otherwise
/// the error that names the first field that is none.
pub open spec fn reads_batch(
    schema: Seq<FieldView>,
    records: Seq<Seq<CsvCellView>>,
    result: Result<DataSet, Error>,
) -> bool {
    match result {
        Ok(dataset) => {
            &&& forall|column: int, row: int| !(#[trigger] fails_at(schema, records, column, row))
            &&& dataset@ == batch_dataset(schema, records)
        },
        Err(error) => {
            &&& error matches Error::CsvValue { column, row }
            &&& fails_at(schema, records, column as int, row as int)
            &&& forall|c: int, r: int|
                (c < column || (c == column && r < row)) ==> !(#[trigger] fails_at(
                    schema,
                    records,
                    c,
                    r,
                ))
        },
    }
}

/// The dataset that records make under a schema.
pub fn read_records(schema: &Schema, records: &[Vec<CsvCell>]) -> (result: Result<DataSet, Error>)
    ensures
        reads_batch(schema@, record_views(records@), result),
{
    let ghost table = record_views(records@);
    let mut builders = create_builders(schema);
    let ghost empty = builder_views(builders@);
    let count = records.len();
    proof {
        assert forall|i: int| 0 <= i < builders@.len() implies ((
        #[trigger] builders@[i]) matches ColumnBuilder::Null(len) ==> len + records@.len()
            <= usize::MAX) by {
            if let ColumnBuilder::Null(len) = builders@[i] {
                assert(builders@[i]@.cells.len() == len);
            }
        }
    }
    match append_data(schema, &mut builders, records) {
        Ok(()) => {},
        Err(error) => {
            return Err(error);
        },
    }
    proof {
        let expected = batch_dataset(schema@, table);
        assert forall|column: int| 0 <= column < schema@.len() implies (#[trigger] builder_views(
            builders@,
        )[column]) == expected.columns[column] by {
            assert(builder_views(builders@)[column] == builders@[column]@);
            assert(empty[column].cells == Seq::<ScalarValue>::empty());
            assert(empty[column].cells + added_cells(schema@[column].data_type, table, column)
                =~= added_cells(schema@[column].data_type, table, column));
        }
        assert(builder_views(builders@) =~= expected.columns);
        assert(expected.fitting());
    }
    create_dataset(schema.duplicate(), builders)
}

/// A reader of the records of a CSV text, batch after batch.
pub struct CsvReader {
    schema: Schema,
    records: Vec<Vec<CsvCell>>,
    position: usize,
}

impl CsvOptions {
    /// A reader of `records` under `schema`.
    pub fn open(&self, schema: Schema, records: Vec<Vec<CsvCell>>) -> (reader: CsvReader)
        ensures
            reader.wf(),
            reader.schema() == schema@,
            reader.remaining() == record_views(records@),
    {
        let reader = CsvReader { schema, records, position: 0 };
        assert(reader.remaining() =~= record_views(records@));
        reader
    }
}

/// The number of records of a batch: as many as are asked for, where so
/// many are left, else all that are left.
pub open spec fn batch_len(batch_size: Option<usize>, left: nat) -> nat {
    match batch_size {
        Some(size) => if size <= left {
            size as nat
        } else {
            left
        },
        None => left,
    }
}

impl CsvReader {
    pub closed spec fn wf(&self) -> bool {
        self.position <= self.records@.len()
    }

    /// The schema of the datasets that are read.
    pub closed spec fn schema(&self) -> Seq<FieldView> {
        self.schema@
    }

    /// The records that have not been read yet.
    pub closed spec fn remaining(&self) -> Seq<Seq<CsvCellView>> {
        record_views(self.records@).skip(self.position as int)
    }

    /// Reads the next records as one dataset: `batch_size` of them, or all
    /// that are left where fewer are left or no size is given.
    pub fn read_batch(&mut self, batch_size: Option<usize>) -> (result: Result<DataSet, Error>)
        requires
            old(self).wf(),
        ensures
            final(self).wf(),
            final(self).schema() == old(self).schema(),
            final(self).remaining() == old(self).remaining().skip(
                batch_len(batch_size, old(self).remaining().len()) as int,
            ),
            reads_batch(
                old(self).schema(),
                old(self).remaining().take(
                    batch_len(batch_size, old(self).remaining().len()) as int,
                ),
                result,
            ),
    {
        let left = self.records.len() - self.position;
        let count = match batch_size {
            Some(size) => if size <= left {
                size
            } else {
                left
            },
            None => left,
        };
        let from = self.position;
        let to = from + count;
        let batch = slice_subrange(self.records.as_slice(), from, to);
        proof {
            assert(record_views(batch@) =~= old(self).remaining().take(count as int));
        }
        let result = read_records(&self.schema, batch);
        self.position = to;
        proof {
            assert(self.remaining() =~= old(self).remaining().skip(count as int));
        }
        result
    }

    /// Passes over the next `count` records, or over all that are left.
    pub fn skip(&mut self, count: usize) -> (result: Result<(), Error>)
        requires
            old(self).wf(),
        ensures
            final(self).wf(),
            result is Ok,
            final(self).schema() == old(self).schema(),
            final(self).remaining() == old(self).remaining().skip(
                batch_len(Some(count), old(self).remaining().len()) as int,
            ),
    {
        let left = self.records.len() - self.position;
        let passed = if count <= left {
            count
        } else {
            left
        };
        self.position = self.position + passed;
        assert(self.remaining() =~= old(self).remaining().skip(passed as int));
        Ok(())
    }
}

} // verus!
