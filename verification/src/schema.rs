//! Schemas and datasets: the substrate that every operator consumes.

use vstd::prelude::*;
use crate::array::Array;
use crate::array::ArrayView;
use crate::array::DataType;
use crate::array::Scalar;
use crate::array::scalar_values;
use crate::error::Error;

verus! {

/// A named column of a schema.
#[derive(Clone, Debug, PartialEq, Eq)]
pub struct Field {
    pub name: String,
    pub data_type: DataType,
}

/// The mathematical value of a [`Field`].
pub struct FieldView {
    pub name: Seq<char>,
    pub data_type: DataType,
}

impl View for Field {
    type V = FieldView;

    open spec fn view(&self) -> FieldView {
        FieldView { name: self.name@, data_type: self.data_type }
    }
}

impl Field {
    pub fn new(name: &str, data_type: DataType) -> (field: Field)
        ensures
            field@ == (FieldView { name: name@, data_type }),
    {
        Field { name: name.to_owned(), data_type }
    }

    /// A copy of this field.
    pub fn duplicate(&self) -> (copy: Field)
        ensures
            copy@ == self@,
    {
        Field { name: self.name.clone(), data_type: self.data_type }
    }
}

/// The views of a sequence of fields.
pub open spec fn field_views(fields: Seq<Field>) -> Seq<FieldView> {
    fields.map_values(|f: Field| f@)
}

/// No two fields share a name.
pub open spec fn unique_names(fields: Seq<FieldView>) -> bool {
    forall|i: int, j: int|
        0 <= i < j < fields.len() ==> (#[trigger] fields[i]).name != (#[trigger] fields[j]).name
}

/// An ordered sequence of fields with unique names.
#[derive(Debug)]
pub struct Schema {
    fields: Vec<Field>,
}

impl View for Schema {
    type V = Seq<FieldView>;

    closed spec fn view(&self) -> Seq<FieldView> {
        field_views(self.fields@)
    }
}

impl Schema {
    #[verifier::type_invariant]
    spec fn unique(self) -> bool {
        unique_names(field_views(self.fields@))
    }

    /// The schema of `fields`, unless two of them share a name.
    pub fn try_new(fields: Vec<Field>) -> (made: Result<Schema, Error>)
        ensures
            made is Ok <==> unique_names(field_views(fields@)),
            made matches Ok(schema) ==> schema@ == field_views(fields@),
            made matches Err(e) ==> e == Error::InvalidSchema,
    {
        let ghost views = field_views(fields@);
        let mut j: usize = 0;
        while j < fields.len()
            invariant
                j <= fields.len(),
                views == field_views(fields@),
                forall|a: int, b: int|
                    0 <= a < b < j ==> (#[trigger] views[a]).name != (#[trigger] views[b]).name,
            decreases fields.len() - j,
        {
            let mut i: usize = 0;
            while i < j
                invariant
                    i <= j < fields.len(),
                    views == field_views(fields@),
                    forall|a: int| 0 <= a < i ==> (#[trigger] views[a]).name != views[j as int].name,
                decreases j - i,
            {
                if fields[i].name == fields[j].name {
                    assert(views[i as int].name == views[j as int].name);
                    return Err(Error::InvalidSchema);
                }
                i += 1;
            }
            j += 1;
        }
        Ok(Schema { fields })
    }

    pub fn fields(&self) -> (fields: &Vec<Field>)
        ensures
            field_views(fields@) == self@,
            unique_names(self@),
    {
        proof {
            use_type_invariant(self);
        }
        &self.fields
    }

    pub fn len(&self) -> (n: usize)
        ensures
            n == self@.len(),
    {
        self.fields.len()
    }

    /// The type of the field at `index`.
    pub fn data_type(&self, index: usize) -> (data_type: DataType)
        requires
            index < self@.len(),
        ensures
            data_type == self@[index as int].data_type,
    {
        self.fields[index].data_type
    }

    /// A copy of this schema.
    pub fn duplicate(&self) -> (copy: Schema)
        ensures
            copy@ == self@,
    {
        proof {
            use_type_invariant(self);
        }
        let mut fields: Vec<Field> = Vec::with_capacity(self.fields.len());
        let mut i: usize = 0;
        while i < self.fields.len()
            invariant
                i <= self.fields.len(),
                fields.len() == i,
                forall|j: int| 0 <= j < i ==> fields[j]@ == self.fields[j]@,
            decreases self.fields.len() - i,
        {
            fields.push(self.fields[i].duplicate());
            i += 1;
        }
        assert(field_views(fields@) =~= field_views(self.fields@));
        Schema { fields }
    }
}

/// The mathematical value of a [`DataSet`].
pub struct DataSetView {
    pub schema: Seq<FieldView>,
    pub columns: Seq<ArrayView>,
}

impl DataSetView {
    /// The number of rows that all columns share; zero without columns.
    pub open spec fn num_rows(self) -> nat {
        if self.columns.len() == 0 {
            0
        } else {
            self.columns[0].cells.len()
        }
    }

    /// The names of the fields are unique, and the columns fit the fields.
    pub open spec fn consistent(self) -> bool {
        unique_names(self.schema) && self.fitting()
    }

    /// One column per field, of the field's type, and all columns of one length.
    pub open spec fn fitting(self) -> bool {
        &&& self.columns.len() == self.schema.len()
        &&& forall|i: int|
            0 <= i < self.columns.len() ==> (#[trigger] self.columns[i]).data_type
                == self.schema[i].data_type
        &&& forall|i: int|
            0 <= i < self.columns.len() ==> (#[trigger] self.columns[i]).cells.len()
                == self.num_rows()
    }
}

/// The rows `rows` of a column, in that order.
pub open spec fn pick_cells(column: ArrayView, rows: Seq<usize>) -> ArrayView {
    ArrayView {
        data_type: column.data_type,
        cells: Seq::new(rows.len(), |k: int| column.cells[rows[k] as int]),
    }
}

/// The rows `rows` of a dataset, in that order.
pub open spec fn pick_rows(dataset: DataSetView, rows: Seq<usize>) -> DataSetView {
    DataSetView {
        schema: dataset.schema,
        columns: Seq::new(dataset.columns.len(), |c: int| pick_cells(dataset.columns[c], rows)),
    }
}

/// Every row number of a sequence is a row of a dataset of `count` rows.
pub open spec fn rows_within(rows: Seq<usize>, count: nat) -> bool {
    forall|k: int| 0 <= k < rows.len() ==> (#[trigger] rows[k]) < count
}

/// The views of a sequence of columns.
pub open spec fn array_views(columns: Seq<Array>) -> Seq<ArrayView> {
    columns.map_values(|a: Array| a@)
}

/// Every column of a sequence is well formed.
pub open spec fn arrays_wf(columns: Seq<Array>) -> bool {
    forall|i: int| 0 <= i < columns.len() ==> (#[trigger] columns[i]).wf()
}

/// A record batch: a schema and one column per field.
#[derive(Debug)]
pub struct DataSet {
    schema: Schema,
    columns: Vec<Array>,
}

impl View for DataSet {
    type V = DataSetView;

    closed spec fn view(&self) -> DataSetView {
        DataSetView { schema: self.schema@, columns: array_views(self.columns@) }
    }
}

impl DataSet {
    #[verifier::type_invariant]
    spec fn inv(self) -> bool {
        &&& arrays_wf(self.columns@)
        &&& self@.consistent()
    }

    /// The dataset of `columns` under `schema`, unless the columns do not
    /// fit the schema: another count, another type, or unequal lengths.
    pub fn try_new(schema: Schema, columns: Vec<Array>) -> (made: Result<DataSet, Error>)
        requires
            arrays_wf(columns@),
        ensures
            made is Ok <==> (DataSetView {
                schema: schema@,
                columns: array_views(columns@),
            }).fitting(),
            made matches Ok(dataset) ==> dataset@.consistent() && dataset@ == (DataSetView {
                schema: schema@,
                columns: array_views(columns@),
            }),
            made matches Err(e) ==> e == Error::InvalidSchema,
    {
        let ghost view = DataSetView { schema: schema@, columns: array_views(columns@) };
        proof {
            use_type_invariant(&schema);
        }
        if columns.len() != schema.len() {
            return Err(Error::InvalidSchema);
        }
        let rows: usize = if columns.len() == 0 {
            0
        } else {
            columns[0].len()
        };
        let mut i: usize = 0;
        while i < columns.len()
            invariant
                i <= columns.len(),
                columns.len() == schema@.len(),
                arrays_wf(columns@),
                view == (DataSetView { schema: schema@, columns: array_views(columns@) }),
                rows == view.num_rows(),
                forall|j: int|
                    0 <= j < i ==> (#[trigger] view.columns[j]).data_type
                        == view.schema[j].data_type,
                forall|j: int| 0 <= j < i ==> (#[trigger] view.columns[j]).cells.len() == rows,
            decreases columns.len() - i,
        {
            assert(columns[i as int].wf());
            assert(view.columns[i as int] == columns[i as int]@);
            if columns[i].data_type() != schema.data_type(i) || columns[i].len() != rows {
                return Err(Error::InvalidSchema);
            }
            i += 1;
        }
        Ok(DataSet { schema, columns })
    }

    /// The dataset of `columns` under `schema`, which they fit.
    pub fn new(schema: Schema, columns: Vec<Array>) -> (dataset: DataSet)
        requires
            arrays_wf(columns@),
            (DataSetView { schema: schema@, columns: array_views(columns@) }).fitting(),
        ensures
            dataset@.consistent(),
            dataset@ == (DataSetView { schema: schema@, columns: array_views(columns@) }),
    {
        proof {
            use_type_invariant(&schema);
        }
        DataSet { schema, columns }
    }

    pub fn schema(&self) -> (schema: &Schema)
        ensures
            schema@ == self@.schema,
    {
        &self.schema
    }

    pub fn num_columns(&self) -> (n: usize)
        ensures
            n == self@.columns.len(),
    {
        self.columns.len()
    }

    pub fn num_rows(&self) -> (n: usize)
        ensures
            n == self@.num_rows(),
            self@.consistent(),
    {
        proof {
            use_type_invariant(self);
        }
        if self.columns.len() == 0 {
            0
        } else {
            assert(self.columns[0].wf());
            assert(self@.columns[0] == self.columns[0]@);
            self.columns[0].len()
        }
    }

    /// The dataset of the rows `rows` of this one, in that order.
    pub fn take_rows(&self, rows: &Vec<usize>) -> (taken: DataSet)
        requires
            rows_within(rows@, self@.num_rows()),
        ensures
            taken@ == pick_rows(self@, rows@),
            self@.columns.len() > 0 ==> taken@.num_rows() == rows@.len(),
    {
        proof {
            use_type_invariant(self);
        }
        let mut columns: Vec<Array> = Vec::with_capacity(self.columns.len());
        let mut c: usize = 0;
        while c < self.columns.len()
            invariant
                c <= self.columns.len(),
                columns.len() == c,
                arrays_wf(self.columns@),
                self@.consistent(),
                self@.columns == array_views(self.columns@),
                rows_within(rows@, self@.num_rows()),
                arrays_wf(columns@),
                forall|j: int|
                    0 <= j < c ==> (#[trigger] columns@[j])@ == pick_cells(self@.columns[j], rows@),
            decreases self.columns.len() - c,
        {
            let column = &self.columns[c];
            assert(column.wf());
            assert(self@.columns[c as int] == column@);
            let mut cells: Vec<Scalar> = Vec::with_capacity(rows.len());
            let mut k: usize = 0;
            while k < rows.len()
                invariant
                    k <= rows.len(),
                    cells.len() == k,
                    column.wf(),
                    column@.cells.len() == self@.num_rows(),
                    rows_within(rows@, self@.num_rows()),
                    forall|j: int|
                        0 <= j < k ==> (#[trigger] cells@[j])@ == column@.cells[rows@[j] as int],
                    forall|j: int|
                        0 <= j < k ==> (#[trigger] cells@[j])@ is Null || cells@[j]@.has_type(
                            column@.data_type,
                        ),
                decreases rows.len() - k,
            {
                cells.push(column.scalar_value(rows[k]));
                k += 1;
            }
            let picked = Array::materialize(column.data_type(), &cells);
            proof {
                assert forall|j: int| 0 <= j < rows@.len() implies #[trigger] picked@.cells[j]
                    == column@.cells[rows@[j] as int] by {
                    assert(scalar_values(cells@)[j] == cells@[j]@);
                }
                assert(picked@.cells =~= pick_cells(column@, rows@).cells);
            }
            columns.push(picked);
            c += 1;
        }
        let schema = self.schema.duplicate();
        proof {
            assert(array_views(columns@) =~= pick_rows(self@, rows@).columns);
        }
        DataSet { schema, columns }
    }

    /// The column at `index`.
    pub fn column(&self, index: usize) -> (column: &Array)
        requires
            index < self@.columns.len(),
        ensures
            column.wf(),
            column@ == self@.columns[index as int],
            column@.cells.len() == self@.num_rows(),
            column@.data_type == self@.schema[index as int].data_type,
    {
        proof {
            use_type_invariant(self);
        }
        assert(self.columns[index as int].wf());
        &self.columns[index]
    }
}

} // verus!
