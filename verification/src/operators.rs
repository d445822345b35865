//! The stateless operators of a pipeline: filter and project.

use vstd::prelude::*;
use crate::array::Array;
use crate::array::ArrayView;
use crate::array::Scalar;
use crate::array::ScalarValue;
use crate::error::Error;
use crate::error::EvalError;
use crate::grouping::eval_all;
use crate::grouping::lemma_eval_all_stops;
use crate::grouping::lemma_eval_rows_len;
use crate::physical::PhysicalExpr;
use crate::physical::PhysicalExprView;
use crate::physical::eval_batch;
use crate::physical::physical_views;
use crate::physical::result_type;
use crate::schema::DataSet;
use crate::schema::DataSetView;
use crate::schema::FieldView;
use crate::schema::Schema;
use crate::schema::array_views;
use crate::schema::arrays_wf;
use crate::schema::pick_rows;
use crate::schema::rows_within;
use crate::array::coerce_all;

verus! {

/// The rows among the first `count` at which a predicate holds, in
/// ascending order: those whose value is true. A row at which the value is
/// false or null is left out.
pub open spec fn selected(values: Seq<ScalarValue>, count: nat) -> Seq<usize>
    decreases count,
{
    if count == 0 {
        Seq::empty()
    } else if values[count - 1] == ScalarValue::Boolean(true) {
        selected(values, (count - 1) as nat).push((count - 1) as usize)
    } else {
        selected(values, (count - 1) as nat)
    }
}

/// What a filter makes of a dataset: the rows at which the predicate
/// holds, and the predicate as it is after the evaluation; or the error of
/// the evaluation.
pub open spec fn filtered(predicate: PhysicalExprView, dataset: DataSetView) -> Result<
    (DataSetView, PhysicalExprView),
    EvalError,
> {
    match eval_batch(predicate, dataset) {
        Ok((values, after)) => Ok(
            (
                pick_rows(
                    dataset,
                    selected(
                        coerce_all(values, result_type(predicate, dataset.schema)),
                        dataset.num_rows(),
                    ),
                ),
                after,
            ),
        ),
        Err(error) => Err(error),
    }
}

/// Whether a filter that ended in `result` and left the predicate as
/// `after` agrees with `expected`.
pub open spec fn filters(
    expected: Result<(DataSetView, PhysicalExprView), EvalError>,
    result: Result<DataSet, Error>,
    after: PhysicalExprView,
) -> bool {
    match expected {
        Ok((dataset, predicate)) => result matches Ok(d) && d@ == dataset && after == predicate,
        Err(error) => result matches Err(e) && e == Error::Eval(error),
    }
}

/// The dataset of the rows at which the predicate holds.
pub fn filter(dataset: &DataSet, predicate: &mut PhysicalExpr) -> (result: Result<DataSet, Error>)
    ensures
        filters(filtered(old(predicate)@, dataset@), result, final(predicate)@),
{
    let ghost start = predicate@;
    let count = dataset.num_rows();
    let array = match predicate.eval(dataset) {
        Ok(array) => array,
        Err(error) => {
            return Err(Error::Eval(error));
        },
    };
    proof {
        lemma_eval_rows_len(start, dataset@, count as nat);
    }
    let ghost values = array@.cells;
    let mut rows: Vec<usize> = Vec::new();
    let mut row: usize = 0;
    while row < count
        invariant
            row <= count,
            array.wf(),
            values == array@.cells,
            values.len() == count,
            rows@ == selected(values, row as nat),
            rows_within(rows@, count as nat),
        decreases count - row,
    {
        match array.scalar_value(row) {
            Scalar::Boolean(true) => {
                rows.push(row);
            },
            _ => {},
        }
        row += 1;
    }
    Ok(dataset.take_rows(&rows))
}

/// What a projection makes of a dataset: the columns that the expressions
/// evaluate to, under the projection's schema, and the expressions as they
/// are afterwards; or the error of the first expression that fails.
pub open spec fn projected(
    exprs: Seq<PhysicalExprView>,
    schema: Seq<FieldView>,
    dataset: DataSetView,
) -> Result<(DataSetView, Seq<PhysicalExprView>), EvalError> {
    match eval_all(exprs, dataset, exprs.len()) {
        Ok((columns, after)) => Ok(
            (
                DataSetView {
                    schema,
                    columns: Seq::new(
                        exprs.len(),
                        |i: int|
                            ArrayView {
                                data_type: result_type(exprs[i], dataset.schema),
                                cells: columns[i],
                            },
                    ),
                },
                after,
            ),
        ),
        Err(error) => Err(error),
    }
}

/// Whether a projection that ended in `result` and left the expressions as
/// `after` agrees with `expected`: the dataset of `expected`, where its
/// columns fit the schema, and an invalid schema where they do not.
pub open spec fn projects(
    expected: Result<(DataSetView, Seq<PhysicalExprView>), EvalError>,
    result: Result<DataSet, Error>,
    after: Seq<PhysicalExprView>,
) -> bool {
    match expected {
        Ok((dataset, exprs)) => after == exprs && if dataset.fitting() {
            result matches Ok(d) && d@ == dataset
        } else {
            result matches Err(e) && e == Error::InvalidSchema
        },
        Err(error) => result matches Err(e) && e == Error::Eval(error),
    }
}

/// The dataset of the columns that the expressions evaluate to, under the
/// projection's schema.
pub fn project(dataset: &DataSet, exprs: &mut Vec<PhysicalExpr>, schema: &Schema) -> (result:
    Result<DataSet, Error>)
    ensures
        projects(
            projected(physical_views(old(exprs)@), schema@, dataset@),
            result,
            physical_views(final(exprs)@),
        ),
{
    let ghost start = physical_views(exprs@);
    let mut columns: Vec<Array> = Vec::with_capacity(exprs.len());
    let mut e: usize = 0;
    assert(physical_views(exprs@).take(0) =~= Seq::<PhysicalExprView>::empty());
    while e < exprs.len()
        invariant
            e <= exprs.len(),
            exprs@.len() == start.len(),
            start == physical_views(old(exprs)@),
            columns.len() == e,
            arrays_wf(columns@),
            forall|j: int| e <= j < exprs@.len() ==> (#[trigger] exprs@[j])@ == start[j],
            eval_all(start, dataset@, e as nat) is Ok,
            eval_all(start, dataset@, e as nat)->Ok_0.1 == physical_views(exprs@).take(e as int),
            eval_all(start, dataset@, e as nat)->Ok_0.0.len() == e,
            forall|j: int|
                0 <= j < e ==> (#[trigger] columns@[j])@ == (ArrayView {
                    data_type: result_type(start[j], dataset@.schema),
                    cells: eval_all(start, dataset@, e as nat)->Ok_0.0[j],
                }),
        decreases exprs.len() - e,
    {
        let ghost done = physical_views(exprs@).take(e as int);
        match exprs[e].eval(dataset) {
            Ok(array) => {
                proof {
                    assert(physical_views(exprs@).take(e + 1) =~= done.push(exprs@[e as int]@));
                }
                columns.push(array);
            },
            Err(error) => {
                proof {
                    lemma_eval_all_stops(start, dataset@, e as nat, start.len());
                }
                return Err(Error::Eval(error));
            },
        }
        e += 1;
    }
    proof {
        assert(physical_views(exprs@).take(e as int) =~= physical_views(exprs@));
        assert(array_views(columns@) =~= projected(start, schema@, dataset@)->Ok_0.0.columns);
    }
    DataSet::try_new(schema.duplicate(), columns)
}

} // verus!
