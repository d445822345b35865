//! Cutting a dataset into the rows of each window, and into the rows of
//! each group.

use vstd::prelude::*;
use crate::array::Array;
use crate::array::Scalar;
use crate::array::ScalarValue;
use crate::array::coerce_all;
use crate::array::duplicate_scalars;
use crate::array::scalar_values;
use crate::error::Error;
use crate::error::EvalError;
use crate::keys::GroupedKey;
use crate::keys::KeyTable;
use crate::keys::slot_of;
use crate::physical::PhysicalExpr;
use crate::physical::PhysicalExprView;
use crate::physical::eval_batch;
use crate::physical::eval_rows;
use crate::physical::physical_views;
use crate::physical::result_type;
use crate::schema::DataSet;
use crate::schema::DataSetView;
use crate::schema::pick_rows;
use crate::schema::rows_within;
use crate::window::Window;

verus! {

/// The rows of a dataset that fall in one window.
pub struct SpanRows {
    pub start: i64,
    pub end: i64,
    pub rows: Seq<usize>,
}

/// The windows after one more row: the row joins the window that starts
/// where `span` does, or opens that window at its place by ascending start.
pub open spec fn add_to_span(groups: Seq<SpanRows>, span: (i64, i64), row: usize) -> Seq<SpanRows>
    decreases groups.len(),
{
    if groups.len() == 0 {
        seq![SpanRows { start: span.0, end: span.1, rows: seq![row] }]
    } else {
        let last = groups.last();
        if last.start == span.0 {
            groups.drop_last().push(
                SpanRows { start: last.start, end: last.end, rows: last.rows.push(row) },
            )
        } else if last.start < span.0 {
            groups.push(SpanRows { start: span.0, end: span.1, rows: seq![row] })
        } else {
            add_to_span(groups.drop_last(), span, row).push(last)
        }
    }
}

/// The windows after a row has joined the first `count` of `spans`.
pub open spec fn add_to_spans(
    groups: Seq<SpanRows>,
    spans: Seq<(i64, i64)>,
    row: usize,
    count: nat,
) -> Seq<SpanRows>
    decreases count,
{
    if count == 0 {
        groups
    } else {
        add_to_span(add_to_spans(groups, spans, row, (count - 1) as nat), spans[count - 1], row)
    }
}

/// The event time of a cell of the time column; a cell that is null or no
/// timestamp has none.
pub open spec fn event_time(cell: ScalarValue) -> Option<i64> {
    match cell {
        ScalarValue::Timestamp(t) => Some(t),
        _ => None,
    }
}

/// The windows of the first `rows` rows, by ascending start, each with its
/// rows in ascending order. A row without event time is in none.
pub open spec fn span_rows(times: Seq<ScalarValue>, window: Window, rows: nat) -> Seq<SpanRows>
    decreases rows,
{
    if rows == 0 {
        Seq::empty()
    } else {
        let before = span_rows(times, window, (rows - 1) as nat);
        match event_time(times[rows - 1]) {
            Some(t) => add_to_spans(
                before,
                window.assigned(t),
                (rows - 1) as usize,
                window.assigned(t).len(),
            ),
            None => before,
        }
    }
}

/// The windows of a dataset, by ascending start, each with the dataset of
/// its rows.
pub open spec fn window_groups(dataset: DataSetView, time_idx: usize, window: Window) -> Seq<
    (i64, i64, DataSetView),
> {
    let groups = span_rows(dataset.columns[time_idx as int].cells, window, dataset.num_rows());
    Seq::new(
        groups.len(),
        |i: int| (groups[i].start, groups[i].end, pick_rows(dataset, groups[i].rows)),
    )
}

/// The windows above the place of a new row stay as they are.
proof fn lemma_add_to_span_tail(groups: Seq<SpanRows>, span: (i64, i64), row: usize, at: int)
    requires
        0 <= at <= groups.len(),
        forall|j: int| at <= j < groups.len() ==> (#[trigger] groups[j]).start > span.0,
    ensures
        add_to_span(groups, span, row) == add_to_span(groups.take(at), span, row) + groups.skip(
            at,
        ),
    decreases groups.len() - at,
{
    if at == groups.len() {
        assert(groups.take(at) =~= groups);
        assert(add_to_span(groups, span, row) + groups.skip(at) =~= add_to_span(
            groups,
            span,
            row,
        ));
    } else {
        let front = groups.drop_last();
        assert(groups.last().start > span.0);
        lemma_add_to_span_tail(front, span, row, at);
        assert(front.take(at) =~= groups.take(at));
        assert((add_to_span(front.take(at), span, row) + front.skip(at)).push(groups.last())
            =~= add_to_span(groups.take(at), span, row) + groups.skip(at));
    }
}

/// The rows of one window, while the windows of a dataset are collected.
struct WindowRows {
    start: i64,
    end: i64,
    rows: Vec<usize>,
}

impl View for WindowRows {
    type V = SpanRows;

    closed spec fn view(&self) -> SpanRows {
        SpanRows { start: self.start, end: self.end, rows: self.rows@ }
    }
}

spec fn span_views(items: Seq<WindowRows>) -> Seq<SpanRows> {
    items.map_values(|w: WindowRows| w@)
}

spec fn spans_within(items: Seq<WindowRows>, count: nat) -> bool {
    forall|i: int| 0 <= i < items.len() ==> rows_within((#[trigger] items[i]).rows@, count)
}

/// Lets `row` join the window that starts where `span` does.
fn place(items: &mut Vec<WindowRows>, span: (i64, i64), row: usize, Ghost(count): Ghost<nat>)
    requires
        spans_within(old(items)@, count),
        row < count,
    ensures
        span_views(final(items)@) == add_to_span(span_views(old(items)@), span, row),
        spans_within(final(items)@, count),
{
    let ghost before = span_views(items@);
    let mut at: usize = items.len();
    while at > 0 && items[at - 1].start > span.0
        invariant
            at <= items.len(),
            items@ == old(items)@,
            before == span_views(items@),
            forall|j: int| at <= j < before.len() ==> (#[trigger] before[j]).start > span.0,
        decreases at,
    {
        assert(before[at - 1] == items@[at - 1]@);
        at -= 1;
    }
    proof {
        lemma_add_to_span_tail(before, span, row, at as int);
        if at > 0 {
            assert(before.take(at as int).last() == items@[at - 1]@);
        }
    }
    if at > 0 && items[at - 1].start == span.0 {
        let ghost entry = items@[at - 1]@;
        let mut rows: Vec<usize> = Vec::new();
        std::mem::swap(&mut rows, &mut items[at - 1].rows);
        rows.push(row);
        std::mem::swap(&mut rows, &mut items[at - 1].rows);
        proof {
            let joined = SpanRows { start: entry.start, end: entry.end, rows: entry.rows.push(row) };
            assert(items@[at - 1]@ == joined);
            assert(span_views(items@) =~= before.take(at as int).drop_last().push(joined)
                + before.skip(at as int));
            assert forall|i: int| 0 <= i < items@.len() implies rows_within(
                (#[trigger] items@[i]).rows@,
                count,
            ) by {
                if i != at - 1 {
                    assert(items@[i] == old(items)@[i]);
                } else {
                    assert(rows_within(old(items)@[i].rows@, count));
                }
            }
        }
    } else {
        let mut rows: Vec<usize> = Vec::new();
        rows.push(row);
        items.insert(at, WindowRows { start: span.0, end: span.1, rows });
        proof {
            let opened = SpanRows { start: span.0, end: span.1, rows: seq![row] };
            assert(items@[at as int]@ == opened);
            assert(span_views(items@) =~= before.take(at as int).push(opened) + before.skip(
                at as int,
            ));
            assert forall|i: int| 0 <= i < items@.len() implies rows_within(
                (#[trigger] items@[i]).rows@,
                count,
            ) by {
                if i < at {
                    assert(items@[i] == old(items)@[i]);
                } else if i > at {
                    assert(items@[i] == old(items)@[i - 1]);
                }
            }
        }
    }
}

/// The views of the windows of a dataset.
pub open spec fn window_group_views(groups: Seq<(i64, i64, DataSet)>) -> Seq<
    (i64, i64, DataSetView),
> {
    groups.map_values(|g: (i64, i64, DataSet)| (g.0, g.1, g.2@))
}

/// Cuts a dataset into its windows: for each window that holds the event
/// time of a row, by ascending start, the rows that fall in it. The event
/// times are read from the column `time_idx`.
pub fn group_by_window(dataset: &DataSet, time_idx: usize, window: &Window) -> (groups: Result<
    Vec<(i64, i64, DataSet)>,
    Error,
>)
    requires
        window.valid(),
    ensures
        match groups {
            Ok(found) => time_idx < dataset@.columns.len() && window_group_views(found@)
                == window_groups(dataset@, time_idx, *window),
            Err(error) => time_idx >= dataset@.columns.len() && error == Error::Eval(
                EvalError::NoSuchColumn,
            ),
        },
{
    if time_idx >= dataset.num_columns() {
        return Err(Error::Eval(EvalError::NoSuchColumn));
    }
    let times = dataset.column(time_idx);
    let count = dataset.num_rows();
    let mut items: Vec<WindowRows> = Vec::new();
    let mut row: usize = 0;
    assert(span_views(items@) =~= Seq::<SpanRows>::empty());
    while row < count
        invariant
            row <= count,
            window.valid(),
            times.wf(),
            times@.cells.len() == count,
            spans_within(items@, count as nat),
            span_views(items@) == span_rows(times@.cells, *window, row as nat),
        decreases count - row,
    {
        match times.scalar_value(row) {
            Scalar::Timestamp(t) => {
                let spans = window.assign(t);
                let ghost before = span_views(items@);
                let mut k: usize = 0;
                while k < spans.len()
                    invariant
                        k <= spans.len(),
                        row < count,
                        spans_within(items@, count as nat),
                        span_views(items@) == add_to_spans(before, spans@, row, k as nat),
                    decreases spans.len() - k,
                {
                    place(&mut items, spans[k], row, Ghost(count as nat));
                    k += 1;
                }
            },
            _ => {},
        }
        row += 1;
    }
    let ghost found = span_rows(times@.cells, *window, count as nat);
    let mut groups: Vec<(i64, i64, DataSet)> = Vec::with_capacity(items.len());
    let mut i: usize = 0;
    while i < items.len()
        invariant
            i <= items.len(),
            groups.len() == i,
            count == dataset@.num_rows(),
            spans_within(items@, count as nat),
            span_views(items@) == found,
            forall|j: int|
                0 <= j < i ==> (#[trigger] groups@[j]).0 == found[j].start && groups@[j].1
                    == found[j].end && groups@[j].2@ == pick_rows(dataset@, found[j].rows),
        decreases items.len() - i,
    {
        assert(found[i as int] == items@[i as int]@);
        assert(rows_within(items@[i as int].rows@, count as nat));
        let taken = dataset.take_rows(&items[i].rows);
        groups.push((items[i].start, items[i].end, taken));
        i += 1;
    }
    assert(window_group_views(groups@) =~= window_groups(dataset@, time_idx, *window));
    Ok(groups)
}

/// The columns that the first `count` of `exprs` evaluate to over a
/// dataset, and those expressions as they are afterwards. The first
/// expression that fails ends the evaluation with its error.
pub open spec fn eval_all(exprs: Seq<PhysicalExprView>, dataset: DataSetView, count: nat) -> Result<
    (Seq<Seq<ScalarValue>>, Seq<PhysicalExprView>),
    EvalError,
>
    decreases count,
{
    if count == 0 {
        Ok((Seq::empty(), Seq::empty()))
    } else {
        match eval_all(exprs, dataset, (count - 1) as nat) {
            Ok((columns, after)) => match eval_batch(exprs[count - 1], dataset) {
                Ok((values, e)) => Ok(
                    (
                        columns.push(
                            coerce_all(values, result_type(exprs[count - 1], dataset.schema)),
                        ),
                        after.push(e),
                    ),
                ),
                Err(error) => Err(error),
            },
            Err(error) => Err(error),
        }
    }
}

/// Once an expression fails, the evaluation of every longer run of
/// expressions fails with the same error.
pub proof fn lemma_eval_all_stops(
    exprs: Seq<PhysicalExprView>,
    dataset: DataSetView,
    at: nat,
    count: nat,
)
    requires
        at < count,
        eval_all(exprs, dataset, at) is Ok,
        eval_batch(exprs[at as int], dataset) is Err,
    ensures
        eval_all(exprs, dataset, count) is Err,
        eval_all(exprs, dataset, count)->Err_0 == eval_batch(exprs[at as int], dataset)->Err_0,
    decreases count,
{
    if at + 1 < count {
        lemma_eval_all_stops(exprs, dataset, at, (count - 1) as nat);
    }
}

/// An evaluation gives one value for each row.
pub proof fn lemma_eval_rows_len(e: PhysicalExprView, dataset: DataSetView, rows: nat)
    requires
        eval_rows(e, dataset, rows) is Ok,
    ensures
        eval_rows(e, dataset, rows)->Ok_0.0.len() == rows,
    decreases rows,
{
    if rows > 0 {
        lemma_eval_rows_len(e, dataset, (rows - 1) as nat);
    }
}

/// The key of each of the first `rows` rows: the cells of the key columns
/// at that row.
pub open spec fn row_keys(columns: Seq<Seq<ScalarValue>>, rows: nat) -> Seq<Seq<ScalarValue>> {
    Seq::new(rows, |r: int| Seq::new(columns.len(), |c: int| columns[c][r]))
}

/// The rows of a dataset that share a key.
pub struct KeyRows {
    pub key: Seq<ScalarValue>,
    pub rows: Seq<usize>,
}

pub open spec fn keys_of(groups: Seq<KeyRows>) -> Seq<Seq<ScalarValue>> {
    Seq::new(groups.len(), |i: int| groups[i].key)
}

/// The groups after one more row: the row joins the group of its key, or
/// opens that group behind all others.
pub open spec fn add_to_key(groups: Seq<KeyRows>, key: Seq<ScalarValue>, row: usize) -> Seq<
    KeyRows,
> {
    match slot_of(keys_of(groups), key) {
        Some(slot) => groups.update(slot, KeyRows { key, rows: groups[slot].rows.push(row) }),
        None => groups.push(KeyRows { key, rows: seq![row] }),
    }
}

/// The groups of the first `rows` rows, in the order in which their keys
/// first occur, each with its rows in ascending order.
pub open spec fn key_rows(keys: Seq<Seq<ScalarValue>>, rows: nat) -> Seq<KeyRows>
    decreases rows,
{
    if rows == 0 {
        Seq::empty()
    } else {
        add_to_key(key_rows(keys, (rows - 1) as nat), keys[rows - 1], (rows - 1) as usize)
    }
}

/// The groups of a dataset whose key columns are `columns`, in the order in
/// which their keys first occur, each with the dataset of its rows.
pub open spec fn key_groups(dataset: DataSetView, columns: Seq<Seq<ScalarValue>>) -> Seq<
    (Seq<ScalarValue>, DataSetView),
> {
    let groups = key_rows(row_keys(columns, dataset.num_rows()), dataset.num_rows());
    Seq::new(groups.len(), |i: int| (groups[i].key, pick_rows(dataset, groups[i].rows)))
}

/// The views of the groups of a dataset.
pub open spec fn key_group_views(groups: Seq<(GroupedKey, DataSet)>) -> Seq<
    (Seq<ScalarValue>, DataSetView),
> {
    groups.map_values(|g: (GroupedKey, DataSet)| (scalar_values(g.0@), g.1@))
}

/// What a grouping that ended in `groups` and left the expressions as
/// `after` has to agree with: the groups under the key columns of
/// `expected`, and its expressions; or its error.
pub open spec fn groups_by(
    expected: Result<(Seq<Seq<ScalarValue>>, Seq<PhysicalExprView>), EvalError>,
    dataset: DataSetView,
    groups: Result<Vec<(GroupedKey, DataSet)>, Error>,
    after: Seq<PhysicalExprView>,
) -> bool {
    match expected {
        Ok((columns, exprs)) => {
            &&& after == exprs
            &&& groups matches Ok(found)
            &&& key_group_views(found@) == key_groups(dataset, columns)
        },
        Err(error) => groups matches Err(e) && e == Error::Eval(error),
    }
}

spec fn columns_of(arrays: Seq<Array>) -> Seq<Seq<ScalarValue>> {
    arrays.map_values(|a: Array| a@.cells)
}

/// Cuts a dataset into its groups: the expressions are evaluated over the
/// dataset, the values of a row are its key, and the rows of one key are
/// one group. The groups come in the order in which their keys first occur.
pub fn group_by_exprs(dataset: &DataSet, exprs: &mut Vec<PhysicalExpr>) -> (groups: Result<
    Vec<(GroupedKey, DataSet)>,
    Error,
>)
    ensures
        groups_by(
            eval_all(physical_views(old(exprs)@), dataset@, old(exprs)@.len()),
            dataset@,
            groups,
            physical_views(final(exprs)@),
        ),
{
    let ghost start = physical_views(exprs@);
    let count = dataset.num_rows();
    let mut arrays: Vec<Array> = Vec::with_capacity(exprs.len());
    let mut e: usize = 0;
    assert(columns_of(arrays@) =~= Seq::<Seq<ScalarValue>>::empty());
    assert(physical_views(exprs@).take(0) =~= Seq::<PhysicalExprView>::empty());
    while e < exprs.len()
        invariant
            e <= exprs.len(),
            exprs@.len() == start.len(),
            start == physical_views(old(exprs)@),
            count == dataset@.num_rows(),
            arrays.len() == e,
            forall|j: int| 0 <= j < e ==> (#[trigger] arrays@[j]).wf(),
            forall|j: int| 0 <= j < e ==> (#[trigger] arrays@[j])@.cells.len() == count,
            forall|j: int| e <= j < exprs@.len() ==> (#[trigger] exprs@[j])@ == start[j],
            eval_all(start, dataset@, e as nat) == Ok::<
                (Seq<Seq<ScalarValue>>, Seq<PhysicalExprView>),
                EvalError,
            >((columns_of(arrays@), physical_views(exprs@).take(e as int))),
        decreases exprs.len() - e,
    {
        let ghost columns = columns_of(arrays@);
        let ghost done = physical_views(exprs@).take(e as int);
        let ghost before = exprs@;
        match exprs[e].eval(dataset) {
            Ok(array) => {
                proof {
                    lemma_eval_rows_len(start[e as int], dataset@, count as nat);
                    assert(physical_views(exprs@).take(e + 1) =~= done.push(exprs@[e as int]@));
                }
                arrays.push(array);
                assert(columns_of(arrays@) =~= columns.push(array@.cells));
            },
            Err(error) => {
                proof {
                    lemma_eval_all_stops(start, dataset@, e as nat, start.len());
                }
                return Err(Error::Eval(error));
            },
        }
        e += 1;
    }
    let ghost columns = columns_of(arrays@);
    let ghost keys = row_keys(columns, count as nat);
    proof {
        assert(physical_views(exprs@).take(e as int) =~= physical_views(exprs@));
    }
    let mut table = KeyTable::new();
    let mut rows: Vec<Vec<usize>> = Vec::new();
    let mut row: usize = 0;
    assert(keys_of(key_rows(keys, 0)) =~= table@);
    while row < count
        invariant
            row <= count,
            table.wf(),
            columns == columns_of(arrays@),
            keys == row_keys(columns, count as nat),
            forall|j: int| 0 <= j < arrays@.len() ==> (#[trigger] arrays@[j]).wf(),
            forall|j: int| 0 <= j < arrays@.len() ==> (#[trigger] arrays@[j])@.cells.len() == count,
            table@ == keys_of(key_rows(keys, row as nat)),
            rows@.len() == table@.len(),
            forall|i: int|
                0 <= i < rows@.len() ==> (#[trigger] rows@[i])@ == key_rows(keys, row as nat)[i].rows,
            forall|i: int| 0 <= i < rows@.len() ==> rows_within((#[trigger] rows@[i])@, count as nat),
        decreases count - row,
    {
        let ghost groups = key_rows(keys, row as nat);
        let mut key: Vec<Scalar> = Vec::with_capacity(arrays.len());
        let mut c: usize = 0;
        while c < arrays.len()
            invariant
                c <= arrays.len(),
                row < count,
                key.len() == c,
                forall|j: int| 0 <= j < arrays@.len() ==> (#[trigger] arrays@[j]).wf(),
                forall|j: int|
                    0 <= j < arrays@.len() ==> (#[trigger] arrays@[j])@.cells.len() == count,
                forall|j: int| 0 <= j < c ==> (#[trigger] key@[j])@ == arrays@[j]@.cells[row as int],
            decreases arrays.len() - c,
        {
            key.push(arrays[c].scalar_value(row));
            c += 1;
        }
        assert(scalar_values(key@) =~= keys[row as int]);
        match table.find(&key) {
            Some(slot) => {
                let ghost joined = rows@[slot as int]@;
                let mut taken: Vec<usize> = Vec::new();
                std::mem::swap(&mut taken, &mut rows[slot]);
                taken.push(row);
                std::mem::swap(&mut taken, &mut rows[slot]);
                proof {
                    let next = add_to_key(groups, keys[row as int], row);
                    assert(keys_of(next) =~= keys_of(groups));
                    assert forall|i: int| 0 <= i < rows@.len() implies (#[trigger] rows@[i])@
                        == next[i].rows by {}
                }
            },
            None => {
                table.insert(&key);
                let mut opened: Vec<usize> = Vec::new();
                opened.push(row);
                rows.push(opened);
                proof {
                    let next = add_to_key(groups, keys[row as int], row);
                    assert(keys_of(next) =~= keys_of(groups).push(keys[row as int]));
                    assert forall|i: int| 0 <= i < rows@.len() implies (#[trigger] rows@[i])@
                        == next[i].rows by {}
                }
            },
        }
        row += 1;
    }
    let ghost found = key_rows(keys, count as nat);
    let mut groups: Vec<(GroupedKey, DataSet)> = Vec::with_capacity(rows.len());
    let mut i: usize = 0;
    while i < rows.len()
        invariant
            i <= rows.len(),
            groups.len() == i,
            count == dataset@.num_rows(),
            table@ == keys_of(found),
            rows@.len() == table@.len(),
            forall|j: int| 0 <= j < rows@.len() ==> (#[trigger] rows@[j])@ == found[j].rows,
            forall|j: int| 0 <= j < rows@.len() ==> rows_within((#[trigger] rows@[j])@, count as nat),
            forall|j: int|
                0 <= j < i ==> scalar_values((#[trigger] groups@[j]).0@) == found[j].key
                    && groups@[j].1@ == pick_rows(dataset@, found[j].rows),
        decreases rows.len() - i,
    {
        let taken = dataset.take_rows(&rows[i]);
        let key = duplicate_scalars(table.key(i));
        assert(table@[i as int] == found[i as int].key);
        groups.push((key, taken));
        i += 1;
    }
    assert(key_group_views(groups@) =~= key_groups(dataset@, columns));
    Ok(groups)
}

} // verus!
