//! The streaming aggregate operator: windows, groups, running results,
//! watermark-driven emission, and the state that a checkpoint holds.

use vstd::prelude::*;
use crate::array::Array;
use crate::array::ArrayView;
use crate::array::DataType;
use crate::array::Scalar;
use crate::array::ScalarValue;
use crate::array::TimeUnit;
use crate::array::coerce_all;
use crate::array::scalar_values;
use crate::error::Error;
use crate::error::EvalError;
use crate::grouping::eval_all;
use crate::grouping::group_by_exprs;
use crate::grouping::group_by_window;
use crate::grouping::key_groups;
use crate::grouping::key_group_views;
use crate::grouping::window_groups;
use crate::grouping::window_group_views;
use crate::keys::GroupedKey;
use crate::keys::KeyTable;
use crate::keys::slot_of;
use crate::physical::PhysicalExpr;
use crate::physical::PhysicalExprView;
use crate::physical::blanks;
use crate::physical::blank;
use crate::physical::saved;
use crate::physical::loaded;
use crate::physical::states_of;
use crate::physical::lemma_load_saved;
use crate::physical::lemma_with_states_keeps_shape;
use crate::array::duplicate_scalars;
use crate::codec::blob_views;
use crate::codec::scalars_fit;
use crate::codec::parse_scalars;
use crate::keys::distinct;
use crate::state::SavedGroup;
use crate::state::SavedGroupView;
use crate::state::SavedState;
use crate::state::SavedStateView;
use crate::state::SavedWindow;
use crate::state::SavedWindowView;
use crate::state::decode_state;
use crate::state::enc_state;
use crate::state::encode_state;
use crate::state::lemma_state_round_trip;
use crate::state::lemma_state_cut;
use crate::state::parse_state;
use crate::state::state_fits;
use crate::physical::eval_batch;
use crate::physical::physical_views;
use crate::physical::result_type;
use crate::schema::DataSet;
use crate::schema::DataSetView;
use crate::schema::FieldView;
use crate::schema::Schema;
use crate::schema::array_views;
use crate::schema::arrays_wf;
use crate::window::Window;

verus! {

/// One group of a window: its key, its own copy of the aggregate
/// expressions, and their running results.
pub struct GroupView {
    pub key: Seq<ScalarValue>,
    pub exprs: Seq<PhysicalExprView>,
    pub values: Seq<ScalarValue>,
}

/// One open window: its bounds and its groups, in the order in which their
/// keys first occurred.
pub struct WindowView {
    pub start: i64,
    pub end: i64,
    pub groups: Seq<GroupView>,
}

/// The mathematical value of an [`AggregateManager`].
pub struct ManagerView {
    pub schema: Seq<FieldView>,
    pub group_exprs: Seq<PhysicalExprView>,
    pub aggr_exprs: Seq<PhysicalExprView>,
    pub window: Window,
    pub time_idx: usize,
    /// The open windows, by ascending start.
    pub windows: Seq<WindowView>,
    /// The highest watermark that a batch has carried so far.
    pub watermark: Option<i64>,
}

/// The keys of the groups of a window.
pub open spec fn group_keys(groups: Seq<GroupView>) -> Seq<Seq<ScalarValue>> {
    Seq::new(groups.len(), |i: int| groups[i].key)
}

/// A group that has seen no row: the template expressions, and null for
/// each result.
pub open spec fn fresh_group(key: Seq<ScalarValue>, template: Seq<PhysicalExprView>) -> GroupView {
    GroupView { key, exprs: template, values: Seq::new(template.len(), |i: int| ScalarValue::Null) }
}

/// The last cell of a column, or `otherwise` where the column is empty.
pub open spec fn last_cell(cells: Seq<ScalarValue>, otherwise: ScalarValue) -> ScalarValue {
    if cells.len() == 0 {
        otherwise
    } else {
        cells.last()
    }
}

/// A group after its first `count` expressions have been evaluated over
/// the rows `rows` that joined it: each expression has moved on by those
/// rows, and its result is its value at the last of them.
pub open spec fn fold_group(group: GroupView, rows: DataSetView, count: nat) -> Result<
    GroupView,
    EvalError,
>
    decreases count,
{
    if count == 0 {
        Ok(group)
    } else {
        match fold_group(group, rows, (count - 1) as nat) {
            Ok(g) => match eval_batch(g.exprs[count - 1], rows) {
                Ok((values, e)) => Ok(
                    GroupView {
                        key: g.key,
                        exprs: g.exprs.update(count - 1, e),
                        values: g.values.update(
                            count - 1,
                            last_cell(
                                coerce_all(values, result_type(g.exprs[count - 1], rows.schema)),
                                g.values[count - 1],
                            ),
                        ),
                    },
                ),
                Err(error) => Err(error),
            },
            Err(error) => Err(error),
        }
    }
}

/// The place of the window that starts at `start` among windows in
/// ascending order: where it is, or where it would have to go.
pub open spec fn window_index(windows: Seq<WindowView>, start: i64) -> int
    decreases windows.len(),
{
    if windows.len() == 0 {
        0
    } else if windows.last().start < start {
        windows.len() as int
    } else if windows.last().start == start {
        windows.len() - 1
    } else {
        window_index(windows.drop_last(), start)
    }
}

/// The windows with the window from `start` to `end` among them: opened
/// without groups where it was not there.
pub open spec fn with_window(windows: Seq<WindowView>, start: i64, end: i64) -> Seq<WindowView> {
    let at = window_index(windows, start);
    if at < windows.len() && windows[at].start == start {
        windows
    } else {
        windows.insert(at, WindowView { start, end, groups: Seq::empty() })
    }
}

/// A window after the rows `rows` of the group `key` have been added to
/// it: the group's expressions are evaluated over the rows; a key that is
/// new to the window opens a fresh group behind the others.
#[verifier::opaque]
pub open spec fn window_with_rows(
    window: WindowView,
    template: Seq<PhysicalExprView>,
    key: Seq<ScalarValue>,
    rows: DataSetView,
) -> Result<WindowView, EvalError> {
    let slot = slot_of(group_keys(window.groups), key);
    let group = match slot {
        Some(s) => window.groups[s],
        None => fresh_group(key, template),
    };
    match fold_group(group, rows, template.len()) {
        Ok(g) => Ok(
            WindowView {
                start: window.start,
                end: window.end,
                groups: match slot {
                    Some(s) => window.groups.update(s, g),
                    None => window.groups.push(g),
                },
            },
        ),
        Err(error) => Err(error),
    }
}

/// The windows after the rows `rows` of the group `key` have been added to
/// the window from `start` to `end`.
#[verifier::opaque]
pub open spec fn processed(
    windows: Seq<WindowView>,
    template: Seq<PhysicalExprView>,
    start: i64,
    end: i64,
    key: Seq<ScalarValue>,
    rows: DataSetView,
) -> Result<Seq<WindowView>, EvalError> {
    let opened = with_window(windows, start, end);
    let at = window_index(windows, start);
    match window_with_rows(opened[at], template, key, rows) {
        Ok(window) => Ok(opened.update(at, window)),
        Err(error) => Err(error),
    }
}

/// Whether a window that ends at `end` is closed: a watermark beyond its
/// end has been seen.
pub open spec fn is_closed(watermark: Option<i64>, end: i64) -> bool {
    match watermark {
        Some(w) => w > end,
        None => false,
    }
}

/// The later of two watermarks.
pub open spec fn later(a: Option<i64>, b: Option<i64>) -> Option<i64> {
    match (a, b) {
        (Some(x), Some(y)) => Some(
            if x >= y {
                x
            } else {
                y
            },
        ),
        (Some(x), None) => Some(x),
        (None, other) => other,
    }
}

/// The windows after the first `count` groups of a window's rows have been
/// added to it.
pub open spec fn add_groups(
    windows: Seq<WindowView>,
    template: Seq<PhysicalExprView>,
    start: i64,
    end: i64,
    groups: Seq<(Seq<ScalarValue>, DataSetView)>,
    count: nat,
) -> Result<Seq<WindowView>, EvalError>
    decreases count,
{
    if count == 0 {
        Ok(windows)
    } else {
        match add_groups(windows, template, start, end, groups, (count - 1) as nat) {
            Ok(w) => processed(w, template, start, end, groups[count - 1].0, groups[count - 1].1),
            Err(error) => Err(error),
        }
    }
}

/// The open windows and the grouping expressions after the rows `rows` of
/// the window from `start` to `end` have been added: the grouping
/// expressions are evaluated over the rows, and each group of rows goes to
/// its group of the window.
#[verifier::opaque]
pub open spec fn add_window(
    windows: Seq<WindowView>,
    group_exprs: Seq<PhysicalExprView>,
    template: Seq<PhysicalExprView>,
    start: i64,
    end: i64,
    rows: DataSetView,
) -> Result<(Seq<WindowView>, Seq<PhysicalExprView>), EvalError> {
    match eval_all(group_exprs, rows, group_exprs.len()) {
        Ok((columns, after)) => match add_groups(
            windows,
            template,
            start,
            end,
            key_groups(rows, columns),
            key_groups(rows, columns).len(),
        ) {
            Ok(w) => Ok((w, after)),
            Err(error) => Err(error),
        },
        Err(error) => Err(error),
    }
}

/// The open windows and the grouping expressions after the first `count`
/// windows of a batch have been added. The rows of a window that is closed
/// already are late: they are dropped.
pub open spec fn add_windows(
    manager: ManagerView,
    batch: Seq<(i64, i64, DataSetView)>,
    count: nat,
) -> Result<(Seq<WindowView>, Seq<PhysicalExprView>), EvalError>
    decreases count,
{
    if count == 0 {
        Ok((manager.windows, manager.group_exprs))
    } else {
        match add_windows(manager, batch, (count - 1) as nat) {
            Ok((windows, group_exprs)) => {
                let (start, end, rows) = batch[count - 1];
                if is_closed(manager.watermark, end) {
                    Ok((windows, group_exprs))
                } else {
                    add_window(windows, group_exprs, manager.aggr_exprs, start, end, rows)
                }
            },
            Err(error) => Err(error),
        }
    }
}

/// The windows among `windows`, in their order, whose end the watermark is
/// beyond (`closed`), or the others.
pub open spec fn parted(windows: Seq<WindowView>, watermark: i64, closed: bool) -> Seq<WindowView>
    decreases windows.len(),
{
    if windows.len() == 0 {
        windows
    } else {
        let earlier = parted(windows.drop_last(), watermark, closed);
        if (watermark > windows.last().end) == closed {
            earlier.push(windows.last())
        } else {
            earlier
        }
    }
}

/// The windows that a watermark closes: every window whose end the
/// watermark is beyond, in the order of the windows.
pub open spec fn closed_windows(windows: Seq<WindowView>, watermark: i64) -> Seq<WindowView> {
    parted(windows, watermark, true)
}

/// The windows that a watermark leaves open, in the order of the windows.
pub open spec fn left_open(windows: Seq<WindowView>, watermark: i64) -> Seq<WindowView> {
    parted(windows, watermark, false)
}

/// The dataset that a completed window is emitted as: one row per group, in
/// the order of the groups; one column per aggregate expression, of the
/// type of its field, that holds the groups' results, a result of another
/// type as null; and a last column that holds the window's start.
#[verifier::opaque]
pub open spec fn emitted(window: WindowView, schema: Seq<FieldView>, exprs: nat) -> DataSetView {
    DataSetView {
        schema,
        columns: Seq::new(
            exprs + 1,
            |c: int|
                ArrayView {
                    data_type: schema[c].data_type,
                    cells: Seq::new(
                        window.groups.len(),
                        |g: int|
                            if c < exprs {
                                window.groups[g].values[c].coerce(schema[c].data_type)
                            } else {
                                ScalarValue::Timestamp(window.start)
                            },
                    ),
                },
        ),
    }
}

/// What a batch does to the operator, and what is emitted for it.
///
/// The batch is cut into windows, and each window's rows into groups; each
/// group's aggregate expressions move on by its rows. Rows of a window
/// that an earlier watermark closed are dropped. Then the batch's
/// watermark closes every window whose end it is beyond, and each closed
/// window is emitted, earliest first, and forgotten. Without a watermark
/// nothing is emitted.
pub open spec fn aggregated(manager: ManagerView, batch: DataSetView, watermark: Option<i64>)
    -> Result<(ManagerView, Seq<DataSetView>), Error> {
    if manager.time_idx >= batch.columns.len() {
        Err(Error::Eval(EvalError::NoSuchColumn))
    } else {
        let windows = window_groups(batch, manager.time_idx, manager.window);
        match add_windows(manager, windows, windows.len()) {
            Ok((open, group_exprs)) => {
                let closed = match watermark {
                    Some(w) => closed_windows(open, w),
                    None => Seq::empty(),
                };
                let kept = match watermark {
                    Some(w) => left_open(open, w),
                    None => open,
                };
                Ok(
                    (
                        ManagerView {
                            schema: manager.schema,
                            group_exprs,
                            aggr_exprs: manager.aggr_exprs,
                            window: manager.window,
                            time_idx: manager.time_idx,
                            windows: kept,
                            watermark: later(manager.watermark, watermark),
                        },
                        Seq::new(
                            closed.len(),
                            |i: int| emitted(closed[i], manager.schema, manager.aggr_exprs.len()),
                        ),
                    ),
                )
            },
            Err(error) => Err(Error::Eval(error)),
        }
    }
}

/// The running results of one group of a window.
pub struct AggregateState {
    aggr_exprs: Vec<PhysicalExpr>,
    values: Vec<Scalar>,
}

/// One open window.
pub struct WindowState {
    start_time: i64,
    end_time: i64,
    keys: KeyTable,
    children: Vec<AggregateState>,
}

impl View for WindowState {
    type V = WindowView;

    closed spec fn view(&self) -> WindowView {
        WindowView {
            start: self.start_time,
            end: self.end_time,
            groups: Seq::new(
                self.children@.len(),
                |i: int|
                    GroupView {
                        key: self.keys@[i],
                        exprs: physical_views(self.children@[i].aggr_exprs@),
                        values: scalar_values(self.children@[i].values@),
                    },
            ),
        }
    }
}

impl WindowState {
    /// Every group has a key, and as many expressions and results as the
    /// operator has aggregate expressions.
    pub closed spec fn wf(&self, exprs: nat) -> bool {
        &&& self.keys.wf()
        &&& self.keys@.len() == self.children@.len()
        &&& forall|i: int|
            0 <= i < self.children@.len() ==> (#[trigger] self.children@[i]).aggr_exprs@.len()
                == exprs && self.children@[i].values@.len() == exprs
    }
}

impl AggregateState {
    /// This state as the group of `key`.
    pub closed spec fn group(&self, key: Seq<ScalarValue>) -> GroupView {
        GroupView {
            key,
            exprs: physical_views(self.aggr_exprs@),
            values: scalar_values(self.values@),
        }
    }

    /// The expressions of this state are those of `template`, but for
    /// their state cells.
    pub closed spec fn shaped(&self, template: Seq<PhysicalExprView>) -> bool {
        blanks(physical_views(self.aggr_exprs@)) == blanks(template)
    }

    /// A state that has seen no row.
    fn fresh(template: &Vec<PhysicalExpr>, Ghost(key): Ghost<Seq<ScalarValue>>) -> (state:
        AggregateState)
        ensures
            state.shaped(physical_views(template@)),
            state.group(key) == fresh_group(key, physical_views(template@)),
            state.aggr_exprs@.len() == template@.len(),
            state.values@.len() == template@.len(),
    {
        let aggr_exprs = duplicate_exprs(template);
        assert(physical_views(aggr_exprs@).len() == physical_views(template@).len());
        let mut values: Vec<Scalar> = Vec::with_capacity(template.len());
        let mut i: usize = 0;
        while i < template.len()
            invariant
                i <= template.len(),
                values.len() == i,
                forall|j: int| 0 <= j < i ==> (#[trigger] values@[j])@ is Null,
            decreases template.len() - i,
        {
            values.push(Scalar::Null);
            i += 1;
        }
        let state = AggregateState { aggr_exprs, values };
        assert(state.group(key).values =~= fresh_group(key, physical_views(template@)).values);
        state
    }

    /// Evaluates each expression over the rows that joined the group and
    /// keeps its value at the last of them.
    fn update(&mut self, dataset: &DataSet, Ghost(key): Ghost<Seq<ScalarValue>>) -> (result: Result<
        (),
        EvalError,
    >)
        requires
            old(self).aggr_exprs@.len() == old(self).values@.len(),
        ensures
            final(self).aggr_exprs@.len() == old(self).aggr_exprs@.len(),
            final(self).values@.len() == old(self).values@.len(),
            forall|template: Seq<PhysicalExprView>|
                old(self).shaped(template) ==> final(self).shaped(template),
            match fold_group(old(self).group(key), dataset@, old(self).aggr_exprs@.len() as nat) {
                Ok(g) => result is Ok && final(self).group(key) == g,
                Err(error) => result == Err::<(), EvalError>(error),
            },
    {
        let ghost start = self.group(key);
        let count = self.aggr_exprs.len();
        let mut i: usize = 0;
        while i < count
            invariant
                i <= count,
                count == self.aggr_exprs@.len(),
                self.aggr_exprs@.len() == old(self).aggr_exprs@.len(),
                self.values@.len() == old(self).values@.len(),
                self.aggr_exprs@.len() == self.values@.len(),
                blanks(physical_views(self.aggr_exprs@)) == blanks(
                    physical_views(old(self).aggr_exprs@),
                ),
                start == old(self).group(key),
                fold_group(start, dataset@, i as nat) == Ok::<GroupView, EvalError>(self.group(key)),
            decreases count - i,
        {
            let ghost before = self.group(key);
            let ghost shapes = blanks(physical_views(self.aggr_exprs@));
            let outcome = self.aggr_exprs[i].eval(dataset);
            assert(blanks(physical_views(self.aggr_exprs@)) =~= shapes);
            match outcome {
                Ok(array) => {
                    let len = array.len();
                    if len > 0 {
                        self.values[i] = array.scalar_value(len - 1);
                    }
                    proof {
                        let values = eval_batch(before.exprs[i as int], dataset@)->Ok_0.0;
                        let e = eval_batch(before.exprs[i as int], dataset@)->Ok_0.1;
                        assert(self.group(key).exprs =~= before.exprs.update(i as int, e));
                        assert(self.group(key).values =~= before.values.update(
                            i as int,
                            last_cell(array@.cells, before.values[i as int]),
                        ));
                    }
                },
                Err(error) => {
                    proof {
                        lemma_fold_group_stops(start, dataset@, i as nat, count as nat);
                    }
                    return Err(error);
                },
            }
            i += 1;
        }
        Ok(())
    }
}

/// Once an expression of a group fails, every longer run of its
/// expressions fails with the same error.
pub proof fn lemma_fold_group_stops(group: GroupView, rows: DataSetView, at: nat, count: nat)
    requires
        at < count,
        fold_group(group, rows, at) is Ok,
        eval_batch(fold_group(group, rows, at)->Ok_0.exprs[at as int], rows) is Err,
    ensures
        fold_group(group, rows, count) is Err,
        fold_group(group, rows, count)->Err_0 == eval_batch(
            fold_group(group, rows, at)->Ok_0.exprs[at as int],
            rows,
        )->Err_0,
    decreases count,
{
    if at + 1 < count {
        lemma_fold_group_stops(group, rows, at, (count - 1) as nat);
    }
}

impl WindowState {
    /// The expressions of every group are those of `template`, but for
    /// their state cells.
    pub closed spec fn shaped(&self, template: Seq<PhysicalExprView>) -> bool {
        forall|i: int|
            0 <= i < self.children@.len() ==> (#[trigger] self.children@[i]).shaped(template)
    }

    /// Adds the rows `dataset` of the group `key` to this window.
    fn add_rows(&mut self, key: &GroupedKey, template: &Vec<PhysicalExpr>, dataset: &DataSet) -> (result:
        Result<(), EvalError>)
        requires
            old(self).wf(template@.len() as nat),
            old(self).shaped(physical_views(template@)),
        ensures
            final(self).wf(template@.len() as nat),
            final(self).shaped(physical_views(template@)),
            final(self)@.start == old(self)@.start,
            match window_with_rows(
                old(self)@,
                physical_views(template@),
                scalar_values(key@),
                dataset@,
            ) {
                Ok(window) => result is Ok && final(self)@ == window,
                Err(error) => result == Err::<(), EvalError>(error),
            },
    {
        proof {
            reveal(window_with_rows);
        }
        let ghost wanted = scalar_values(key@);
        let ghost before = self@;
        let ghost exprs = template@.len() as nat;
        assert(group_keys(before.groups) =~= self.keys@);
        assert(physical_views(template@).len() == template@.len());
        let found = self.keys.find(key);
        let slot = match found {
            Some(slot) => slot,
            None => {
                let slot = self.keys.insert(key);
                self.children.push(AggregateState::fresh(template, Ghost(wanted)));
                assert(self@.groups =~= before.groups.push(
                    fresh_group(wanted, physical_views(template@)),
                ));
                slot
            },
        };
        let ghost opened = self@;
        let ghost children = self.children@;
        assert(self.children@[slot as int].group(wanted) == opened.groups[slot as int]);
        assert(self.shaped(physical_views(template@)));
        let result = self.children[slot].update(dataset, Ghost(wanted));
        proof {
            assert forall|i: int| 0 <= i < self.children@.len() implies (
            #[trigger] self.children@[i]).shaped(physical_views(template@)) by {
                if i != slot {
                    assert(self.children@[i] == children[i]);
                } else {
                    assert(children[i].shaped(physical_views(template@)));
                }
            }
            assert forall|i: int| 0 <= i < self.children@.len() implies (
            #[trigger] self.children@[i]).aggr_exprs@.len() == exprs
                && self.children@[i].values@.len() == exprs by {}
            if result is Ok {
                let g = self.children@[slot as int].group(wanted);
                assert(self@.groups =~= opened.groups.update(slot as int, g));
                if found is None {
                    assert(opened.groups.update(slot as int, g) =~= before.groups.push(g));
                }
            }
        }
        result
    }
}

impl WindowState {
    /// The dataset that this window is emitted as.
    fn emit(&self, schema: &Schema, Ghost(exprs): Ghost<nat>) -> (dataset: DataSet)
        requires
            self.wf(exprs),
            schema@.len() == exprs + 1,
            schema@[exprs as int].data_type is Timestamp,
        ensures
            dataset@ == emitted(self@, schema@, exprs),
    {
        proof {
            reveal(emitted);
        }
        let count = schema.len() - 1;
        let groups = self.children.len();
        let ghost window = self@;
        let ghost expected = emitted(window, schema@, exprs);
        let mut columns: Vec<Array> = Vec::with_capacity(schema.len());
        let mut c: usize = 0;
        while c < count
            invariant
                c <= count,
                count == exprs,
                schema@.len() == exprs + 1,
                self.wf(exprs),
                groups == self.children@.len(),
                window == self@,
                expected == emitted(window, schema@, exprs),
                columns.len() == c,
                arrays_wf(columns@),
                forall|j: int| 0 <= j < c ==> (#[trigger] columns@[j])@ == expected.columns[j],
            decreases count - c,
        {
            let mut results: Vec<Scalar> = Vec::with_capacity(groups);
            let mut g: usize = 0;
            while g < groups
                invariant
                    g <= groups,
                    c < exprs,
                    self.wf(exprs),
                    groups == self.children@.len(),
                    window == self@,
                    results.len() == g,
                    forall|j: int|
                        0 <= j < g ==> (#[trigger] results@[j])@ == window.groups[j].values[c as int],
                decreases groups - g,
            {
                assert(self.children@[g as int].values@.len() == exprs);
                results.push(self.children[g].values[c].duplicate());
                g += 1;
            }
            let column = Array::materialize(schema.data_type(c), &results);
            proof {
                reveal(emitted);
                assert(column@.cells =~= expected.columns[c as int].cells);
            }
            columns.push(column);
            c += 1;
        }
        let unit = match schema.data_type(count) {
            DataType::Timestamp(unit) => unit,
            _ => TimeUnit::Millisecond,
        };
        let times = Array::new_timestamp_scalar(unit, groups, Some(self.start_time));
        proof {
            reveal(emitted);
        }
        assert(times@.cells =~= expected.columns[count as int].cells);
        columns.push(times);
        proof {
            assert(array_views(columns@) =~= expected.columns);
            assert(expected.num_rows() == groups);
        }
        DataSet::new(schema.duplicate(), columns)
    }
}

/// The views of a sequence of windows.
pub open spec fn window_views(windows: Seq<WindowState>) -> Seq<WindowView> {
    windows.map_values(|w: WindowState| w@)
}

/// Later windows start later.
pub open spec fn ascending(windows: Seq<WindowView>) -> bool {
    forall|i: int, j: int|
        0 <= i < j < windows.len() ==> (#[trigger] windows[i]).start < (#[trigger] windows[j]).start
}

/// The windows above the place of a start are not looked at.
proof fn lemma_window_index_tail(windows: Seq<WindowView>, start: i64, at: int)
    requires
        0 <= at <= windows.len(),
        forall|j: int| at <= j < windows.len() ==> (#[trigger] windows[j]).start > start,
    ensures
        window_index(windows, start) == window_index(windows.take(at), start),
    decreases windows.len() - at,
{
    if at == windows.len() {
        assert(windows.take(at) =~= windows);
    } else {
        let front = windows.drop_last();
        assert(windows.last().start > start);
        lemma_window_index_tail(front, start, at);
        assert(front.take(at) =~= windows.take(at));
    }
}

/// A copy of a sequence of expressions, state cells included.
pub fn duplicate_exprs(exprs: &Vec<PhysicalExpr>) -> (copy: Vec<PhysicalExpr>)
    ensures
        physical_views(copy@) == physical_views(exprs@),
{
    let mut copy: Vec<PhysicalExpr> = Vec::with_capacity(exprs.len());
    let mut i: usize = 0;
    while i < exprs.len()
        invariant
            i <= exprs.len(),
            copy.len() == i,
            forall|j: int| 0 <= j < i ==> copy@[j]@ == exprs@[j]@,
        decreases exprs.len() - i,
    {
        copy.push(exprs[i].duplicate());
        i += 1;
    }
    assert(physical_views(copy@) =~= physical_views(exprs@));
    copy
}

/// The aggregate operator's state: what it was built with, the open
/// windows, and the highest watermark seen.
pub struct AggregateManager {
    schema: Schema,
    group_exprs: Vec<PhysicalExpr>,
    aggr_exprs: Vec<PhysicalExpr>,
    window: Window,
    time_idx: usize,
    windows: Vec<WindowState>,
    watermark: Option<i64>,
}

impl View for AggregateManager {
    type V = ManagerView;

    closed spec fn view(&self) -> ManagerView {
        ManagerView {
            schema: self.schema@,
            group_exprs: physical_views(self.group_exprs@),
            aggr_exprs: physical_views(self.aggr_exprs@),
            window: self.window,
            time_idx: self.time_idx,
            windows: window_views(self.windows@),
            watermark: self.watermark,
        }
    }
}

impl ManagerView {
    /// The output schema has one field per aggregate expression and a
    /// trailing timestamp field, and the window is valid.
    pub open spec fn configured(self) -> bool {
        &&& self.window.valid()
        &&& self.schema.len() == self.aggr_exprs.len() + 1
        &&& self.schema[self.aggr_exprs.len() as int].data_type is Timestamp
    }

    /// What the operator was built with stays as it is, and so does the
    /// watermark.
    pub open spec fn keeps(self, before: ManagerView) -> bool {
        &&& self.schema == before.schema
        &&& self.aggr_exprs == before.aggr_exprs
        &&& self.window == before.window
        &&& self.time_idx == before.time_idx
    }
}

impl AggregateManager {
    /// The operator is configured, its windows are well formed and come by
    /// ascending start.
    pub closed spec fn wf(&self) -> bool {
        &&& self@.configured()
        &&& ascending(self@.windows)
        &&& forall|i: int|
            0 <= i < self.windows@.len() ==> (#[trigger] self.windows@[i]).wf(
                self.aggr_exprs@.len() as nat,
            )
        &&& forall|i: int|
            0 <= i < self.windows@.len() ==> (#[trigger] self.windows@[i]).shaped(
                physical_views(self.aggr_exprs@),
            )
    }

    /// An operator without open windows. The output schema must have one
    /// field per aggregate expression and a trailing timestamp field, and
    /// the window must be valid.
    pub fn try_new(
        schema: Schema,
        group_exprs: Vec<PhysicalExpr>,
        aggr_exprs: Vec<PhysicalExpr>,
        window: Window,
        time_idx: usize,
    ) -> (made: Result<AggregateManager, Error>)
        ensures
            made is Ok <==> (ManagerView {
                schema: schema@,
                group_exprs: physical_views(group_exprs@),
                aggr_exprs: physical_views(aggr_exprs@),
                window,
                time_idx,
                windows: Seq::empty(),
                watermark: None,
            }).configured(),
            made matches Ok(manager) ==> manager.wf() && manager@ == (ManagerView {
                schema: schema@,
                group_exprs: physical_views(group_exprs@),
                aggr_exprs: physical_views(aggr_exprs@),
                window,
                time_idx,
                windows: Seq::empty(),
                watermark: None,
            }),
            made matches Err(e) ==> e == Error::InvalidSchema,
    {
        assert(physical_views(aggr_exprs@).len() == aggr_exprs@.len());
        if !window.is_valid() {
            return Err(Error::InvalidSchema);
        }
        let fields = schema.len();
        if aggr_exprs.len() == usize::MAX || fields != aggr_exprs.len() + 1 {
            return Err(Error::InvalidSchema);
        }
        match schema.data_type(aggr_exprs.len()) {
            DataType::Timestamp(_) => {},
            _ => {
                return Err(Error::InvalidSchema);
            },
        }
        let manager = AggregateManager {
            schema,
            group_exprs,
            aggr_exprs,
            window,
            time_idx,
            windows: Vec::new(),
            watermark: None,
        };
        assert(manager@.windows =~= Seq::<WindowView>::empty());
        Ok(manager)
    }

    /// The highest watermark that a batch has carried so far.
    pub fn watermark(&self) -> (watermark: Option<i64>)
        ensures
            watermark == self@.watermark,
    {
        self.watermark
    }

    /// The number of open windows.
    pub fn open_windows(&self) -> (count: usize)
        ensures
            count == self@.windows.len(),
    {
        self.windows.len()
    }
}

/// Finds the window that starts at `start`, or opens it at its place.
fn open_window(
    windows: &mut Vec<WindowState>,
    start: i64,
    end: i64,
    Ghost(exprs): Ghost<nat>,
    Ghost(template): Ghost<Seq<PhysicalExprView>>,
) -> (at: usize)
    requires
        ascending(window_views(old(windows)@)),
        forall|i: int| 0 <= i < old(windows)@.len() ==> (#[trigger] old(windows)@[i]).wf(exprs),
        forall|i: int| 0 <= i < old(windows)@.len() ==> (#[trigger] old(windows)@[i]).shaped(template),
    ensures
        forall|i: int|
            0 <= i < final(windows)@.len() ==> (#[trigger] final(windows)@[i]).shaped(template),
        at == window_index(window_views(old(windows)@), start),
        at < final(windows)@.len(),
        window_views(final(windows)@) == with_window(window_views(old(windows)@), start, end),
        final(windows)@[at as int]@.start == start,
        ascending(window_views(final(windows)@)),
        forall|i: int| 0 <= i < final(windows)@.len() ==> (#[trigger] final(windows)@[i]).wf(exprs),
{
    let ghost before = window_views(windows@);
    let mut at: usize = windows.len();
    while at > 0 && windows[at - 1].start_time > start
        invariant
            at <= windows.len(),
            windows@ == old(windows)@,
            before == window_views(windows@),
            forall|j: int| at <= j < before.len() ==> (#[trigger] before[j]).start > start,
        decreases at,
    {
        assert(before[at - 1] == windows@[at - 1]@);
        at -= 1;
    }
    proof {
        lemma_window_index_tail(before, start, at as int);
        if at > 0 {
            assert(before.take(at as int).last() == windows@[at - 1]@);
            assert(before[at - 1] == windows@[at - 1]@);
        }
    }
    if at > 0 && windows[at - 1].start_time == start {
        at - 1
    } else {
        let opened = WindowState {
            start_time: start,
            end_time: end,
            keys: KeyTable::new(),
            children: Vec::new(),
        };
        assert(opened@.groups =~= Seq::<GroupView>::empty());
        windows.insert(at, opened);
        proof {
            let after = window_views(windows@);
            assert(after =~= before.insert(
                at as int,
                WindowView { start, end, groups: Seq::empty() },
            ));
            assert forall|i: int, j: int| 0 <= i < j < after.len() implies (#[trigger] after[i]).start
                < (#[trigger] after[j]).start by {
                let a = if i < at {
                    i
                } else {
                    i - 1
                };
                let b = if j < at {
                    j
                } else {
                    j - 1
                };
                if i != at && j != at {
                    assert(before[a].start < before[b].start);
                } else if i == at {
                    assert(before[b].start > start);
                } else {
                    if at > 0 {
                        if a < at - 1 {
                            assert(before[a].start < before[at - 1].start);
                        }
                    }
                }
            }
            assert forall|i: int| 0 <= i < windows@.len() implies (#[trigger] windows@[i]).wf(
                exprs,
            ) by {
                if i < at {
                    assert(windows@[i] == old(windows)@[i]);
                } else if i > at {
                    assert(windows@[i] == old(windows)@[i - 1]);
                }
            }
            assert forall|i: int| 0 <= i < windows@.len() implies (#[trigger] windows@[i]).shaped(
                template,
            ) by {
                if i < at {
                    assert(windows@[i] == old(windows)@[i]);
                } else if i > at {
                    assert(windows@[i] == old(windows)@[i - 1]);
                }
            }
        }
        at
    }
}

/// The views of a sequence of datasets.
pub open spec fn dataset_views(datasets: Seq<DataSet>) -> Seq<DataSetView> {
    datasets.map_values(|d: DataSet| d@)
}

impl AggregateManager {
    /// Adds the rows `dataset` of the group `grouped_key` to the window
    /// from `start` to `end`: the window is opened if it is not open, the
    /// group is created if the window has not seen its key, and each of the
    /// group's aggregate expressions is evaluated over the rows.
    pub fn process_dataset(
        &mut self,
        start: i64,
        end: i64,
        grouped_key: GroupedKey,
        dataset: &DataSet,
    ) -> (result: Result<(), Error>)
        requires
            old(self).wf(),
        ensures
            final(self).wf(),
            final(self)@.keeps(old(self)@),
            final(self)@.group_exprs == old(self)@.group_exprs,
            final(self)@.watermark == old(self)@.watermark,
            match processed(
                old(self)@.windows,
                old(self)@.aggr_exprs,
                start,
                end,
                scalar_values(grouped_key@),
                dataset@,
            ) {
                Ok(windows) => result is Ok && final(self)@.windows == windows,
                Err(error) => result == Err::<(), Error>(Error::Eval(error)),
            },
    {
        proof {
            reveal(processed);
        }
        let ghost exprs = self.aggr_exprs@.len() as nat;
        let ghost before = window_views(self.windows@);
        assert(physical_views(self.aggr_exprs@).len() == exprs);
        let ghost template = physical_views(self.aggr_exprs@);
        let at = open_window(&mut self.windows, start, end, Ghost(exprs), Ghost(template));
        let ghost opened = window_views(self.windows@);
        let ghost rest = self.windows@;
        assert(self.windows@[at as int].wf(exprs));
        assert(self.windows@[at as int].shaped(template));
        assert(opened[at as int] == self.windows@[at as int]@);
        let result = self.windows[at].add_rows(&grouped_key, &self.aggr_exprs, dataset);
        proof {
            let after = window_views(self.windows@);
            assert forall|i: int| 0 <= i < self.windows@.len() implies (
            #[trigger] self.windows@[i]).shaped(template) by {
                if i != at {
                    assert(self.windows@[i] == rest[i]);
                }
            }
            assert forall|i: int| 0 <= i < self.windows@.len() implies (#[trigger] self.windows@[i]).wf(
                exprs,
            ) by {
                if i != at {
                    assert(self.windows@[i] == rest[i]);
                }
            }
            assert(after =~= opened.update(at as int, self.windows@[at as int]@));
            assert forall|i: int, j: int| 0 <= i < j < after.len() implies (#[trigger] after[i]).start
                < (#[trigger] after[j]).start by {
                assert(opened[i].start < opened[j].start);
            }
        }
        match result {
            Ok(()) => Ok(()),
            Err(error) => Err(Error::Eval(error)),
        }
    }
}

/// Once a group fails, every longer run of groups fails with the same error.
pub proof fn lemma_add_groups_stops(
    windows: Seq<WindowView>,
    template: Seq<PhysicalExprView>,
    start: i64,
    end: i64,
    groups: Seq<(Seq<ScalarValue>, DataSetView)>,
    at: nat,
    count: nat,
    error: EvalError,
)
    requires
        at < count,
        match add_groups(windows, template, start, end, groups, at) {
            Ok(w) => processed(w, template, start, end, groups[at as int].0, groups[at as int].1)
                == Err::<Seq<WindowView>, EvalError>(error),
            Err(e) => e == error,
        },
    ensures
        add_groups(windows, template, start, end, groups, count) == Err::<
            Seq<WindowView>,
            EvalError,
        >(error),
    decreases count,
{
    if at + 1 < count {
        lemma_add_groups_stops(windows, template, start, end, groups, at, (count - 1) as nat, error);
    }
}

/// Once a window of a batch fails, every longer run of its windows fails
/// with the same error.
pub proof fn lemma_add_windows_stops(
    manager: ManagerView,
    batch: Seq<(i64, i64, DataSetView)>,
    at: nat,
    count: nat,
    error: EvalError,
)
    requires
        at < count,
        add_windows(manager, batch, at + 1) == Err::<
            (Seq<WindowView>, Seq<PhysicalExprView>),
            EvalError,
        >(error),
    ensures
        add_windows(manager, batch, count) == Err::<
            (Seq<WindowView>, Seq<PhysicalExprView>),
            EvalError,
        >(error),
    decreases count,
{
    if at + 1 < count {
        lemma_add_windows_stops(manager, batch, at, (count - 1) as nat, error);
    }
}

/// Each part of the windows holds windows of the whole only, and comes by
/// ascending start where the whole does.
proof fn lemma_parted(windows: Seq<WindowView>, watermark: i64, closed: bool)
    ensures
        parted(windows, watermark, closed).len() <= windows.len(),
        forall|i: int|
            0 <= i < parted(windows, watermark, closed).len() ==> {
                &&& windows.contains(#[trigger] parted(windows, watermark, closed)[i])
                &&& (watermark > parted(windows, watermark, closed)[i].end) == closed
            },
        ascending(windows) ==> ascending(parted(windows, watermark, closed)),
    decreases windows.len(),
{
    if windows.len() > 0 {
        let front = windows.drop_last();
        let part = parted(windows, watermark, closed);
        let earlier = parted(front, watermark, closed);
        lemma_parted(front, watermark, closed);
        assert forall|i: int| 0 <= i < part.len() implies windows.contains(#[trigger] part[i]) && (
        watermark > part[i].end) == closed by {
            if i < earlier.len() {
                assert(front.contains(earlier[i]));
                let k = choose|k: int| 0 <= k < front.len() && front[k] == earlier[i];
                assert(windows[k] == part[i]);
            } else {
                assert(windows[windows.len() - 1] == part[i]);
            }
        }
        if ascending(windows) {
            assert forall|i: int, j: int| 0 <= i < j < front.len() implies (#[trigger] front[i]).start
                < (#[trigger] front[j]).start by {
                assert(windows[i].start < windows[j].start);
            }
            assert forall|i: int, j: int| 0 <= i < j < part.len() implies (#[trigger] part[i]).start
                < (#[trigger] part[j]).start by {
                if j < earlier.len() {
                    assert(earlier[i].start < earlier[j].start);
                } else {
                    assert(front.contains(earlier[i]));
                    let k = choose|k: int| 0 <= k < front.len() && front[k] == earlier[i];
                    assert(windows[k].start < windows[windows.len() - 1].start);
                }
            }
        }
    }
}

fn closes(watermark: Option<i64>, end: i64) -> (closed: bool)
    ensures
        closed == is_closed(watermark, end),
{
    match watermark {
        Some(w) => w > end,
        None => false,
    }
}

fn later_of(a: Option<i64>, b: Option<i64>) -> (latest: Option<i64>)
    ensures
        latest == later(a, b),
{
    match (a, b) {
        (Some(x), Some(y)) => Some(
            if x >= y {
                x
            } else {
                y
            },
        ),
        (Some(x), None) => Some(x),
        (None, other) => other,
    }
}

/// What a call of `aggregate` that ended in `result` and left the operator
/// as `after` has to agree with: the operator and the emitted datasets of
/// `expected`, or its error.
pub open spec fn aggregates(
    expected: Result<(ManagerView, Seq<DataSetView>), Error>,
    result: Result<Vec<DataSet>, Error>,
    after: ManagerView,
) -> bool {
    match expected {
        Ok((manager, outputs)) => {
            &&& after == manager
            &&& result matches Ok(datasets)
            &&& dataset_views(datasets@) == outputs
        },
        Err(error) => result matches Err(e) && e == error,
    }
}

/// What the addition of a window's rows that ended in `result` and left
/// the operator as `after` has to agree with.
pub open spec fn adds_window(
    expected: Result<(Seq<WindowView>, Seq<PhysicalExprView>), EvalError>,
    result: Result<(), Error>,
    after: ManagerView,
) -> bool {
    match expected {
        Ok((windows, group_exprs)) => result is Ok && after.windows == windows && after.group_exprs
            == group_exprs,
        Err(error) => result matches Err(e) && e == Error::Eval(error),
    }
}

impl AggregateManager {
    /// Adds the rows of one window of a batch: cuts them into groups and
    /// hands each group to `process_dataset`.
    fn add_window(&mut self, start: i64, end: i64, rows: &DataSet) -> (result: Result<(), Error>)
        requires
            old(self).wf(),
        ensures
            final(self).wf(),
            final(self)@.keeps(old(self)@),
            final(self)@.watermark == old(self)@.watermark,
            adds_window(
                add_window(
                    old(self)@.windows,
                    old(self)@.group_exprs,
                    old(self)@.aggr_exprs,
                    start,
                    end,
                    rows@,
                ),
                result,
                final(self)@,
            ),
    {
        proof {
            reveal(add_window);
        }
        let ghost before = self@;
        assert(physical_views(self.group_exprs@).len() == self.group_exprs@.len());
        let groups = match group_by_exprs(rows, &mut self.group_exprs) {
            Ok(groups) => groups,
            Err(error) => {
                return Err(error);
            },
        };
        let ghost keyed = key_group_views(groups@);
        let ghost group_exprs = self@.group_exprs;
        let ghost columns = eval_all(before.group_exprs, rows@, before.group_exprs.len())->Ok_0.0;
        let mut g: usize = 0;
        while g < groups.len()
            invariant
                g <= groups.len(),
                self.wf(),
                before == old(self)@,
                eval_all(before.group_exprs, rows@, before.group_exprs.len()) == Ok::<
                    (Seq<Seq<ScalarValue>>, Seq<PhysicalExprView>),
                    EvalError,
                >((columns, group_exprs)),
                keyed == key_groups(rows@, columns),
                self@.keeps(before),
                self@.watermark == before.watermark,
                self@.group_exprs == group_exprs,
                keyed == key_group_views(groups@),
                keyed.len() == groups@.len(),
                add_groups(before.windows, before.aggr_exprs, start, end, keyed, g as nat) == Ok::<
                    Seq<WindowView>,
                    EvalError,
                >(self@.windows),
            decreases groups.len() - g,
        {
            let key = duplicate_scalars(&groups[g].0);
            let ghost current = self@.windows;
            assert(keyed[g as int] == (scalar_values(groups@[g as int].0@), groups@[g as int].1@));
            match self.process_dataset(start, end, key, &groups[g].1) {
                Ok(()) => {},
                Err(error) => {
                    proof {
                        reveal(add_window);
                        let failed = processed(
                            current,
                            before.aggr_exprs,
                            start,
                            end,
                            keyed[g as int].0,
                            keyed[g as int].1,
                        )->Err_0;
                        lemma_add_groups_stops(
                            before.windows,
                            before.aggr_exprs,
                            start,
                            end,
                            keyed,
                            g as nat,
                            keyed.len(),
                            failed,
                        );
                    }
                    return Err(error);
                },
            }
            g += 1;
        }
        Ok(())
    }

    /// Takes the windows that a watermark closes out of the operator,
    /// earliest first.
    fn drain(&mut self, watermark: i64) -> (closed: Vec<WindowState>)
        requires
            old(self).wf(),
        ensures
            final(self).wf(),
            final(self)@.keeps(old(self)@),
            final(self)@.group_exprs == old(self)@.group_exprs,
            final(self)@.watermark == old(self)@.watermark,
            window_views(closed@) == closed_windows(old(self)@.windows, watermark),
            final(self)@.windows == left_open(old(self)@.windows, watermark),
            forall|i: int|
                0 <= i < closed@.len() ==> (#[trigger] closed@[i]).wf(
                    old(self)@.aggr_exprs.len(),
                ),
    {
        let ghost open = self@.windows;
        let ghost template = physical_views(self.aggr_exprs@);
        let ghost exprs = self.aggr_exprs@.len() as nat;
        assert(physical_views(self.aggr_exprs@).len() == exprs);
        let mut all: Vec<WindowState> = Vec::new();
        std::mem::swap(&mut all, &mut self.windows);
        let mut closed: Vec<WindowState> = Vec::new();
        let mut kept: Vec<WindowState> = Vec::new();
        assert(window_views(closed@) =~= parted(open.take(0), watermark, true));
        assert(window_views(kept@) =~= parted(open.take(0), watermark, false));
        for window in held: all
            invariant
                window_views(held.seq()) == open,
                forall|i: int| 0 <= i < held.seq().len() ==> (#[trigger] held.seq()[i]).wf(exprs),
                forall|i: int|
                    0 <= i < held.seq().len() ==> (#[trigger] held.seq()[i]).shaped(template),
                window_views(closed@) == parted(open.take(held.index() as int), watermark, true),
                window_views(kept@) == parted(open.take(held.index() as int), watermark, false),
                forall|i: int| 0 <= i < closed@.len() ==> (#[trigger] closed@[i]).wf(exprs),
                forall|i: int| 0 <= i < kept@.len() ==> (#[trigger] kept@[i]).wf(exprs),
                forall|i: int| 0 <= i < kept@.len() ==> (#[trigger] kept@[i]).shaped(template),
        {
            let ghost seen = open.take(held.index() + 1);
            let ghost before_closed = window_views(closed@);
            let ghost before_kept = window_views(kept@);
            proof {
                assert(seen.drop_last() =~= open.take(held.index() as int));
                assert(seen.last() == window@);
            }
            if watermark > window.end_time {
                closed.push(window);
                assert(window_views(closed@) =~= before_closed.push(seen.last()));
            } else {
                kept.push(window);
                assert(window_views(kept@) =~= before_kept.push(seen.last()));
            }
        }
        self.windows = kept;
        proof {
            assert(open.take(open.len() as int) =~= open);
            lemma_parted(open, watermark, false);
        }
        closed
    }

    /// Takes one batch in and hands back the datasets of the windows that
    /// its watermark completes, earliest window first.
    pub fn aggregate(&mut self, dataset: &DataSet, current_watermark: Option<i64>) -> (result:
        Result<Vec<DataSet>, Error>)
        requires
            old(self).wf(),
        ensures
            final(self).wf(),
            final(self)@.keeps(old(self)@),
            aggregates(aggregated(old(self)@, dataset@, current_watermark), result, final(self)@),
    {
        let ghost start = self@;
        let ghost exprs = self.aggr_exprs@.len() as nat;
        assert(physical_views(self.aggr_exprs@).len() == exprs);
        let batch = match group_by_window(dataset, self.time_idx, &self.window) {
            Ok(batch) => batch,
            Err(error) => {
                return Err(error);
            },
        };
        let ghost cut = window_group_views(batch@);
        let mut w: usize = 0;
        while w < batch.len()
            invariant
                w <= batch.len(),
                self.wf(),
                start == old(self)@,
                self@.keeps(start),
                self@.watermark == start.watermark,
                start.time_idx < dataset@.columns.len(),
                cut == window_groups(dataset@, start.time_idx, start.window),
                cut == window_group_views(batch@),
                cut.len() == batch@.len(),
                add_windows(start, cut, w as nat) == Ok::<
                    (Seq<WindowView>, Seq<PhysicalExprView>),
                    EvalError,
                >((self@.windows, self@.group_exprs)),
            decreases batch.len() - w,
        {
            assert(cut[w as int] == (batch@[w as int].0, batch@[w as int].1, batch@[w as int].2@));
            if !closes(self.watermark, batch[w].1) {
                let ghost before = self@;
                match self.add_window(batch[w].0, batch[w].1, &batch[w].2) {
                    Ok(()) => {},
                    Err(error) => {
                        proof {
                            let failed = add_window(
                                before.windows,
                                before.group_exprs,
                                before.aggr_exprs,
                                cut[w as int].0,
                                cut[w as int].1,
                                cut[w as int].2,
                            )->Err_0;
                            lemma_add_windows_stops(start, cut, w as nat, cut.len(), failed);
                        }
                        return Err(error);
                    },
                }
            }
            w += 1;
        }
        let ghost open = self@.windows;
        let ghost group_exprs = self@.group_exprs;
        assert(add_windows(start, cut, cut.len()) == Ok::<
            (Seq<WindowView>, Seq<PhysicalExprView>),
            EvalError,
        >((open, group_exprs)));
        self.watermark = later_of(self.watermark, current_watermark);
        assert(self@.windows == open);
        let mut outputs: Vec<DataSet> = Vec::new();
        assert(dataset_views(outputs@) =~= Seq::<DataSetView>::empty());
        if let Some(watermark) = current_watermark {
            let closed = self.drain(watermark);
            let ghost done = closed_windows(open, watermark);
            let mut i: usize = 0;
            while i < closed.len()
                invariant
                    i <= closed.len(),
                    outputs.len() == i,
                    exprs == self.aggr_exprs@.len(),
                    self@.keeps(start),
                    start.configured(),
                    start.aggr_exprs.len() == exprs,
                    self@.schema == self.schema@,
                    forall|j: int| 0 <= j < closed@.len() ==> (#[trigger] closed@[j]).wf(exprs),
                    window_views(closed@) == done,
                    forall|j: int|
                        0 <= j < i ==> (#[trigger] outputs@[j])@ == emitted(
                            done[j],
                            start.schema,
                            exprs,
                        ),
                decreases closed.len() - i,
            {
                assert(window_views(closed@)[i as int] == closed@[i as int]@);
                let emitted = closed[i].emit(&self.schema, Ghost(exprs));
                outputs.push(emitted);
                i += 1;
            }
            assert(dataset_views(outputs@) =~= Seq::new(
                done.len(),
                |i: int| emitted(done[i], start.schema, start.aggr_exprs.len()),
            ));
        }
        proof {
            let done = match current_watermark {
                Some(w) => closed_windows(open, w),
                None => Seq::empty(),
            };
            let kept = match current_watermark {
                Some(w) => left_open(open, w),
                None => open,
            };
            assert(self@.windows == kept);
            assert(self@.group_exprs == group_exprs);
            assert(self@.watermark == later(start.watermark, current_watermark));
            assert(dataset_views(outputs@) =~= Seq::new(
                done.len(),
                |i: int| emitted(done[i], start.schema, start.aggr_exprs.len()),
            ));
            assert(self@ == (ManagerView {
                schema: start.schema,
                group_exprs,
                aggr_exprs: start.aggr_exprs,
                window: start.window,
                time_idx: start.time_idx,
                windows: kept,
                watermark: later(start.watermark, current_watermark),
            }));
        }
        Ok(outputs)
    }
}

/// The saved states of a sequence of expressions.
pub open spec fn saved_all(exprs: Seq<PhysicalExprView>) -> Seq<Seq<u8>> {
    Seq::new(exprs.len(), |i: int| saved(exprs[i]))
}

pub open spec fn saved_group(group: GroupView) -> SavedGroupView {
    SavedGroupView { key: group.key, exprs: saved_all(group.exprs), values: group.values }
}

pub open spec fn saved_window(window: WindowView) -> SavedWindowView {
    SavedWindowView {
        start: window.start,
        end: window.end,
        groups: Seq::new(window.groups.len(), |i: int| saved_group(window.groups[i])),
    }
}

/// What a checkpoint holds of the operator: the states of the grouping
/// expressions, and every open window with its groups.
pub open spec fn saved_manager(manager: ManagerView) -> SavedStateView {
    SavedStateView {
        group_exprs: saved_all(manager.group_exprs),
        windows: Seq::new(manager.windows.len(), |i: int| saved_window(manager.windows[i])),
    }
}

/// The expressions `template` with the saved states `blobs` loaded, one
/// into each; nothing where their numbers differ or one cannot be loaded.
pub open spec fn load_all(template: Seq<PhysicalExprView>, blobs: Seq<Seq<u8>>) -> Option<
    Seq<PhysicalExprView>,
> {
    if template.len() == blobs.len() && forall|i: int|
        0 <= i < template.len() ==> (#[trigger] loaded(template[i], blobs[i])) is Some {
        Some(Seq::new(template.len(), |i: int| loaded(template[i], blobs[i])->Some_0))
    } else {
        None
    }
}

pub open spec fn restored_group(template: Seq<PhysicalExprView>, group: SavedGroupView) -> Option<
    GroupView,
> {
    match load_all(template, group.exprs) {
        Some(exprs) => if group.values.len() == template.len() {
            Some(GroupView { key: group.key, exprs, values: group.values })
        } else {
            None
        },
        None => None,
    }
}

/// The keys of saved groups.
pub open spec fn saved_keys(groups: Seq<SavedGroupView>) -> Seq<Seq<ScalarValue>> {
    Seq::new(groups.len(), |i: int| groups[i].key)
}

pub open spec fn restored_window(template: Seq<PhysicalExprView>, window: SavedWindowView)
    -> Option<WindowView> {
    if distinct(saved_keys(window.groups)) && forall|i: int|
        0 <= i < window.groups.len() ==> (#[trigger] restored_group(template, window.groups[i]))
            is Some {
        Some(
            WindowView {
                start: window.start,
                end: window.end,
                groups: Seq::new(
                    window.groups.len(),
                    |i: int| restored_group(template, window.groups[i])->Some_0,
                ),
            },
        )
    } else {
        None
    }
}

/// Later saved windows start later.
pub open spec fn saved_ascending(windows: Seq<SavedWindowView>) -> bool {
    forall|i: int, j: int|
        0 <= i < j < windows.len() ==> (#[trigger] windows[i]).start < (#[trigger] windows[j]).start
}

/// The operator with the state that `bytes` hold: the grouping expressions
/// with their saved states, and the saved windows in place of the open ones.
/// Nothing where `bytes` are no saved state of an operator that was built
/// as this one was.
pub open spec fn restored(manager: ManagerView, bytes: Seq<u8>) -> Option<ManagerView> {
    match parse_state(bytes) {
        Some(state) => match load_all(manager.group_exprs, state.group_exprs) {
            Some(group_exprs) => if saved_ascending(state.windows) && forall|i: int|
                0 <= i < state.windows.len() ==> (#[trigger] restored_window(
                    manager.aggr_exprs,
                    state.windows[i],
                )) is Some {
                Some(
                    ManagerView {
                        schema: manager.schema,
                        group_exprs,
                        aggr_exprs: manager.aggr_exprs,
                        window: manager.window,
                        time_idx: manager.time_idx,
                        windows: Seq::new(
                            state.windows.len(),
                            |i: int|
                                restored_window(manager.aggr_exprs, state.windows[i])->Some_0,
                        ),
                        watermark: manager.watermark,
                    },
                )
            } else {
                None
            },
            None => None,
        },
        None => None,
    }
}

/// Whether the state cells of every expression can be saved.
pub open spec fn exprs_fit(exprs: Seq<PhysicalExprView>) -> bool {
    forall|i: int| 0 <= i < exprs.len() ==> scalars_fit(states_of(#[trigger] exprs[i]))
}

/// Whether the operator can be saved: every length of its state can be
/// stated in the byte format.
pub open spec fn checkpointable(manager: ManagerView) -> bool {
    &&& state_fits(saved_manager(manager))
    &&& exprs_fit(manager.group_exprs)
    &&& forall|w: int, g: int|
        0 <= w < manager.windows.len() && 0 <= g < manager.windows[w].groups.len() ==> exprs_fit(
            (#[trigger] manager.windows[w].groups[g]).exprs,
        )
}

impl ManagerView {
    /// What holds of the windows of every well-formed operator: they come
    /// by ascending start, the keys of a window are distinct, and each
    /// group has the operator's aggregate expressions, but for their state
    /// cells, and one result for each.
    pub open spec fn sound(self) -> bool {
        &&& ascending(self.windows)
        &&& forall|w: int|
            0 <= w < self.windows.len() ==> distinct(
                group_keys((#[trigger] self.windows[w]).groups),
            )
        &&& forall|w: int, g: int|
            0 <= w < self.windows.len() && 0 <= g < self.windows[w].groups.len() ==> {
                &&& (#[trigger] self.windows[w].groups[g]).values.len() == self.aggr_exprs.len()
                &&& blanks(self.windows[w].groups[g].exprs) == blanks(self.aggr_exprs)
            }
    }
}

/// A state that was saved can be loaded again, and loading it gives back
/// what was saved.
///
/// Let `manager` be an operator that can be saved, and `fresh` an operator
/// that was built as `manager` was: with the same schema, window, time
/// column and expressions, but for the expressions' state cells. Then
/// loading the bytes of the saved state of `manager` into `fresh` gives
/// `fresh` the grouping expressions and the open windows of `manager`.
pub proof fn lemma_checkpoint_round_trip(manager: ManagerView, fresh: ManagerView)
    requires
        manager.sound(),
        checkpointable(manager),
        fresh.keeps(manager),
        blanks(fresh.group_exprs) == blanks(manager.group_exprs),
    ensures
        restored(fresh, enc_state(saved_manager(manager))) == Some(
            ManagerView {
                schema: fresh.schema,
                group_exprs: manager.group_exprs,
                aggr_exprs: fresh.aggr_exprs,
                window: fresh.window,
                time_idx: fresh.time_idx,
                windows: manager.windows,
                watermark: fresh.watermark,
            },
        ),
{
    let state = saved_manager(manager);
    lemma_state_round_trip(state);
    lemma_load_all_saved(fresh.group_exprs, manager.group_exprs);
    assert forall|i: int| 0 <= i < state.windows.len() implies (#[trigger] restored_window(
        fresh.aggr_exprs,
        state.windows[i],
    )) == Some(manager.windows[i]) by {
        let window = manager.windows[i];
        let kept = state.windows[i];
        assert(saved_keys(kept.groups) =~= group_keys(window.groups));
        assert forall|g: int| 0 <= g < kept.groups.len() implies (#[trigger] restored_group(
            fresh.aggr_exprs,
            kept.groups[g],
        )) == Some(window.groups[g]) by {
            let group = manager.windows[i].groups[g];
            assert(blanks(group.exprs) == blanks(manager.aggr_exprs));
            lemma_load_all_saved(fresh.aggr_exprs, group.exprs);
        }
        assert(restored_window(fresh.aggr_exprs, kept)->Some_0.groups =~= window.groups);
    }
    assert forall|i: int, j: int| 0 <= i < j < state.windows.len() implies (
    #[trigger] state.windows[i]).start < (#[trigger] state.windows[j]).start by {
        assert(manager.windows[i].start < manager.windows[j].start);
    }
    assert(restored(fresh, enc_state(state))->Some_0.windows =~= manager.windows);
}

/// An operator that was restored from a checkpoint emits what the operator
/// that was saved would have emitted.
///
/// Let `fresh` be built as `manager` was, and let it load the saved state
/// of `manager`. Then a batch without rows gives the same datasets from
/// both, whatever its watermark.
pub proof fn lemma_restored_operator_emits_the_same(
    manager: ManagerView,
    fresh: ManagerView,
    batch: DataSetView,
    watermark: Option<i64>,
)
    requires
        manager.sound(),
        checkpointable(manager),
        fresh.keeps(manager),
        blanks(fresh.group_exprs) == blanks(manager.group_exprs),
        window_groups(batch, manager.time_idx, manager.window).len() == 0,
    ensures
        restored(fresh, enc_state(saved_manager(manager))) matches Some(loaded) && match (
            aggregated(manager, batch, watermark),
            aggregated(loaded, batch, watermark),
        ) {
            (Ok((_, expected)), Ok((_, emitted))) => emitted == expected,
            (Err(a), Err(b)) => a == b,
            _ => false,
        },
{
    lemma_checkpoint_round_trip(manager, fresh);
}

/// A window is emitted when, and only when, a watermark beyond its end
/// has come.
///
/// A watermark parts the open windows in two. The windows that it closes
/// all end before it and were open; each open window that ends before it is
/// among them. The windows that it leaves open do not end before it; each
/// open window that does not is among them. No window is in both parts, or
/// in one part twice: the parts together are as long as the whole.
pub proof fn lemma_watermark_closes_what_ended(windows: Seq<WindowView>, watermark: i64)
    ensures
        forall|i: int|
            0 <= i < closed_windows(windows, watermark).len() ==> {
                &&& watermark > (#[trigger] closed_windows(windows, watermark)[i]).end
                &&& windows.contains(closed_windows(windows, watermark)[i])
            },
        forall|i: int|
            0 <= i < left_open(windows, watermark).len() ==> {
                &&& !(watermark > (#[trigger] left_open(windows, watermark)[i]).end)
                &&& windows.contains(left_open(windows, watermark)[i])
            },
        forall|k: int|
            0 <= k < windows.len() ==> if watermark > (#[trigger] windows[k]).end {
                closed_windows(windows, watermark).contains(windows[k])
            } else {
                left_open(windows, watermark).contains(windows[k])
            },
        closed_windows(windows, watermark).len() + left_open(windows, watermark).len()
            == windows.len(),
    decreases windows.len(),
{
    lemma_parted(windows, watermark, true);
    lemma_parted(windows, watermark, false);
    if windows.len() > 0 {
        let front = windows.drop_last();
        let closed = closed_windows(windows, watermark);
        let left = left_open(windows, watermark);
        lemma_watermark_closes_what_ended(front, watermark);
        assert forall|k: int| 0 <= k < windows.len() implies if watermark > (
        #[trigger] windows[k]).end {
            closed.contains(windows[k])
        } else {
            left.contains(windows[k])
        } by {
            if k < front.len() {
                assert(front[k] == windows[k]);
                if watermark > windows[k].end {
                    let earlier = closed_windows(front, watermark);
                    let at = choose|at: int| 0 <= at < earlier.len() && earlier[at] == front[k];
                    assert(closed[at] == windows[k]);
                } else {
                    let earlier = left_open(front, watermark);
                    let at = choose|at: int| 0 <= at < earlier.len() && earlier[at] == front[k];
                    assert(left[at] == windows[k]);
                }
            } else {
                if watermark > windows[k].end {
                    assert(closed[closed.len() - 1] == windows[k]);
                } else {
                    assert(left[left.len() - 1] == windows[k]);
                }
            }
        }
    }
}

/// A saved state that is cut short is refused: whatever operator it is
/// loaded into, nothing is restored.
pub proof fn lemma_truncated_state_is_refused(manager: ManagerView, fresh: ManagerView, n: int)
    requires
        checkpointable(manager),
        0 <= n < enc_state(saved_manager(manager)).len(),
    ensures
        restored(fresh, enc_state(saved_manager(manager)).take(n)) is None,
{
    lemma_state_cut(saved_manager(manager), n);
}

/// Rows that come too late are not reflected in the state or in any
/// output.
///
/// Let every window of a batch be closed already: the operator has seen a
/// watermark beyond its end. Then the batch adds nothing: the operator
/// keeps its grouping expressions and its windows, but for those that the
/// batch's watermark closes, and what is emitted are those windows as they
/// were before the batch.
pub proof fn lemma_late_rows_are_dropped(
    manager: ManagerView,
    batch: DataSetView,
    watermark: Option<i64>,
)
    requires
        manager.time_idx < batch.columns.len(),
        forall|i: int|
            0 <= i < window_groups(batch, manager.time_idx, manager.window).len() ==> is_closed(
                manager.watermark,
                (#[trigger] window_groups(batch, manager.time_idx, manager.window)[i]).1,
            ),
    ensures
        aggregated(manager, batch, watermark) matches Ok((after, outputs)) && {
            let closed = match watermark {
                Some(w) => closed_windows(manager.windows, w),
                None => Seq::empty(),
            };
            let kept = match watermark {
                Some(w) => left_open(manager.windows, w),
                None => manager.windows,
            };
            &&& after.group_exprs == manager.group_exprs
            &&& after.windows == kept
            &&& outputs == Seq::new(
                closed.len(),
                |i: int| emitted(closed[i], manager.schema, manager.aggr_exprs.len()),
            )
        },
{
    let windows = window_groups(batch, manager.time_idx, manager.window);
    lemma_closed_windows_add_nothing(manager, windows, windows.len());
}

/// Windows of a batch that are closed already add nothing.
proof fn lemma_closed_windows_add_nothing(
    manager: ManagerView,
    batch: Seq<(i64, i64, DataSetView)>,
    count: nat,
)
    requires
        count <= batch.len(),
        forall|i: int| 0 <= i < batch.len() ==> is_closed(manager.watermark, (#[trigger] batch[i]).1),
    ensures
        add_windows(manager, batch, count) == Ok::<
            (Seq<WindowView>, Seq<PhysicalExprView>),
            EvalError,
        >((manager.windows, manager.group_exprs)),
    decreases count,
{
    if count > 0 {
        lemma_closed_windows_add_nothing(manager, batch, (count - 1) as nat);
        assert(is_closed(manager.watermark, batch[count - 1].1));
    }
}

/// Loading the saved states of expressions into expressions that differ
/// from them in their state cells alone gives the expressions back.
pub proof fn lemma_load_all_saved(template: Seq<PhysicalExprView>, exprs: Seq<PhysicalExprView>)
    requires
        blanks(template) == blanks(exprs),
        exprs_fit(exprs),
    ensures
        load_all(template, saved_all(exprs)) == Some(exprs),
{
    assert(template.len() == blanks(template).len());
    assert(exprs.len() == blanks(exprs).len());
    assert forall|i: int| 0 <= i < template.len() implies (#[trigger] loaded(
        template[i],
        saved_all(exprs)[i],
    )) == Some(exprs[i]) by {
        assert(blanks(template)[i] == blank(template[i]));
        assert(blanks(exprs)[i] == blank(exprs[i]));
        lemma_load_saved(template[i], exprs[i]);
    }
    assert(load_all(template, saved_all(exprs))->Some_0 =~= exprs);
}

/// Saves the state of each expression.
fn save_exprs(exprs: &Vec<PhysicalExpr>) -> (blobs: Vec<Vec<u8>>)
    ensures
        blob_views(blobs@) == saved_all(physical_views(exprs@)),
        exprs_fit(physical_views(exprs@)),
{
    let mut blobs: Vec<Vec<u8>> = Vec::with_capacity(exprs.len());
    let mut i: usize = 0;
    while i < exprs.len()
        invariant
            i <= exprs.len(),
            blobs.len() == i,
            forall|j: int| 0 <= j < i ==> (#[trigger] blobs@[j])@ == saved(exprs@[j]@),
            forall|j: int| 0 <= j < i ==> scalars_fit(states_of(#[trigger] exprs@[j]@)),
        decreases exprs.len() - i,
    {
        blobs.push(exprs[i].save_state());
        i += 1;
    }
    assert(blob_views(blobs@) =~= saved_all(physical_views(exprs@)));
    assert forall|j: int| 0 <= j < physical_views(exprs@).len() implies scalars_fit(
        states_of(#[trigger] physical_views(exprs@)[j]),
    ) by {
        assert(physical_views(exprs@)[j] == exprs@[j]@);
    }
    blobs
}

/// Copies of `template` with the saved states `blobs` loaded.
fn load_exprs(template: &Vec<PhysicalExpr>, blobs: &Vec<Vec<u8>>) -> (exprs: Option<
    Vec<PhysicalExpr>,
>)
    ensures
        match exprs {
            Some(e) => load_all(physical_views(template@), blob_views(blobs@)) == Some(
                physical_views(e@),
            ) && blanks(physical_views(e@)) == blanks(physical_views(template@)) && e@.len()
                == template@.len(),
            None => load_all(physical_views(template@), blob_views(blobs@)) is None,
        },
{
    let ghost shapes = physical_views(template@);
    let ghost states = blob_views(blobs@);
    if template.len() != blobs.len() {
        return None;
    }
    let mut exprs: Vec<PhysicalExpr> = Vec::with_capacity(template.len());
    let mut i: usize = 0;
    while i < template.len()
        invariant
            i <= template.len(),
            template.len() == blobs.len(),
            shapes == physical_views(template@),
            states == blob_views(blobs@),
            exprs.len() == i,
            forall|j: int|
                0 <= j < i ==> (#[trigger] loaded(shapes[j], states[j])) == Some(exprs@[j]@),
            forall|j: int| 0 <= j < i ==> blank(#[trigger] exprs@[j]@) == blank(shapes[j]),
        decreases template.len() - i,
    {
        let mut expr = template[i].duplicate();
        let ghost before = expr@;
        match expr.load_state(blobs[i].as_slice()) {
            Ok(()) => {
                proof {
                    let parsed = parse_scalars(states[i as int])->Some_0.0;
                    lemma_with_states_keeps_shape(before, parsed);
                }
                exprs.push(expr);
            },
            Err(_) => {
                assert(loaded(shapes[i as int], states[i as int]) is None);
                return None;
            },
        }
        i += 1;
    }
    proof {
        assert(physical_views(exprs@) =~= load_all(shapes, states)->Some_0);
        assert(blanks(physical_views(exprs@)) =~= blanks(shapes));
    }
    Some(exprs)
}

impl WindowState {
    /// This window as a checkpoint holds it.
    fn save(&self, Ghost(exprs): Ghost<nat>) -> (kept: SavedWindow)
        requires
            self.wf(exprs),
        ensures
            kept@ == saved_window(self@),
            forall|g: int|
                0 <= g < self@.groups.len() ==> exprs_fit((#[trigger] self@.groups[g]).exprs),
    {
        let ghost window = self@;
        let mut groups: Vec<SavedGroup> = Vec::with_capacity(self.children.len());
        let mut i: usize = 0;
        while i < self.children.len()
            invariant
                i <= self.children.len(),
                self.wf(exprs),
                window == self@,
                groups.len() == i,
                forall|j: int| 0 <= j < i ==> (#[trigger] groups@[j])@ == saved_group(window.groups[j]),
                forall|j: int| 0 <= j < i ==> exprs_fit((#[trigger] window.groups[j]).exprs),
            decreases self.children.len() - i,
        {
            let key = duplicate_scalars(self.keys.key(i));
            let states = save_exprs(&self.children[i].aggr_exprs);
            let values = duplicate_scalars(&self.children[i].values);
            groups.push(SavedGroup { key, exprs: states, values });
            i += 1;
        }
        let kept = SavedWindow { start: self.start_time, end: self.end_time, groups };
        assert(kept@.groups =~= saved_window(self@).groups);
        kept
    }

    /// The window that a checkpoint holds as `kept`, for an operator whose
    /// aggregate expressions are `template`.
    fn restore(template: &Vec<PhysicalExpr>, kept: &SavedWindow) -> (window: Option<WindowState>)
        ensures
            match window {
                Some(w) => restored_window(physical_views(template@), kept@) == Some(w@) && w.wf(
                    template@.len() as nat,
                ) && w.shaped(physical_views(template@)),
                None => restored_window(physical_views(template@), kept@) is None,
            },
    {
        let ghost shapes = physical_views(template@);
        let ghost saved_groups = kept@.groups;
        let ghost keys = saved_keys(saved_groups);
        assert(shapes.len() == template@.len());
        let mut table = KeyTable::new();
        let mut children: Vec<AggregateState> = Vec::with_capacity(kept.groups.len());
        let mut i: usize = 0;
        while i < kept.groups.len()
            invariant
                i <= kept.groups.len(),
                shapes == physical_views(template@),
                shapes.len() == template@.len(),
                saved_groups == kept@.groups,
                saved_groups.len() == kept.groups@.len(),
                keys == saved_keys(saved_groups),
                table.wf(),
                table@ == keys.take(i as int),
                children.len() == i,
                forall|j: int|
                    0 <= j < i ==> (#[trigger] restored_group(shapes, saved_groups[j])) == Some(
                        children@[j].group(keys[j]),
                    ),
                forall|j: int|
                    0 <= j < i ==> (#[trigger] children@[j]).aggr_exprs@.len() == template@.len()
                        && children@[j].values@.len() == template@.len(),
                forall|j: int| 0 <= j < i ==> (#[trigger] children@[j]).shaped(shapes),
            decreases kept.groups.len() - i,
        {
            let group = &kept.groups[i];
            assert(saved_groups[i as int] == group@);
            assert(keys[i as int] == scalar_values(group.key@));
            match table.find(&group.key) {
                Some(slot) => {
                    proof {
                        assert(keys[slot as int] == keys[i as int]);
                    }
                    return None;
                },
                None => {},
            }
            let aggr_exprs = match load_exprs(template, &group.exprs) {
                Some(exprs) => exprs,
                None => {
                    assert(restored_group(shapes, saved_groups[i as int]) is None);
                    return None;
                },
            };
            if group.values.len() != template.len() {
                assert(restored_group(shapes, saved_groups[i as int]) is None);
                return None;
            }
            table.insert(&group.key);
            assert(table@ =~= keys.take(i + 1));
            let values = duplicate_scalars(&group.values);
            children.push(AggregateState { aggr_exprs, values });
            i += 1;
        }
        proof {
            assert(keys.take(i as int) =~= keys);
            table.lemma_distinct();
        }
        let window = WindowState { start_time: kept.start, end_time: kept.end, keys: table, children };
        proof {
            assert(window@.groups =~= restored_window(shapes, kept@)->Some_0.groups);
        }
        Some(window)
    }
}

impl AggregateManager {
    /// What holds of every well-formed operator.
    pub proof fn lemma_sound(&self)
        requires
            self.wf(),
        ensures
            self@.sound(),
            self@.configured(),
    {
        let template = physical_views(self.aggr_exprs@);
        assert forall|w: int| 0 <= w < self@.windows.len() implies distinct(
            group_keys((#[trigger] self@.windows[w]).groups),
        ) by {
            let window = self.windows@[w];
            assert(self@.windows[w] == window@);
            window.keys.lemma_distinct();
            assert(group_keys(window@.groups) =~= window.keys@);
        }
        assert forall|w: int, g: int|
            0 <= w < self@.windows.len() && 0 <= g < self@.windows[w].groups.len() implies {
            &&& (#[trigger] self@.windows[w].groups[g]).values.len() == self@.aggr_exprs.len()
            &&& blanks(self@.windows[w].groups[g].exprs) == blanks(self@.aggr_exprs)
        } by {
            let window = self.windows@[w];
            assert(self@.windows[w] == window@);
            assert(window.wf(self.aggr_exprs@.len() as nat));
            assert(window.shaped(template));
            assert(window.children@[g].shaped(template));
        }
    }

    /// The state of the operator as bytes: the states of the grouping
    /// expressions and the open windows.
    pub fn save_state(&self) -> (result: Result<Vec<u8>, Error>)
        requires
            self.wf(),
        ensures
            result matches Ok(bytes) && bytes@ == enc_state(saved_manager(self@)),
            checkpointable(self@),
    {
        let ghost manager = self@;
        let ghost exprs = self.aggr_exprs@.len() as nat;
        let group_exprs = save_exprs(&self.group_exprs);
        let mut windows: Vec<SavedWindow> = Vec::with_capacity(self.windows.len());
        let mut i: usize = 0;
        while i < self.windows.len()
            invariant
                i <= self.windows.len(),
                self.wf(),
                manager == self@,
                exprs == self.aggr_exprs@.len(),
                windows.len() == i,
                forall|j: int|
                    0 <= j < i ==> (#[trigger] windows@[j])@ == saved_window(manager.windows[j]),
                forall|w: int, g: int|
                    0 <= w < i && 0 <= g < manager.windows[w].groups.len() ==> exprs_fit(
                        (#[trigger] manager.windows[w].groups[g]).exprs,
                    ),
            decreases self.windows.len() - i,
        {
            assert(manager.windows[i as int] == self.windows@[i as int]@);
            assert(self.windows@[i as int].wf(exprs));
            windows.push(self.windows[i].save(Ghost(exprs)));
            i += 1;
        }
        let state = SavedState { group_exprs, windows };
        assert(state@.windows =~= saved_manager(self@).windows);
        assert(state@ == saved_manager(self@));
        Ok(encode_state(&state))
    }

    /// Restores the state that `data` hold: the states of the grouping
    /// expressions, and the open windows. Where `data` are no saved state
    /// of an operator that was built as this one was, nothing is restored.
    pub fn load_state(&mut self, data: Vec<u8>) -> (result: Result<(), Error>)
        requires
            old(self).wf(),
        ensures
            final(self).wf(),
            match restored(old(self)@, data@) {
                Some(manager) => result is Ok && final(self)@ == manager,
                None => result == Err::<(), Error>(Error::State) && final(self)@ == old(self)@,
            },
    {
        let ghost before = self@;
        let ghost shapes = physical_views(self.aggr_exprs@);
        assert(shapes.len() == self.aggr_exprs@.len());
        let state = match decode_state(data.as_slice()) {
            Some(state) => state,
            None => {
                return Err(Error::State);
            },
        };
        let ghost kept = state@.windows;
        let group_exprs = match load_exprs(&self.group_exprs, &state.group_exprs) {
            Some(exprs) => exprs,
            None => {
                return Err(Error::State);
            },
        };
        let mut windows: Vec<WindowState> = Vec::with_capacity(state.windows.len());
        let mut i: usize = 0;
        assert(window_views(windows@) =~= Seq::<WindowView>::empty());
        while i < state.windows.len()
            invariant
                i <= state.windows.len(),
                before == old(self)@,
                self@ == before,
                self.wf(),
                shapes == physical_views(self.aggr_exprs@),
                shapes.len() == self.aggr_exprs@.len(),
                parse_state(data@) == Some(state@),
                kept == state@.windows,
                kept.len() == state.windows@.len(),
                load_all(before.group_exprs, state@.group_exprs) == Some(
                    physical_views(group_exprs@),
                ),
                windows.len() == i,
                forall|j: int|
                    0 <= j < i ==> (#[trigger] restored_window(shapes, kept[j])) == Some(
                        windows@[j]@,
                    ),
                forall|a: int, b: int|
                    0 <= a < b < i ==> (#[trigger] kept[a]).start < (#[trigger] kept[b]).start,
                forall|j: int|
                    0 <= j < i ==> (#[trigger] windows@[j]).wf(self.aggr_exprs@.len() as nat),
                forall|j: int| 0 <= j < i ==> (#[trigger] windows@[j]).shaped(shapes),
            decreases state.windows.len() - i,
        {
            assert(kept[i as int] == state.windows@[i as int]@);
            if i > 0 && state.windows[i - 1].start >= state.windows[i].start {
                assert(kept[i - 1] == state.windows@[i - 1]@);
                assert(!(kept[i - 1].start < kept[i as int].start));
                return Err(Error::State);
            }
            match WindowState::restore(&self.aggr_exprs, &state.windows[i]) {
                Some(window) => {
                    windows.push(window);
                },
                None => {
                    return Err(Error::State);
                },
            }
            proof {
                assert forall|a: int, b: int| 0 <= a < b < i + 1 implies (#[trigger] kept[a]).start
                    < (#[trigger] kept[b]).start by {
                    if b == i {
                        if a < i - 1 {
                            assert(kept[a].start < kept[i - 1].start);
                        } else {
                            assert(kept[i - 1] == state.windows@[i - 1]@);
                        }
                    }
                }
            }
            i += 1;
        }
        self.group_exprs = group_exprs;
        self.windows = windows;
        proof {
            let expected = restored(before, data@)->Some_0;
            assert(window_views(self.windows@) =~= expected.windows);
            assert forall|a: int, b: int| 0 <= a < b < self@.windows.len() implies (
            #[trigger] self@.windows[a]).start < (#[trigger] self@.windows[b]).start by {
                assert(kept[a].start < kept[b].start);
                assert(restored_window(shapes, kept[a]) == Some(self.windows@[a]@));
                assert(restored_window(shapes, kept[b]) == Some(self.windows@[b]@));
            }
            assert(self@ == expected);
        }
        Ok(())
    }
}

} // verus!
