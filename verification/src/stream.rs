//! The events that flow between operators, the aggregate operator as a
//! stream of events, and the decisions of the stream that drives a
//! pipeline.
//!
//! An operator is given one event of its input at a time and hands back
//! the events that it has to pass on; the caller awaits the next event.

use vstd::prelude::*;
use crate::aggregate::AggregateManager;
use crate::aggregate::ManagerView;
use crate::aggregate::aggregated;
use crate::aggregate::restored;
use crate::aggregate::saved_manager;
use crate::checkpoint::BarrierView;
use crate::checkpoint::CheckPointBarrier;
use crate::checkpoint::StateMap;
use crate::checkpoint::decode_states;
use crate::checkpoint::enc_states;
use crate::checkpoint::entries_fit;
use crate::checkpoint::entry_of;
use crate::checkpoint::has_entry;
use crate::checkpoint::parse_states;
use crate::error::Error;
use crate::error::EvalError;
use crate::operators::filter;
use crate::operators::filtered;
use crate::operators::project;
use crate::operators::projected;
use crate::physical::PhysicalExprView;
use crate::schema::FieldView;
use crate::physical::PhysicalExpr;
use crate::physical::physical_views;
use crate::schema::DataSet;
use crate::schema::DataSetView;
use crate::schema::Schema;
use crate::state::enc_state;
use crate::window::Window;

verus! {

/// What flows on an edge of the pipeline.
pub enum Event {
    /// A record batch, with the highest event time that the upstream has
    /// committed to.
    DataSet { current_watermark: Option<i64>, dataset: DataSet },
    /// A checkpoint barrier.
    CreateCheckPoint(CheckPointBarrier),
}

/// The mathematical value of an [`Event`].
pub enum EventView {
    DataSet { current_watermark: Option<i64>, dataset: DataSetView },
    CreateCheckPoint(BarrierView),
}

impl View for Event {
    type V = EventView;

    open spec fn view(&self) -> EventView {
        match *self {
            Event::DataSet { current_watermark, dataset } => EventView::DataSet {
                current_watermark,
                dataset: dataset@,
            },
            Event::CreateCheckPoint(barrier) => EventView::CreateCheckPoint(barrier@),
        }
    }
}

/// The views of a sequence of events.
pub open spec fn event_views(events: Seq<Event>) -> Seq<EventView> {
    events.map_values(|e: Event| e@)
}

impl EventView {
    /// A barrier that the event carries is sound.
    pub open spec fn sound(self) -> bool {
        self matches EventView::CreateCheckPoint(barrier) ==> barrier.sound()
    }
}

/// What the operators of a pipeline are built with: the states that the
/// last checkpoint holds, by node.
pub struct CreateStreamContext {
    pub prev_state: StateMap,
}

/// The aggregate node of a physical plan.
pub struct PhysicalAggregateNode {
    pub id: usize,
    pub schema: Schema,
    pub group_exprs: Vec<PhysicalExpr>,
    pub aggr_exprs: Vec<PhysicalExpr>,
    pub window: Window,
    pub time_idx: usize,
}

/// The aggregate operator as a stream of events.
pub struct AggregateStream {
    id: usize,
    manager: AggregateManager,
    ended: bool,
}

/// The mathematical value of an [`AggregateStream`].
pub struct AggregateStreamView {
    pub id: usize,
    pub manager: ManagerView,
    /// Whether the stream has ended: behind an exit barrier, or an error.
    pub ended: bool,
}

impl View for AggregateStream {
    type V = AggregateStreamView;

    closed spec fn view(&self) -> AggregateStreamView {
        AggregateStreamView { id: self.id, manager: self.manager@, ended: self.ended }
    }
}

/// The operator as `node` describes it, without open windows.
pub open spec fn fresh_manager(node: PhysicalAggregateNode) -> ManagerView {
    ManagerView {
        schema: node.schema@,
        group_exprs: physical_views(node.group_exprs@),
        aggr_exprs: physical_views(node.aggr_exprs@),
        window: node.window,
        time_idx: node.time_idx,
        windows: Seq::empty(),
        watermark: None,
    }
}

/// What the creation of an aggregate stream comes to. A node that is not
/// configured is refused. The state that the last checkpoint holds for
/// the node is taken out of the context and loaded; a state that cannot be
/// loaded is an error. A node without saved state starts without open
/// windows.
pub open spec fn creates(
    before: Seq<(usize, Seq<u8>)>,
    after: Seq<(usize, Seq<u8>)>,
    node: PhysicalAggregateNode,
    made: Result<AggregateStream, Error>,
) -> bool {
    let fresh = fresh_manager(node);
    if !fresh.configured() {
        &&& after == before
        &&& made matches Err(e)
        &&& e == Error::InvalidSchema
    } else if has_entry(before, node.id) {
        exists|at: int|
            {
                &&& entry_of(before, node.id, at)
                &&& after == before.remove(at)
                &&& match restored(fresh, before[at].1) {
                    Some(manager) => made matches Ok(stream) && stream.wf() && stream@ == (
                    AggregateStreamView { id: node.id, manager, ended: false }),
                    None => made matches Err(e) && e == Error::State,
                }
            }
    } else {
        &&& after == before
        &&& made matches Ok(stream)
        &&& stream.wf()
        &&& stream@ == (AggregateStreamView { id: node.id, manager: fresh, ended: false })
    }
}

/// Builds the aggregate operator of a pipeline, with the state that the
/// last checkpoint holds for it.
pub fn create_aggregate_stream(ctx: &mut CreateStreamContext, node: PhysicalAggregateNode) -> (made:
    Result<AggregateStream, Error>)
    ensures
        creates(old(ctx).prev_state@, final(ctx).prev_state@, node, made),
{
    let ghost fresh = fresh_manager(node);
    let id = node.id;
    let mut manager = match AggregateManager::try_new(
        node.schema,
        node.group_exprs,
        node.aggr_exprs,
        node.window,
        node.time_idx,
    ) {
        Ok(manager) => manager,
        Err(error) => {
            return Err(error);
        },
    };
    match ctx.prev_state.remove(id) {
        Some(prev_state) => match manager.load_state(prev_state) {
            Ok(()) => Ok(AggregateStream { id, manager, ended: false }),
            Err(error) => Err(error),
        },
        None => Ok(AggregateStream { id, manager, ended: false }),
    }
}

/// The events that carry the datasets of completed windows, each with the
/// watermark of the batch that completed them.
pub open spec fn emitted_events(watermark: Option<i64>, datasets: Seq<DataSetView>) -> Seq<
    EventView,
> {
    Seq::new(
        datasets.len(),
        |i: int| EventView::DataSet { current_watermark: watermark, dataset: datasets[i] },
    )
}

/// What an event does to the stream, and what the stream passes on.
///
/// A stream that has ended passes nothing on. A batch goes to the
/// operator, and the datasets of the windows that it completes are passed
/// on; an error ends the stream. A barrier is passed on with the
/// operator's state, unless the operator has reported to it before; an
/// exit barrier ends the stream.
pub open spec fn stepped(stream: AggregateStreamView, event: EventView) -> Result<
    (AggregateStreamView, Seq<EventView>),
    Error,
> {
    if stream.ended {
        Ok((stream, Seq::empty()))
    } else {
        match event {
            EventView::DataSet { current_watermark, dataset } => match aggregated(
                stream.manager,
                dataset,
                current_watermark,
            ) {
                Ok((manager, datasets)) => Ok(
                    (
                        AggregateStreamView { id: stream.id, manager, ended: false },
                        emitted_events(current_watermark, datasets),
                    ),
                ),
                Err(error) => Err(error),
            },
            EventView::CreateCheckPoint(barrier) => Ok(
                (
                    AggregateStreamView {
                        id: stream.id,
                        manager: stream.manager,
                        ended: barrier.is_exit,
                    },
                    seq![
                        EventView::CreateCheckPoint(
                            barrier.with_report(
                                stream.id,
                                Some(enc_state(saved_manager(stream.manager))),
                            ),
                        ),
                    ],
                ),
            ),
        }
    }
}

/// What a step of the stream that ended in `result` and left the stream as
/// `after` has to agree with. After an error the stream has ended.
pub open spec fn steps(
    expected: Result<(AggregateStreamView, Seq<EventView>), Error>,
    result: Result<Vec<Event>, Error>,
    after: AggregateStreamView,
) -> bool {
    match expected {
        Ok((stream, events)) => {
            &&& after == stream
            &&& result matches Ok(passed)
            &&& event_views(passed@) == events
            &&& forall|i: int| 0 <= i < passed@.len() ==> (#[trigger] passed@[i])@.sound()
        },
        Err(error) => result matches Err(e) && e == error && after.ended,
    }
}

impl AggregateStream {
    pub closed spec fn wf(&self) -> bool {
        self.manager.wf()
    }

    /// Whether the stream has ended.
    pub fn is_ended(&self) -> (ended: bool)
        ensures
            ended == self@.ended,
    {
        self.ended
    }

    /// Takes the next event of the input in and hands back the events to
    /// pass on.
    pub fn next(&mut self, event: Event) -> (result: Result<Vec<Event>, Error>)
        requires
            old(self).wf(),
            event@.sound(),
        ensures
            final(self).wf(),
            final(self)@.id == old(self)@.id,
            steps(stepped(old(self)@, event@), result, final(self)@),
    {
        let mut passed: Vec<Event> = Vec::new();
        assert(event_views(passed@) =~= Seq::<EventView>::empty());
        if self.ended {
            return Ok(passed);
        }
        match event {
            Event::DataSet { current_watermark, dataset } => {
                let ghost before = self.manager@;
                let datasets = match self.manager.aggregate(&dataset, current_watermark) {
                    Ok(datasets) => datasets,
                    Err(error) => {
                        self.ended = true;
                        return Err(error);
                    },
                };
                let ghost emitted = crate::aggregate::dataset_views(datasets@);
                for dataset in held: datasets
                    invariant
                        crate::aggregate::dataset_views(held.seq()) == emitted,
                        passed@.len() == held.index(),
                        forall|i: int|
                            0 <= i < passed@.len() ==> (#[trigger] passed@[i])@ == (
                            EventView::DataSet { current_watermark, dataset: emitted[i] }),
                {
                    passed.push(Event::DataSet { current_watermark, dataset });
                }
                assert(event_views(passed@) =~= emitted_events(current_watermark, emitted));
                Ok(passed)
            },
            Event::CreateCheckPoint(barrier) => {
                let mut barrier = barrier;
                let exit = barrier.is_exit();
                if !barrier.is_saved(self.id) {
                    let state = self.manager.save_state().unwrap();
                    barrier.set_state(self.id, Some(state));
                }
                passed.push(Event::CreateCheckPoint(barrier));
                assert(event_views(passed@) =~= seq![EventView::CreateCheckPoint(barrier@)]);
                if exit {
                    self.ended = true;
                }
                Ok(passed)
            },
        }
    }
}

/// A stream that has ended passes nothing on, whatever comes in.
pub proof fn lemma_ended_stream_is_silent(stream: AggregateStreamView, event: EventView)
    requires
        stream.ended,
    ensures
        stepped(stream, event) == Ok::<(AggregateStreamView, Seq<EventView>), Error>(
            (stream, Seq::empty()),
        ),
{
}

/// What the polling of the event stream gave.
pub enum Polled {
    /// No event is ready.
    Pending,
    /// The event stream has ended.
    Ended,
    /// The event stream has failed.
    Failed(Error),
    Ready(Event),
}

/// What the stream of a pipeline does with what the polling gave.
pub enum Polling {
    /// Wait for the next event.
    Pending,
    /// The stream has ended.
    Ended,
    /// The stream ends with an error.
    Fail(Error),
    /// Hand the dataset to the consumer.
    Yield(DataSet),
    /// Poll again: the event was none for the consumer.
    Again,
}

/// The stream that drives a pipeline: it counts the nodes and sources that
/// a checkpoint has to hear from.
pub struct DataStream {
    node_count: usize,
    source_count: usize,
}

impl DataStream {
    /// The stream of a pipeline with `node_count` nodes to checkpoint, of
    /// which `source_count` are sources, and the context to build its
    /// operators with. `saved` is the blob of the last checkpoint, if
    /// there is one; a blob that cannot be decoded is an error.
    pub fn try_new(node_count: usize, source_count: usize, saved: Option<Vec<u8>>) -> (made:
        Result<(DataStream, CreateStreamContext), Error>)
        ensures
            match saved {
                Some(blob) => match parse_states(blob@) {
                    Some(states) => {
                        &&& made matches Ok((stream, ctx))
                        &&& ctx.prev_state@ == states
                        &&& stream.counts() == (node_count, source_count)
                    },
                    None => made matches Err(e) && e == Error::State,
                },
                None => {
                    &&& made matches Ok((stream, ctx))
                    &&& ctx.prev_state@ == Seq::<(usize, Seq<u8>)>::empty()
                    &&& stream.counts() == (node_count, source_count)
                },
            },
    {
        let prev_state = match saved {
            Some(blob) => match decode_states(blob.as_slice()) {
                Ok(states) => states,
                Err(error) => {
                    return Err(error);
                },
            },
            None => StateMap::new(),
        };
        Ok((DataStream { node_count, source_count }, CreateStreamContext { prev_state }))
    }

    /// The numbers of nodes and of sources that a checkpoint has to hear
    /// from.
    pub closed spec fn counts(&self) -> (usize, usize) {
        (self.node_count, self.source_count)
    }

    /// The barrier to send when the checkpoint timer ticks: none where the
    /// pipeline has nowhere to save a checkpoint to.
    pub fn on_tick(&self, can_save: bool) -> (barrier: Option<CheckPointBarrier>)
        ensures
            barrier is Some <==> can_save,
            barrier matches Some(b) ==> b@.sound() && !b@.is_exit && b@.pending_nodes
                == self.counts().0 && b@.pending_sources == self.counts().1 && b@.reported.len()
                == 0 && b@.states.len() == 0,
    {
        if can_save {
            Some(CheckPointBarrier::new(self.node_count, self.source_count, false))
        } else {
            None
        }
    }

    /// The barrier to send when the pipeline is asked to shut down.
    pub fn on_shutdown(&self) -> (barrier: CheckPointBarrier)
        ensures
            barrier@.sound(),
            barrier@.is_exit,
            barrier@.pending_nodes == self.counts().0,
            barrier@.pending_sources == self.counts().1,
            barrier@.reported.len() == 0,
            barrier@.states.len() == 0,
    {
        CheckPointBarrier::new(self.node_count, self.source_count, true)
    }

    /// What to do with what the polling of the event stream gave: a
    /// dataset goes to the consumer, a barrier is none of its business, an
    /// error or the end of the events ends the stream.
    pub fn poll_next(polled: Polled) -> (polling: Polling)
        ensures
            match polled {
                Polled::Pending => polling is Pending,
                Polled::Ended => polling is Ended,
                Polled::Failed(error) => polling matches Polling::Fail(e) && e == error,
                Polled::Ready(Event::DataSet { dataset, .. }) => polling matches Polling::Yield(d)
                    && d == dataset,
                Polled::Ready(Event::CreateCheckPoint(_)) => polling is Again,
            },
    {
        match polled {
            Polled::Pending => Polling::Pending,
            Polled::Ended => Polling::Ended,
            Polled::Failed(error) => Polling::Fail(error),
            Polled::Ready(Event::DataSet { current_watermark, dataset }) => Polling::Yield(dataset),
            Polled::Ready(Event::CreateCheckPoint(_)) => Polling::Again,
        }
    }
}

/// The blob to hand to the persistence when a barrier has come through:
/// the checkpoint of a complete barrier, nothing of one that is not
/// complete.
pub fn save_state(barrier: CheckPointBarrier) -> (blob: Option<Vec<u8>>)
    requires
        barrier@.sound(),
    ensures
        match blob {
            Some(bytes) => barrier@.complete() && bytes@ == enc_states(barrier@.states)
                && entries_fit(barrier@.states),
            None => !barrier@.complete(),
        },
{
    barrier.checkpoint()
}

/// The filter operator as a stream of events.
pub struct FilterStream {
    predicate: PhysicalExpr,
    ended: bool,
}

/// What a batch or a barrier does to a stateless operator, and what the
/// operator passes on: a batch becomes the dataset that the operator makes
/// of it, with the watermark of the batch; a barrier is passed on as it
/// is, and ends the stream where it is an exit barrier; an operator that
/// has ended passes nothing on.
pub open spec fn passed_on<S>(
    ended: bool,
    event: EventView,
    made: Result<(DataSetView, S), Error>,
    state: S,
) -> Result<(S, bool, Seq<EventView>), Error> {
    if ended {
        Ok((state, true, Seq::empty()))
    } else {
        match event {
            EventView::DataSet { current_watermark, dataset } => match made {
                Ok((output, after)) => Ok(
                    (
                        after,
                        false,
                        seq![EventView::DataSet { current_watermark, dataset: output }],
                    ),
                ),
                Err(error) => Err(error),
            },
            EventView::CreateCheckPoint(barrier) => Ok(
                (state, barrier.is_exit, seq![EventView::CreateCheckPoint(barrier)]),
            ),
        }
    }
}

/// An evaluation error as an error of the engine.
pub open spec fn lifted<T>(result: Result<T, EvalError>) -> Result<T, Error> {
    match result {
        Ok(value) => Ok(value),
        Err(error) => Err(Error::Eval(error)),
    }
}

/// What a step of a stateless operator that ended in `result` has to agree
/// with. After an error the stream has ended.
pub open spec fn passes<S>(
    expected: Result<(S, bool, Seq<EventView>), Error>,
    result: Result<Vec<Event>, Error>,
    state: S,
    ended: bool,
) -> bool {
    match expected {
        Ok((after, end, events)) => {
            &&& state == after
            &&& ended == end
            &&& result matches Ok(passed)
            &&& event_views(passed@) == events
        },
        Err(error) => result matches Err(e) && e == error && ended,
    }
}

/// The dataset of an event; an empty one for a barrier.
pub open spec fn batch_of(event: EventView) -> DataSetView {
    match event {
        EventView::DataSet { dataset, .. } => dataset,
        EventView::CreateCheckPoint(_) => DataSetView {
            schema: Seq::empty(),
            columns: Seq::empty(),
        },
    }
}

impl FilterStream {
    pub fn new(predicate: PhysicalExpr) -> (stream: FilterStream)
        ensures
            stream.predicate() == predicate@,
            !stream.ended(),
    {
        FilterStream { predicate, ended: false }
    }

    pub closed spec fn predicate(&self) -> PhysicalExprView {
        self.predicate@
    }

    /// Whether the stream has ended: behind an exit barrier, or an error.
    pub closed spec fn ended(&self) -> bool {
        self.ended
    }

    pub fn is_ended(&self) -> (ended: bool)
        ensures
            ended == self.ended(),
    {
        self.ended
    }

    /// Takes the next event of the input in and hands back the events to
    /// pass on.
    pub fn next(&mut self, event: Event) -> (result: Result<Vec<Event>, Error>)
        ensures
            passes(
                passed_on(
                    old(self).ended(),
                    event@,
                    lifted(filtered(old(self).predicate(), batch_of(event@))),
                    old(self).predicate(),
                ),
                result,
                final(self).predicate(),
                final(self).ended(),
            ),
    {
        let mut passed: Vec<Event> = Vec::new();
        assert(event_views(passed@) =~= Seq::<EventView>::empty());
        if self.ended {
            return Ok(passed);
        }
        match event {
            Event::DataSet { current_watermark, dataset } => {
                match filter(&dataset, &mut self.predicate) {
                    Ok(output) => {
                        passed.push(Event::DataSet { current_watermark, dataset: output });
                        assert(event_views(passed@) =~= seq![
                            EventView::DataSet { current_watermark, dataset: output@ },
                        ]);
                        Ok(passed)
                    },
                    Err(error) => {
                        self.ended = true;
                        Err(error)
                    },
                }
            },
            Event::CreateCheckPoint(barrier) => {
                if barrier.is_exit() {
                    self.ended = true;
                }
                passed.push(Event::CreateCheckPoint(barrier));
                assert(event_views(passed@) =~= seq![EventView::CreateCheckPoint(barrier@)]);
                Ok(passed)
            },
        }
    }
}

/// The project operator as a stream of events.
pub struct ProjectStream {
    exprs: Vec<PhysicalExpr>,
    schema: Schema,
    ended: bool,
}

/// What a projection makes of a batch, as a step of a stream: a dataset
/// whose columns do not fit the schema is an error.
pub open spec fn projection_step(
    exprs: Seq<PhysicalExprView>,
    schema: Seq<FieldView>,
    dataset: DataSetView,
) -> Result<(DataSetView, Seq<PhysicalExprView>), Error> {
    match projected(exprs, schema, dataset) {
        Ok((output, after)) => if output.fitting() {
            Ok((output, after))
        } else {
            Err(Error::InvalidSchema)
        },
        Err(error) => Err(Error::Eval(error)),
    }
}

impl ProjectStream {
    pub fn new(exprs: Vec<PhysicalExpr>, schema: Schema) -> (stream: ProjectStream)
        ensures
            stream.exprs() == physical_views(exprs@),
            stream.schema() == schema@,
            !stream.ended(),
    {
        ProjectStream { exprs, schema, ended: false }
    }

    pub closed spec fn exprs(&self) -> Seq<PhysicalExprView> {
        physical_views(self.exprs@)
    }

    pub closed spec fn schema(&self) -> Seq<FieldView> {
        self.schema@
    }

    /// Whether the stream has ended: behind an exit barrier, or an error.
    pub closed spec fn ended(&self) -> bool {
        self.ended
    }

    pub fn is_ended(&self) -> (ended: bool)
        ensures
            ended == self.ended(),
    {
        self.ended
    }

    /// Takes the next event of the input in and hands back the events to
    /// pass on.
    pub fn next(&mut self, event: Event) -> (result: Result<Vec<Event>, Error>)
        ensures
            final(self).schema() == old(self).schema(),
            passes(
                passed_on(
                    old(self).ended(),
                    event@,
                    projection_step(old(self).exprs(), old(self).schema(), batch_of(event@)),
                    old(self).exprs(),
                ),
                result,
                final(self).exprs(),
                final(self).ended(),
            ),
    {
        let mut passed: Vec<Event> = Vec::new();
        assert(event_views(passed@) =~= Seq::<EventView>::empty());
        if self.ended {
            return Ok(passed);
        }
        match event {
            Event::DataSet { current_watermark, dataset } => {
                match project(&dataset, &mut self.exprs, &self.schema) {
                    Ok(output) => {
                        passed.push(Event::DataSet { current_watermark, dataset: output });
                        assert(event_views(passed@) =~= seq![
                            EventView::DataSet { current_watermark, dataset: output@ },
                        ]);
                        Ok(passed)
                    },
                    Err(error) => {
                        self.ended = true;
                        Err(error)
                    },
                }
            },
            Event::CreateCheckPoint(barrier) => {
                if barrier.is_exit() {
                    self.ended = true;
                }
                passed.push(Event::CreateCheckPoint(barrier));
                assert(event_views(passed@) =~= seq![EventView::CreateCheckPoint(barrier@)]);
                Ok(passed)
            },
        }
    }
}

} // verus!
