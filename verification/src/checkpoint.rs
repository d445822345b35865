//! The checkpoint barrier: a control message that passes through the
//! operators of a pipeline and collects a snapshot of each.

use vstd::prelude::*;
use crate::codec::enc_bytes;
use crate::codec::enc_list;
use crate::codec::enc_seq;
use crate::codec::enc_u64;
use crate::codec::lemma_bytes_round_trip;
use crate::codec::lemma_bytes_cut;
use crate::codec::lemma_list_cut;
use crate::codec::lemma_u64_cut;
use crate::codec::lemma_list_round_trip;
use crate::codec::lemma_parse_seq_stops;
use crate::codec::lemma_u64_round_trip;
use crate::codec::max_len;
use crate::codec::parse_bytes;
use crate::codec::parse_list;
use crate::codec::parse_seq;
use crate::codec::parse_u64;
use crate::codec::put_bytes;
use crate::codec::put_u64;
use crate::codec::read_bytes;
use crate::codec::read_u64;
use crate::error::Error;

verus! {

/// The saved state of one node: the node's number and the bytes.
pub struct NodeState {
    pub id: usize,
    pub data: Vec<u8>,
}

impl View for NodeState {
    type V = (usize, Seq<u8>);

    open spec fn view(&self) -> (usize, Seq<u8>) {
        (self.id, self.data@)
    }
}

/// The views of a sequence of saved states.
pub open spec fn entry_views(entries: Seq<NodeState>) -> Seq<(usize, Seq<u8>)> {
    entries.map_values(|e: NodeState| e@)
}

/// Whether the entry at `at` is that of the node `id`.
pub open spec fn entry_of(entries: Seq<(usize, Seq<u8>)>, id: usize, at: int) -> bool {
    0 <= at < entries.len() && entries[at].0 == id
}

/// No node has two entries.
pub open spec fn one_each(entries: Seq<(usize, Seq<u8>)>) -> bool {
    forall|i: int, j: int|
        0 <= i < j < entries.len() ==> (#[trigger] entries[i]).0 != (#[trigger] entries[j]).0
}

/// Whether a node has an entry.
pub open spec fn has_entry(entries: Seq<(usize, Seq<u8>)>, id: usize) -> bool {
    exists|at: int| entry_of(entries, id, at)
}

/// The saved states of the nodes of a pipeline, by node number.
pub struct StateMap {
    entries: Vec<NodeState>,
}

impl View for StateMap {
    type V = Seq<(usize, Seq<u8>)>;

    /// The entries, in the order in which they were put in.
    closed spec fn view(&self) -> Seq<(usize, Seq<u8>)> {
        entry_views(self.entries@)
    }
}

impl StateMap {
    #[verifier::type_invariant]
    spec fn distinct(self) -> bool {
        one_each(entry_views(self.entries@))
    }

    pub fn new() -> (map: StateMap)
        ensures
            map@ == Seq::<(usize, Seq<u8>)>::empty(),
            one_each(map@),
    {
        let map = StateMap { entries: Vec::new() };
        assert(map@ =~= Seq::<(usize, Seq<u8>)>::empty());
        map
    }

    pub fn len(&self) -> (n: usize)
        ensures
            n == self@.len(),
            one_each(self@),
    {
        proof {
            use_type_invariant(self);
        }
        self.entries.len()
    }

    /// The place of the entry of a node.
    fn find(&self, id: usize) -> (at: Option<usize>)
        ensures
            one_each(self@),
            match at {
                Some(i) => entry_of(self@, id, i as int),
                None => !has_entry(self@, id),
            },
    {
        proof {
            use_type_invariant(self);
        }
        let mut i: usize = 0;
        while i < self.entries.len()
            invariant
                i <= self.entries@.len(),
                one_each(self@),
                forall|j: int| 0 <= j < i ==> !entry_of(self@, id, j),
            decreases self.entries@.len() - i,
        {
            if self.entries[i].id == id {
                return Some(i);
            }
            i += 1;
        }
        None
    }

    /// Whether a node has an entry.
    pub fn contains(&self, id: usize) -> (found: bool)
        ensures
            found == has_entry(self@, id),
    {
        self.find(id).is_some()
    }

    /// Puts in the state of a node that has no entry yet.
    pub fn insert(&mut self, id: usize, data: Vec<u8>)
        requires
            !has_entry(old(self)@, id),
        ensures
            final(self)@ == old(self)@.push((id, data@)),
            one_each(final(self)@),
    {
        proof {
            use_type_invariant(&*self);
        }
        let ghost before = self@;
        let mut entries: Vec<NodeState> = Vec::new();
        std::mem::swap(&mut entries, &mut self.entries);
        entries.push(NodeState { id, data });
        proof {
            let after = entry_views(entries@);
            assert(after =~= before.push((id, data@)));
            assert forall|i: int, j: int| 0 <= i < j < after.len() implies (#[trigger] after[i]).0
                != (#[trigger] after[j]).0 by {
                if j == before.len() {
                    if after[i].0 == id {
                        assert(entry_of(before, id, i));
                    }
                } else {
                    assert(before[i].0 != before[j].0);
                }
            }
        }
        self.entries = entries;
    }

    /// Takes the state of a node out, where the node has an entry.
    pub fn remove(&mut self, id: usize) -> (data: Option<Vec<u8>>)
        ensures
            match data {
                Some(bytes) => exists|at: int|
                    entry_of(old(self)@, id, at) && old(self)@[at].1 == bytes@ && final(self)@
                        == old(self)@.remove(at),
                None => !has_entry(old(self)@, id) && final(self)@ == old(self)@,
            },
    {
        proof {
            use_type_invariant(&*self);
        }
        let ghost before = self@;
        match self.find(id) {
            Some(at) => {
                let mut entries: Vec<NodeState> = Vec::new();
                std::mem::swap(&mut entries, &mut self.entries);
                let entry = entries.remove(at);
                proof {
                    let after = entry_views(entries@);
                    assert(after =~= before.remove(at as int));
                    assert forall|i: int, j: int|
                        0 <= i < j < after.len() implies (#[trigger] after[i]).0 != (
                    #[trigger] after[j]).0 by {
                        let a = if i < at {
                            i
                        } else {
                            i + 1
                        };
                        let b = if j < at {
                            j
                        } else {
                            j + 1
                        };
                        assert(before[a].0 != before[b].0);
                    }
                    assert(entry_of(before, id, at as int));
                }
                self.entries = entries;
                Some(entry.data)
            },
            None => None,
        }
    }
}

/// One entry of the checkpoint blob: the node's number in eight bytes, then
/// the bytes of its state behind their length.
pub open spec fn enc_entry(entry: (usize, Seq<u8>)) -> Seq<u8> {
    enc_u64(entry.0 as u64) + enc_bytes(entry.1)
}

pub open spec fn parse_entry(bytes: Seq<u8>) -> Option<((usize, Seq<u8>), Seq<u8>)> {
    match parse_u64(bytes) {
        Some((id, after)) => if id <= usize::MAX {
            match parse_bytes(after) {
                Some((data, rest)) => Some(((id as usize, data), rest)),
                None => None,
            }
        } else {
            None
        },
        None => None,
    }
}

/// The checkpoint blob of a pipeline: the number of entries, then the
/// entries.
pub open spec fn enc_states(entries: Seq<(usize, Seq<u8>)>) -> Seq<u8> {
    enc_list(entries, |e: (usize, Seq<u8>)| enc_entry(e))
}

/// The entries that a checkpoint blob holds, where it is one: nothing
/// follows the entries, and no node has two.
pub open spec fn parse_states(bytes: Seq<u8>) -> Option<Seq<(usize, Seq<u8>)>> {
    match parse_list(bytes, |b: Seq<u8>| parse_entry(b)) {
        Some((entries, rest)) => if rest.len() == 0 && one_each(entries) {
            Some(entries)
        } else {
            None
        },
        None => None,
    }
}

/// Whether the lengths of the entries can be stated in the blob.
pub open spec fn entries_fit(entries: Seq<(usize, Seq<u8>)>) -> bool {
    &&& entries.len() <= max_len()
    &&& forall|i: int| 0 <= i < entries.len() ==> (#[trigger] entries[i]).1.len() <= max_len()
}

pub proof fn lemma_entry_round_trip(entry: (usize, Seq<u8>), rest: Seq<u8>)
    requires
        entry.1.len() <= max_len(),
    ensures
        parse_entry(enc_entry(entry) + rest) == Some((entry, rest)),
{
    lemma_u64_round_trip(entry.0 as u64, enc_bytes(entry.1) + rest);
    lemma_bytes_round_trip(entry.1, rest);
    assert(enc_entry(entry) + rest =~= enc_u64(entry.0 as u64) + (enc_bytes(entry.1) + rest));
}

/// Decoding a checkpoint blob gives back the entries that were encoded.
pub proof fn lemma_states_round_trip(entries: Seq<(usize, Seq<u8>)>)
    requires
        entries_fit(entries),
        one_each(entries),
    ensures
        parse_states(enc_states(entries)) == Some(entries),
{
    let enc = |e: (usize, Seq<u8>)| enc_entry(e);
    let parse = |b: Seq<u8>| parse_entry(b);
    assert forall|i: int, after: Seq<u8>| 0 <= i < entries.len() implies #[trigger] parse(
        enc(entries[i]) + after,
    ) == Some((entries[i], after)) by {
        lemma_entry_round_trip(entries[i], after);
    }
    lemma_list_round_trip(entries, enc, parse, Seq::empty());
    assert(enc_states(entries) + Seq::<u8>::empty() =~= enc_states(entries));
}

/// An encoding that is cut short is no encoding of an entry.
pub proof fn lemma_entry_cut(entry: (usize, Seq<u8>), n: int)
    requires
        entry.1.len() <= max_len(),
        0 <= n < enc_entry(entry).len(),
    ensures
        parse_entry(enc_entry(entry).take(n)) is None,
{
    let id = entry.0 as u64;
    let cut = enc_entry(entry).take(n);
    lemma_u64_round_trip(id, Seq::empty());
    if n < 8 {
        lemma_u64_cut(id, n);
        assert(cut =~= enc_u64(id).take(n));
    } else {
        let rest = enc_bytes(entry.1).take(n - 8);
        lemma_u64_round_trip(id, rest);
        lemma_bytes_cut(entry.1, n - 8);
        assert(cut =~= enc_u64(id) + rest);
    }
}

/// A checkpoint blob that is cut short is no checkpoint blob.
pub proof fn lemma_states_cut(entries: Seq<(usize, Seq<u8>)>, n: int)
    requires
        entries_fit(entries),
        0 <= n < enc_states(entries).len(),
    ensures
        parse_states(enc_states(entries).take(n)) is None,
{
    let enc = |e: (usize, Seq<u8>)| enc_entry(e);
    let parse = |b: Seq<u8>| parse_entry(b);
    assert forall|i: int, after: Seq<u8>| 0 <= i < entries.len() implies #[trigger] parse(
        enc(entries[i]) + after,
    ) == Some((entries[i], after)) by {
        lemma_entry_round_trip(entries[i], after);
    }
    assert forall|i: int, m: int|
        0 <= i < entries.len() && 0 <= m < enc(entries[i]).len() implies (#[trigger] parse(
        enc(entries[i]).take(m),
    )) is None by {
        lemma_entry_cut(entries[i], m);
    }
    lemma_list_cut(entries, enc, parse, n);
}

/// The checkpoint blob of the saved states.
pub fn encode_states(states: &StateMap) -> (bytes: Vec<u8>)
    ensures
        bytes@ == enc_states(states@),
        entries_fit(states@),
        one_each(states@),
{
    proof {
        use_type_invariant(states);
    }
    let ghost entries = states@;
    let ghost enc = |e: (usize, Seq<u8>)| enc_entry(e);
    let mut out: Vec<u8> = Vec::new();
    put_u64(&mut out, states.entries.len() as u64);
    let mut i: usize = 0;
    while i < states.entries.len()
        invariant
            i <= states.entries@.len(),
            entries == entry_views(states.entries@),
            enc == (|e: (usize, Seq<u8>)| enc_entry(e)),
            forall|j: int| 0 <= j < i ==> (#[trigger] entries[j]).1.len() <= max_len(),
            out@ == enc_u64(states.entries@.len() as u64) + enc_seq(entries.take(i as int), enc),
        decreases states.entries@.len() - i,
    {
        let entry = &states.entries[i];
        assert(entries[i as int] == entry@);
        assert(entry.data@.len() == entry.data.len());
        let ghost before = out@;
        put_u64(&mut out, entry.id as u64);
        put_bytes(&mut out, entry.data.as_slice());
        proof {
            let next = entries.take(i + 1);
            assert(next.drop_last() =~= entries.take(i as int));
            assert(next.last() == entry@);
            assert(out@ =~= before + enc_entry(entry@));
            assert(enc_seq(next, enc) == enc_seq(entries.take(i as int), enc) + enc(next.last()));
        }
        i += 1;
    }
    assert(entries.take(i as int) =~= entries);
    assert(out@ =~= enc_states(entries));
    out
}

/// The saved states that a checkpoint blob holds; a blob that is cut
/// short, goes on behind its entries or names a node twice is refused.
pub fn decode_states(bytes: &[u8]) -> (states: Result<StateMap, Error>)
    ensures
        match states {
            Ok(map) => parse_states(bytes@) == Some(map@),
            Err(error) => parse_states(bytes@) is None && error == Error::State,
        },
{
    let ghost parse = |b: Seq<u8>| parse_entry(b);
    assert(bytes@.skip(0) =~= bytes@);
    let (count, first) = match read_u64(bytes, 0) {
        Some(found) => found,
        None => {
            return Err(Error::State);
        },
    };
    let ghost body = bytes@.skip(first as int);
    let mut map = StateMap::new();
    let mut at: usize = first;
    let mut i: u64 = 0;
    while i < count
        invariant
            i <= count,
            first <= at <= bytes@.len(),
            body == bytes@.skip(first as int),
            parse_u64(bytes@) == Some((count, body)),
            parse == (|b: Seq<u8>| parse_entry(b)),
            one_each(map@),
            parse_seq(body, i as nat, parse) == Some((map@, bytes@.skip(at as int))),
        decreases count - i,
    {
        let (id, after) = match read_u64(bytes, at) {
            Some(found) => found,
            None => {
                proof {
                    lemma_parse_seq_stops(body, i as nat, count as nat, parse);
                }
                return Err(Error::State);
            },
        };
        if id > usize::MAX as u64 {
            proof {
                lemma_parse_seq_stops(body, i as nat, count as nat, parse);
            }
            return Err(Error::State);
        }
        let (data, next) = match read_bytes(bytes, after) {
            Some(found) => found,
            None => {
                proof {
                    lemma_parse_seq_stops(body, i as nat, count as nat, parse);
                }
                return Err(Error::State);
            },
        };
        if map.contains(id as usize) {
            proof {
                let seen = map@;
                let node = id as usize;
                let entry = (node, data@);
                let place = choose|place: int| entry_of(seen, node, place);
                lemma_twice_stays(body, i as nat, count as nat, place, seen.push(entry));
            }
            return Err(Error::State);
        }
        map.insert(id as usize, data);
        at = next;
        i += 1;
    }
    if at != bytes.len() {
        return Err(Error::State);
    }
    Ok(map)
}

/// Entries that name a node twice still do so when more entries follow.
proof fn lemma_twice_stays(
    body: Seq<u8>,
    read: nat,
    count: nat,
    place: int,
    entries: Seq<(usize, Seq<u8>)>,
)
    requires
        read < count,
        parse_seq(body, read + 1, |b: Seq<u8>| parse_entry(b)) is Some,
        parse_seq(body, read + 1, |b: Seq<u8>| parse_entry(b))->Some_0.0 == entries,
        0 <= place < entries.len() - 1,
        entries[place].0 == entries[entries.len() - 1].0,
    ensures
        match parse_seq(body, count, |b: Seq<u8>| parse_entry(b)) {
            Some((all, _)) => !one_each(all),
            None => true,
        },
    decreases count,
{
    let parse = |b: Seq<u8>| parse_entry(b);
    if read + 1 < count {
        lemma_twice_stays(body, read, (count - 1) as nat, place, entries);
        match parse_seq(body, count, parse) {
            Some((all, _)) => {
                let shorter = parse_seq(body, (count - 1) as nat, parse)->Some_0.0;
                assert(all.drop_last() =~= shorter);
                if one_each(all) {
                    assert forall|i: int, j: int| 0 <= i < j < shorter.len() implies (
                    #[trigger] shorter[i]).0 != (#[trigger] shorter[j]).0 by {
                        assert(all[i].0 != all[j].0);
                    }
                }
            },
            None => {},
        }
    } else {
        assert(entries[place].0 == entries[entries.len() - 1].0);
    }
}

/// The mathematical value of a [`CheckPointBarrier`].
pub struct BarrierView {
    /// The number of nodes that have to report to the barrier.
    pub node_count: usize,
    /// The number of sources that have to pass the barrier on.
    pub source_count: usize,
    /// Whether the pipeline ends behind this barrier.
    pub is_exit: bool,
    /// The nodes that have reported, in the order of their reports.
    pub reported: Seq<usize>,
    /// The states that nodes have reported.
    pub states: Seq<(usize, Seq<u8>)>,
    /// The nodes that have reported that they have no state.
    pub silent: Seq<usize>,
    pub pending_sources: usize,
    pub pending_nodes: usize,
}

impl BarrierView {
    /// No node has reported twice; every node has reported or is pending;
    /// every state is that of a node that has reported, one for a node at
    /// most; and each node that has reported has a state or is counted
    /// among those without one, never both.
    pub open spec fn sound(self) -> bool {
        &&& self.reported.no_duplicates()
        &&& self.reported.len() + self.pending_nodes == self.node_count
        &&& self.pending_sources <= self.source_count
        &&& one_each(self.states)
        &&& forall|i: int|
            0 <= i < self.states.len() ==> self.reported.contains((#[trigger] self.states[i]).0)
        &&& self.states.len() + self.silent.len() == self.reported.len()
        &&& forall|i: int|
            0 <= i < self.silent.len() ==> self.reported.contains(#[trigger] self.silent[i])
                && !has_entry(self.states, self.silent[i])
        &&& forall|i: int|
            0 <= i < self.reported.len() ==> has_entry(self.states, #[trigger] self.reported[i])
                || self.silent.contains(self.reported[i])
    }

    /// Whether the node `id` has reported a state.
    pub open spec fn gave_state(self, id: usize) -> bool {
        self.reported.contains(id) && !self.silent.contains(id)
    }

    /// Every source has passed the barrier on and every node has reported.
    pub open spec fn complete(self) -> bool {
        self.pending_sources == 0 && self.pending_nodes == 0
    }

    /// The barrier after the node `id` has reported `state`. A node that
    /// has reported before, or one more than were counted, changes nothing.
    pub open spec fn with_report(self, id: usize, state: Option<Seq<u8>>) -> BarrierView {
        if self.reported.contains(id) || self.pending_nodes == 0 {
            self
        } else {
            BarrierView {
                node_count: self.node_count,
                source_count: self.source_count,
                is_exit: self.is_exit,
                reported: self.reported.push(id),
                states: match state {
                    Some(bytes) => self.states.push((id, bytes)),
                    None => self.states,
                },
                silent: match state {
                    Some(_) => self.silent,
                    None => self.silent.push(id),
                },
                pending_sources: self.pending_sources,
                pending_nodes: (self.pending_nodes - 1) as usize,
            }
        }
    }
}

/// A complete barrier has heard every node exactly once: as many nodes
/// have reported as were counted, none of them twice, and the states are
/// those of reporting nodes, one for a node at most.
pub proof fn lemma_complete_barrier_heard_every_node(barrier: BarrierView)
    requires
        barrier.sound(),
        barrier.complete(),
    ensures
        barrier.reported.len() == barrier.node_count,
        barrier.reported.no_duplicates(),
        one_each(barrier.states),
        forall|i: int|
            0 <= i < barrier.states.len() ==> barrier.reported.contains(
                (#[trigger] barrier.states[i]).0,
            ),
{
}

/// A checkpoint holds exactly one entry for each node that has a state.
///
/// Of a complete barrier: a node has an entry among the states if and only
/// if it has reported a state; no node has two entries; the nodes with an
/// entry and those that reported that they have no state are, together, as
/// many as the nodes that were counted, so that there are as many entries
/// as nodes where every node reported a state. The blob that the entries
/// are encoded as decodes to these entries.
pub proof fn lemma_checkpoint_holds_every_state_once(barrier: BarrierView)
    requires
        barrier.sound(),
        barrier.complete(),
        entries_fit(barrier.states),
    ensures
        forall|id: usize| has_entry(barrier.states, id) <==> barrier.gave_state(id),
        one_each(barrier.states),
        barrier.states.len() + barrier.silent.len() == barrier.node_count,
        parse_states(enc_states(barrier.states)) == Some(barrier.states),
{
    lemma_reported_states(barrier);
    lemma_states_round_trip(barrier.states);
}

/// The nodes that have an entry are those that have reported a state.
pub proof fn lemma_reported_states(barrier: BarrierView)
    requires
        barrier.sound(),
    ensures
        forall|id: usize| has_entry(barrier.states, id) <==> barrier.gave_state(id),
{
    assert forall|id: usize| has_entry(barrier.states, id) <==> barrier.gave_state(id) by {
        if has_entry(barrier.states, id) {
            let at = choose|at: int| entry_of(barrier.states, id, at);
            assert(barrier.reported.contains(barrier.states[at].0));
            if barrier.silent.contains(id) {
                let i = choose|i: int| 0 <= i < barrier.silent.len() && barrier.silent[i] == id;
                assert(!has_entry(barrier.states, barrier.silent[i]));
            }
        }
        if barrier.gave_state(id) {
            let i = choose|i: int| 0 <= i < barrier.reported.len() && barrier.reported[i] == id;
            assert(has_entry(barrier.states, barrier.reported[i]) || barrier.silent.contains(
                barrier.reported[i],
            ));
        }
    }
}

/// A checkpoint barrier.
pub struct CheckPointBarrier {
    node_count: usize,
    source_count: usize,
    is_exit: bool,
    reported: Vec<usize>,
    states: StateMap,
    /// The nodes that have reported that they have no state: kept for
    /// what the barrier states of itself, not for what it does.
    silent: Ghost<Seq<usize>>,
    pending_sources: usize,
    pending_nodes: usize,
}

impl View for CheckPointBarrier {
    type V = BarrierView;

    closed spec fn view(&self) -> BarrierView {
        BarrierView {
            node_count: self.node_count,
            source_count: self.source_count,
            is_exit: self.is_exit,
            reported: self.reported@,
            states: self.states@,
            silent: self.silent@,
            pending_sources: self.pending_sources,
            pending_nodes: self.pending_nodes,
        }
    }
}

impl CheckPointBarrier {
    /// A barrier that no source has passed on and to which no node has
    /// reported.
    pub fn new(node_count: usize, source_count: usize, is_exit: bool) -> (barrier:
        CheckPointBarrier)
        ensures
            barrier@.sound(),
            barrier@ == (BarrierView {
                node_count,
                source_count,
                is_exit,
                reported: Seq::empty(),
                states: Seq::empty(),
                silent: Seq::empty(),
                pending_sources: source_count,
                pending_nodes: node_count,
            }),
    {
        CheckPointBarrier {
            node_count,
            source_count,
            is_exit,
            reported: Vec::new(),
            states: StateMap::new(),
            silent: Ghost(Seq::empty()),
            pending_sources: source_count,
            pending_nodes: node_count,
        }
    }

    /// Whether the pipeline ends behind this barrier.
    pub fn is_exit(&self) -> (exit: bool)
        ensures
            exit == self@.is_exit,
    {
        self.is_exit
    }

    /// Whether the node `id` has reported.
    pub fn is_saved(&self, id: usize) -> (saved: bool)
        ensures
            saved == self@.reported.contains(id),
    {
        let mut i: usize = 0;
        while i < self.reported.len()
            invariant
                i <= self.reported@.len(),
                forall|j: int| 0 <= j < i ==> self.reported@[j] != id,
            decreases self.reported@.len() - i,
        {
            if self.reported[i] == id {
                return true;
            }
            i += 1;
        }
        false
    }

    /// The node `id` reports its state, or that it has none.
    pub fn set_state(&mut self, id: usize, state: Option<Vec<u8>>)
        requires
            old(self)@.sound(),
        ensures
            final(self)@.sound(),
            final(self)@ == old(self)@.with_report(
                id,
                match state {
                    Some(bytes) => Some(bytes@),
                    None => None,
                },
            ),
    {
        if self.is_saved(id) || self.pending_nodes == 0 {
            return ;
        }
        let ghost before = self@;
        proof {
            if has_entry(before.states, id) {
                let at = choose|at: int| entry_of(before.states, id, at);
                assert(before.reported.contains(before.states[at].0));
            }
        }
        self.reported.push(id);
        self.pending_nodes = self.pending_nodes - 1;
        match state {
            Some(bytes) => {
                self.states.insert(id, bytes);
            },
            None => {
                self.silent = Ghost(self.silent@.push(id));
            },
        }
        proof {
            let after = self@;
            assert forall|i: int| 0 <= i < after.states.len() implies after.reported.contains(
                (#[trigger] after.states[i]).0,
            ) by {
                if i < before.states.len() {
                    let node = before.states[i].0;
                    assert(before.reported.contains(node));
                    let place = choose|place: int|
                        0 <= place < before.reported.len() && before.reported[place] == node;
                    assert(after.reported[place] == node);
                } else {
                    assert(after.reported[before.reported.len() as int] == id);
                }
            }
            assert forall|i: int| 0 <= i < after.silent.len() implies after.reported.contains(
                #[trigger] after.silent[i],
            ) && !has_entry(after.states, after.silent[i]) by {
                let node = after.silent[i];
                if i < before.silent.len() {
                    assert(before.reported.contains(before.silent[i]));
                    let place = choose|place: int|
                        0 <= place < before.reported.len() && before.reported[place] == node;
                    assert(after.reported[place] == node);
                } else {
                    assert(after.reported[before.reported.len() as int] == id);
                }
                if has_entry(after.states, node) {
                    let at = choose|at: int| entry_of(after.states, node, at);
                    if at < before.states.len() {
                        assert(entry_of(before.states, node, at));
                    }
                }
            }
            assert forall|i: int| 0 <= i < after.reported.len() implies has_entry(
                after.states,
                #[trigger] after.reported[i],
            ) || after.silent.contains(after.reported[i]) by {
                let node = after.reported[i];
                if i < before.reported.len() {
                    assert(node == before.reported[i]);
                    if has_entry(before.states, node) {
                        let at = choose|at: int| entry_of(before.states, node, at);
                        assert(entry_of(after.states, node, at));
                    } else {
                        let k = choose|k: int| 0 <= k < before.silent.len() && before.silent[k] == node;
                        assert(after.silent[k] == node);
                    }
                } else if state is Some {
                    assert(entry_of(after.states, node, before.states.len() as int));
                } else {
                    assert(after.silent[before.silent.len() as int] == node);
                }
            }
            assert forall|i: int, j: int|
                0 <= i < after.reported.len() && 0 <= j < after.reported.len() && i
                    != j implies after.reported[i] != after.reported[j] by {
                if i < before.reported.len() && j < before.reported.len() {
                    assert(before.reported[i] != before.reported[j]);
                } else if i < before.reported.len() {
                    assert(before.reported.contains(before.reported[i]));
                } else {
                    assert(before.reported.contains(before.reported[j]));
                }
            }
        }
    }

    /// A source has passed the barrier on.
    pub fn source_done(&mut self)
        requires
            old(self)@.sound(),
        ensures
            final(self)@.sound(),
            final(self)@ == (BarrierView {
                pending_sources: if old(self)@.pending_sources > 0 {
                    (old(self)@.pending_sources - 1) as usize
                } else {
                    0
                },
                ..old(self)@
            }),
    {
        if self.pending_sources > 0 {
            self.pending_sources = self.pending_sources - 1;
        }
    }

    /// Whether every source has passed the barrier on and every node has
    /// reported.
    pub fn is_complete(&self) -> (complete: bool)
        ensures
            complete == self@.complete(),
    {
        self.pending_sources == 0 && self.pending_nodes == 0
    }

    /// The states that were reported: one entry for each node that has
    /// reported a state, and no other. Of a complete barrier every node has
    /// reported exactly once.
    pub fn take_state(self) -> (states: StateMap)
        requires
            self@.sound(),
        ensures
            states@ == self@.states,
            one_each(states@),
            forall|id: usize| has_entry(states@, id) <==> self@.gave_state(id),
            self@.complete() ==> self@.reported.len() == self@.node_count
                && self@.reported.no_duplicates(),
    {
        proof {
            lemma_reported_states(self@);
        }
        self.states
    }

    /// The checkpoint blob of a complete barrier; nothing of one that is
    /// not complete.
    pub fn checkpoint(self) -> (blob: Option<Vec<u8>>)
        requires
            self@.sound(),
        ensures
            match blob {
                Some(bytes) => self@.complete() && bytes@ == enc_states(self@.states)
                    && entries_fit(self@.states),
                None => !self@.complete(),
            },
    {
        if self.is_complete() {
            Some(encode_states(&self.states))
        } else {
            None
        }
    }
}

} // verus!
