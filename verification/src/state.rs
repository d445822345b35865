//! The state of the aggregate operator as a checkpoint holds it, and its
//! byte format.
//!
//! A saved state is the saved states of the grouping expressions, then the
//! open windows; a window is its start, its end and its groups; a group is
//! its key, the saved states of its aggregate expressions and their
//! results.

use vstd::prelude::*;
use crate::array::Scalar;
use crate::array::ScalarValue;
use crate::array::scalar_values;
use crate::codec::blob_views;
use crate::codec::blobs_fit;
use crate::codec::enc_blobs;
use crate::codec::enc_i64;
use crate::codec::enc_list;
use crate::codec::enc_scalars;
use crate::codec::enc_seq;
use crate::codec::enc_u64;
use crate::codec::lemma_blobs_round_trip;
use crate::codec::lemma_blobs_cut;
use crate::codec::lemma_list_cut;
use crate::codec::lemma_scalars_cut;
use crate::codec::lemma_u64_cut;
use crate::codec::lemma_u64_round_trip;
use crate::codec::i64_bits;
use crate::codec::lemma_i64_round_trip;
use crate::codec::lemma_list_round_trip;
use crate::codec::lemma_parse_seq_stops;
use crate::codec::lemma_scalars_round_trip;
use crate::codec::max_len;
use crate::codec::parse_blobs;
use crate::codec::parse_i64;
use crate::codec::parse_list;
use crate::codec::parse_scalars;
use crate::codec::parse_seq;
use crate::codec::parse_u64;
use crate::codec::put_blobs;
use crate::codec::put_i64;
use crate::codec::put_scalars;
use crate::codec::put_u64;
use crate::codec::read_blobs;
use crate::codec::read_i64;
use crate::codec::read_scalars;
use crate::codec::read_u64;
use crate::codec::reads;
use crate::codec::scalars_fit;

verus! {

pub struct SavedGroupView {
    pub key: Seq<ScalarValue>,
    pub exprs: Seq<Seq<u8>>,
    pub values: Seq<ScalarValue>,
}

pub struct SavedWindowView {
    pub start: i64,
    pub end: i64,
    pub groups: Seq<SavedGroupView>,
}

pub struct SavedStateView {
    pub group_exprs: Seq<Seq<u8>>,
    pub windows: Seq<SavedWindowView>,
}

pub struct SavedGroup {
    pub key: Vec<Scalar>,
    pub exprs: Vec<Vec<u8>>,
    pub values: Vec<Scalar>,
}

pub struct SavedWindow {
    pub start: i64,
    pub end: i64,
    pub groups: Vec<SavedGroup>,
}

pub struct SavedState {
    pub group_exprs: Vec<Vec<u8>>,
    pub windows: Vec<SavedWindow>,
}

impl View for SavedGroup {
    type V = SavedGroupView;

    open spec fn view(&self) -> SavedGroupView {
        SavedGroupView {
            key: scalar_values(self.key@),
            exprs: blob_views(self.exprs@),
            values: scalar_values(self.values@),
        }
    }
}

pub open spec fn group_views(groups: Seq<SavedGroup>) -> Seq<SavedGroupView> {
    groups.map_values(|g: SavedGroup| g@)
}

impl View for SavedWindow {
    type V = SavedWindowView;

    open spec fn view(&self) -> SavedWindowView {
        SavedWindowView { start: self.start, end: self.end, groups: group_views(self.groups@) }
    }
}

pub open spec fn saved_window_views(windows: Seq<SavedWindow>) -> Seq<SavedWindowView> {
    windows.map_values(|w: SavedWindow| w@)
}

impl View for SavedState {
    type V = SavedStateView;

    open spec fn view(&self) -> SavedStateView {
        SavedStateView {
            group_exprs: blob_views(self.group_exprs@),
            windows: saved_window_views(self.windows@),
        }
    }
}

pub open spec fn enc_group(group: SavedGroupView) -> Seq<u8> {
    enc_scalars(group.key) + enc_blobs(group.exprs) + enc_scalars(group.values)
}

pub open spec fn parse_group(bytes: Seq<u8>) -> Option<(SavedGroupView, Seq<u8>)> {
    match parse_scalars(bytes) {
        Some((key, after_key)) => match parse_blobs(after_key) {
            Some((exprs, after_exprs)) => match parse_scalars(after_exprs) {
                Some((values, rest)) => Some((SavedGroupView { key, exprs, values }, rest)),
                None => None,
            },
            None => None,
        },
        None => None,
    }
}

pub open spec fn enc_groups(groups: Seq<SavedGroupView>) -> Seq<u8> {
    enc_list(groups, |g: SavedGroupView| enc_group(g))
}

pub open spec fn parse_groups(bytes: Seq<u8>) -> Option<(Seq<SavedGroupView>, Seq<u8>)> {
    parse_list(bytes, |b: Seq<u8>| parse_group(b))
}

pub open spec fn enc_window(window: SavedWindowView) -> Seq<u8> {
    enc_i64(window.start) + enc_i64(window.end) + enc_groups(window.groups)
}

pub open spec fn parse_window(bytes: Seq<u8>) -> Option<(SavedWindowView, Seq<u8>)> {
    match parse_i64(bytes) {
        Some((start, after_start)) => match parse_i64(after_start) {
            Some((end, after_end)) => match parse_groups(after_end) {
                Some((groups, rest)) => Some((SavedWindowView { start, end, groups }, rest)),
                None => None,
            },
            None => None,
        },
        None => None,
    }
}

pub open spec fn enc_windows(windows: Seq<SavedWindowView>) -> Seq<u8> {
    enc_list(windows, |w: SavedWindowView| enc_window(w))
}

pub open spec fn parse_windows(bytes: Seq<u8>) -> Option<(Seq<SavedWindowView>, Seq<u8>)> {
    parse_list(bytes, |b: Seq<u8>| parse_window(b))
}

/// The bytes of a saved state.
pub open spec fn enc_state(state: SavedStateView) -> Seq<u8> {
    enc_blobs(state.group_exprs) + enc_windows(state.windows)
}

/// The saved state that `bytes` are, where they are one and nothing
/// follows it.
pub open spec fn parse_state(bytes: Seq<u8>) -> Option<SavedStateView> {
    match parse_blobs(bytes) {
        Some((group_exprs, after)) => match parse_windows(after) {
            Some((windows, rest)) => if rest.len() == 0 {
                Some(SavedStateView { group_exprs, windows })
            } else {
                None
            },
            None => None,
        },
        None => None,
    }
}

/// Whether every length in a group can be stated in its prefix.
pub open spec fn group_fits(group: SavedGroupView) -> bool {
    scalars_fit(group.key) && blobs_fit(group.exprs) && scalars_fit(group.values)
}

pub open spec fn window_fits(window: SavedWindowView) -> bool {
    &&& window.groups.len() <= max_len()
    &&& forall|i: int| 0 <= i < window.groups.len() ==> group_fits(#[trigger] window.groups[i])
}

pub open spec fn state_fits(state: SavedStateView) -> bool {
    &&& blobs_fit(state.group_exprs)
    &&& state.windows.len() <= max_len()
    &&& forall|i: int| 0 <= i < state.windows.len() ==> window_fits(#[trigger] state.windows[i])
}

pub proof fn lemma_group_round_trip(group: SavedGroupView, rest: Seq<u8>)
    requires
        group_fits(group),
    ensures
        parse_group(enc_group(group) + rest) == Some((group, rest)),
{
    let tail_values = enc_scalars(group.values) + rest;
    let tail_exprs = enc_blobs(group.exprs) + tail_values;
    lemma_scalars_round_trip(group.key, tail_exprs);
    lemma_blobs_round_trip(group.exprs, tail_values);
    lemma_scalars_round_trip(group.values, rest);
    assert(enc_group(group) + rest =~= enc_scalars(group.key) + tail_exprs);
}

pub proof fn lemma_window_round_trip(window: SavedWindowView, rest: Seq<u8>)
    requires
        window_fits(window),
    ensures
        parse_window(enc_window(window) + rest) == Some((window, rest)),
{
    let enc = |g: SavedGroupView| enc_group(g);
    let parse = |b: Seq<u8>| parse_group(b);
    let tail_groups = enc_groups(window.groups) + rest;
    let tail_end = enc_i64(window.end) + tail_groups;
    lemma_i64_round_trip(window.start, tail_end);
    lemma_i64_round_trip(window.end, tail_groups);
    assert forall|i: int, after: Seq<u8>| 0 <= i < window.groups.len() implies #[trigger] parse(
        enc(window.groups[i]) + after,
    ) == Some((window.groups[i], after)) by {
        lemma_group_round_trip(window.groups[i], after);
    }
    lemma_list_round_trip(window.groups, enc, parse, rest);
    assert(enc_window(window) + rest =~= enc_i64(window.start) + tail_end);
}

/// Decoding the bytes of a saved state gives the state back.
pub proof fn lemma_state_round_trip(state: SavedStateView)
    requires
        state_fits(state),
    ensures
        parse_state(enc_state(state)) == Some(state),
{
    let enc = |w: SavedWindowView| enc_window(w);
    let parse = |b: Seq<u8>| parse_window(b);
    let rest = Seq::<u8>::empty();
    lemma_blobs_round_trip(state.group_exprs, enc_windows(state.windows));
    assert forall|i: int, after: Seq<u8>| 0 <= i < state.windows.len() implies #[trigger] parse(
        enc(state.windows[i]) + after,
    ) == Some((state.windows[i], after)) by {
        lemma_window_round_trip(state.windows[i], after);
    }
    lemma_list_round_trip(state.windows, enc, parse, rest);
    assert(enc_windows(state.windows) + rest =~= enc_windows(state.windows));
}

fn put_group(out: &mut Vec<u8>, group: &SavedGroup)
    ensures
        final(out)@ == old(out)@ + enc_group(group@),
        group_fits(group@),
{
    put_scalars(out, &group.key);
    put_blobs(out, &group.exprs);
    put_scalars(out, &group.values);
    assert(out@ =~= old(out)@ + enc_group(group@));
}

fn put_window(out: &mut Vec<u8>, window: &SavedWindow)
    ensures
        final(out)@ == old(out)@ + enc_window(window@),
        window_fits(window@),
{
    let ghost groups = group_views(window.groups@);
    let ghost enc = |g: SavedGroupView| enc_group(g);
    put_i64(out, window.start);
    put_i64(out, window.end);
    put_u64(out, window.groups.len() as u64);
    let mut i: usize = 0;
    while i < window.groups.len()
        invariant
            i <= window.groups.len(),
            groups == group_views(window.groups@),
            enc == (|g: SavedGroupView| enc_group(g)),
            forall|j: int| 0 <= j < i ==> group_fits(#[trigger] groups[j]),
            out@ == old(out)@ + enc_i64(window.start) + enc_i64(window.end) + enc_u64(
                window.groups.len() as u64,
            ) + enc_seq(groups.take(i as int), enc),
        decreases window.groups.len() - i,
    {
        put_group(out, &window.groups[i]);
        proof {
            let next = groups.take(i + 1);
            assert(next.drop_last() =~= groups.take(i as int));
            assert(next.last() == window.groups[i as int]@);
            assert(enc_seq(next, enc) == enc_seq(groups.take(i as int), enc) + enc(next.last()));
        }
        i += 1;
    }
    assert(groups.take(i as int) =~= groups);
    assert(out@ =~= old(out)@ + enc_window(window@));
}

/// The bytes of a saved state.
pub fn encode_state(state: &SavedState) -> (bytes: Vec<u8>)
    ensures
        bytes@ == enc_state(state@),
        state_fits(state@),
{
    let ghost windows = saved_window_views(state.windows@);
    let ghost enc = |w: SavedWindowView| enc_window(w);
    let mut out: Vec<u8> = Vec::new();
    put_blobs(&mut out, &state.group_exprs);
    put_u64(&mut out, state.windows.len() as u64);
    let mut i: usize = 0;
    while i < state.windows.len()
        invariant
            i <= state.windows.len(),
            windows == saved_window_views(state.windows@),
            enc == (|w: SavedWindowView| enc_window(w)),
            forall|j: int| 0 <= j < i ==> window_fits(#[trigger] windows[j]),
            out@ == enc_blobs(blob_views(state.group_exprs@)) + enc_u64(state.windows.len() as u64)
                + enc_seq(windows.take(i as int), enc),
        decreases state.windows.len() - i,
    {
        put_window(&mut out, &state.windows[i]);
        proof {
            let next = windows.take(i + 1);
            assert(next.drop_last() =~= windows.take(i as int));
            assert(next.last() == state.windows[i as int]@);
            assert(enc_seq(next, enc) == enc_seq(windows.take(i as int), enc) + enc(next.last()));
        }
        i += 1;
    }
    assert(windows.take(i as int) =~= windows);
    assert(out@ =~= enc_state(state@));
    out
}

fn read_group(bytes: &[u8], pos: usize) -> (got: Option<(SavedGroup, usize)>)
    requires
        pos <= bytes@.len(),
    ensures
        match got {
            Some((group, next)) => reads(
                bytes@,
                pos,
                parse_group(bytes@.skip(pos as int)),
                Some((group@, next)),
            ),
            None => parse_group(bytes@.skip(pos as int)) is None,
        },
{
    let (key, after_key) = match read_scalars(bytes, pos) {
        Some(found) => found,
        None => {
            return None;
        },
    };
    let (exprs, after_exprs) = match read_blobs(bytes, after_key) {
        Some(found) => found,
        None => {
            return None;
        },
    };
    let (values, next) = match read_scalars(bytes, after_exprs) {
        Some(found) => found,
        None => {
            return None;
        },
    };
    Some((SavedGroup { key, exprs, values }, next))
}

fn read_window(bytes: &[u8], pos: usize) -> (got: Option<(SavedWindow, usize)>)
    requires
        pos <= bytes@.len(),
    ensures
        match got {
            Some((window, next)) => reads(
                bytes@,
                pos,
                parse_window(bytes@.skip(pos as int)),
                Some((window@, next)),
            ),
            None => parse_window(bytes@.skip(pos as int)) is None,
        },
{
    let ghost parse = |b: Seq<u8>| parse_group(b);
    let (start, after_start) = match read_i64(bytes, pos) {
        Some(found) => found,
        None => {
            return None;
        },
    };
    let (end, after_end) = match read_i64(bytes, after_start) {
        Some(found) => found,
        None => {
            return None;
        },
    };
    let (count, first) = match read_u64(bytes, after_end) {
        Some(found) => found,
        None => {
            return None;
        },
    };
    let ghost body = bytes@.skip(first as int);
    let mut groups: Vec<SavedGroup> = Vec::new();
    let mut at: usize = first;
    let mut i: u64 = 0;
    assert(group_views(groups@) =~= Seq::<SavedGroupView>::empty());
    while i < count
        invariant
            i <= count,
            first <= at <= bytes@.len(),
            body == bytes@.skip(first as int),
            parse_i64(bytes@.skip(pos as int)) == Some((start, bytes@.skip(after_start as int))),
            parse_i64(bytes@.skip(after_start as int)) == Some((end, bytes@.skip(after_end as int))),
            parse_u64(bytes@.skip(after_end as int)) == Some((count, body)),
            parse == (|b: Seq<u8>| parse_group(b)),
            parse_seq(body, i as nat, parse) == Some((group_views(groups@), bytes@.skip(at as int))),
        decreases count - i,
    {
        match read_group(bytes, at) {
            Some((group, next)) => {
                let ghost before = group_views(groups@);
                groups.push(group);
                assert(group_views(groups@) =~= before.push(group@));
                at = next;
            },
            None => {
                proof {
                    lemma_parse_seq_stops(body, i as nat, count as nat, parse);
                }
                return None;
            },
        }
        i += 1;
    }
    Some((SavedWindow { start, end, groups }, at))
}

/// The saved state that `bytes` are, where they are one and nothing
/// follows it.
pub fn decode_state(bytes: &[u8]) -> (state: Option<SavedState>)
    ensures
        match state {
            Some(s) => parse_state(bytes@) == Some(s@),
            None => parse_state(bytes@) is None,
        },
{
    let ghost parse = |b: Seq<u8>| parse_window(b);
    assert(bytes@.skip(0) =~= bytes@);
    let (group_exprs, after) = match read_blobs(bytes, 0) {
        Some(found) => found,
        None => {
            return None;
        },
    };
    let (count, first) = match read_u64(bytes, after) {
        Some(found) => found,
        None => {
            return None;
        },
    };
    let ghost body = bytes@.skip(first as int);
    let mut windows: Vec<SavedWindow> = Vec::new();
    let mut at: usize = first;
    let mut i: u64 = 0;
    assert(saved_window_views(windows@) =~= Seq::<SavedWindowView>::empty());
    while i < count
        invariant
            i <= count,
            first <= at <= bytes@.len(),
            body == bytes@.skip(first as int),
            parse_blobs(bytes@) == Some((blob_views(group_exprs@), bytes@.skip(after as int))),
            parse_u64(bytes@.skip(after as int)) == Some((count, body)),
            parse == (|b: Seq<u8>| parse_window(b)),
            parse_seq(body, i as nat, parse) == Some(
                (saved_window_views(windows@), bytes@.skip(at as int)),
            ),
        decreases count - i,
    {
        match read_window(bytes, at) {
            Some((window, next)) => {
                let ghost before = saved_window_views(windows@);
                windows.push(window);
                assert(saved_window_views(windows@) =~= before.push(window@));
                at = next;
            },
            None => {
                proof {
                    lemma_parse_seq_stops(body, i as nat, count as nat, parse);
                }
                return None;
            },
        }
        i += 1;
    }
    if at != bytes.len() {
        return None;
    }
    Some(SavedState { group_exprs, windows })
}

/// An encoding that is cut short is no encoding of a group.
pub proof fn lemma_group_cut(group: SavedGroupView, n: int)
    requires
        group_fits(group),
        0 <= n < enc_group(group).len(),
    ensures
        parse_group(enc_group(group).take(n)) is None,
{
    let key = enc_scalars(group.key);
    let exprs = enc_blobs(group.exprs);
    let values = enc_scalars(group.values);
    let cut = enc_group(group).take(n);
    if n < key.len() {
        lemma_scalars_cut(group.key, n);
        assert(cut =~= key.take(n));
    } else if n < key.len() + exprs.len() {
        let rest = exprs.take(n - key.len());
        lemma_scalars_round_trip(group.key, rest);
        lemma_blobs_cut(group.exprs, n - key.len());
        assert(cut =~= key + rest);
    } else {
        let rest = values.take(n - key.len() - exprs.len());
        lemma_scalars_round_trip(group.key, exprs + rest);
        lemma_blobs_round_trip(group.exprs, rest);
        lemma_scalars_cut(group.values, n - key.len() - exprs.len());
        assert(cut =~= key + (exprs + rest));
    }
}

/// An encoding that is cut short is no encoding of a window.
pub proof fn lemma_window_cut(window: SavedWindowView, n: int)
    requires
        window_fits(window),
        0 <= n < enc_window(window).len(),
    ensures
        parse_window(enc_window(window).take(n)) is None,
{
    let enc = |g: SavedGroupView| enc_group(g);
    let parse = |b: Seq<u8>| parse_group(b);
    let start = enc_i64(window.start);
    let end = enc_i64(window.end);
    let groups = enc_groups(window.groups);
    let cut = enc_window(window).take(n);
    lemma_u64_round_trip(i64_bits(window.start), Seq::empty());
    lemma_u64_round_trip(i64_bits(window.end), Seq::empty());
    if n < 8 {
        lemma_u64_cut(i64_bits(window.start), n);
        assert(cut =~= start.take(n));
    } else if n < 16 {
        let rest = end.take(n - 8);
        lemma_i64_round_trip(window.start, rest);
        lemma_u64_cut(i64_bits(window.end), n - 8);
        assert(cut =~= start + rest);
    } else {
        let rest = groups.take(n - 16);
        lemma_i64_round_trip(window.start, end + rest);
        lemma_i64_round_trip(window.end, rest);
        assert(cut =~= start + (end + rest));
        assert forall|i: int, after: Seq<u8>| 0 <= i < window.groups.len() implies #[trigger] parse(
            enc(window.groups[i]) + after,
        ) == Some((window.groups[i], after)) by {
            lemma_group_round_trip(window.groups[i], after);
        }
        assert forall|i: int, m: int|
            0 <= i < window.groups.len() && 0 <= m < enc(window.groups[i]).len() implies (
        #[trigger] parse(enc(window.groups[i]).take(m))) is None by {
            lemma_group_cut(window.groups[i], m);
        }
        lemma_list_cut(window.groups, enc, parse, n - 16);
    }
}

/// The bytes of a saved state, cut short, are no saved state.
pub proof fn lemma_state_cut(state: SavedStateView, n: int)
    requires
        state_fits(state),
        0 <= n < enc_state(state).len(),
    ensures
        parse_state(enc_state(state).take(n)) is None,
{
    let enc = |w: SavedWindowView| enc_window(w);
    let parse = |b: Seq<u8>| parse_window(b);
    let exprs = enc_blobs(state.group_exprs);
    let windows = enc_windows(state.windows);
    let cut = enc_state(state).take(n);
    if n < exprs.len() {
        lemma_blobs_cut(state.group_exprs, n);
        assert(cut =~= exprs.take(n));
    } else {
        let rest = windows.take(n - exprs.len());
        lemma_blobs_round_trip(state.group_exprs, rest);
        assert(cut =~= exprs + rest);
        assert forall|i: int, after: Seq<u8>| 0 <= i < state.windows.len() implies #[trigger] parse(
            enc(state.windows[i]) + after,
        ) == Some((state.windows[i], after)) by {
            lemma_window_round_trip(state.windows[i], after);
        }
        assert forall|i: int, m: int|
            0 <= i < state.windows.len() && 0 <= m < enc(state.windows[i]).len() implies (
        #[trigger] parse(enc(state.windows[i]).take(m))) is None by {
            lemma_window_cut(state.windows[i], m);
        }
        lemma_list_cut(state.windows, enc, parse, n - exprs.len());
    }
}

} // verus!
