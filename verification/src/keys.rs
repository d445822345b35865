//! Group keys and a table that numbers them in the order of their arrival.

use vstd::prelude::*;
use ahash::AHashMap;
use ahash::RandomState;
use crate::array::Scalar;
use crate::array::ScalarValue;
use crate::array::duplicate_scalars;
use crate::array::scalar_values;
use crate::codec::enc_scalars;
use crate::codec::lemma_scalars_round_trip;
use crate::codec::put_scalars;
use crate::codec::scalars_fit;

verus! {

/// An ordered tuple of scalars, one per grouping expression. Two keys are
/// the same group when their scalars are the same; null equals null.
pub type GroupedKey = Vec<Scalar>;

/// The hash map of the `ahash` crate.
#[verifier::external_type_specification]
#[verifier::external_body]
#[verifier::reject_recursive_types(K)]
#[verifier::reject_recursive_types(V)]
#[verifier::reject_recursive_types(S)]
pub struct ExAHashMap<K, V, S>(AHashMap<K, V, S>);

/// The hasher state of the `ahash` crate.
#[verifier::external_type_specification]
#[verifier::external_body]
pub struct ExRandomState(RandomState);

/// What a map from byte strings to numbers holds.
pub uninterp spec fn index_entries(index: AHashMap<Vec<u8>, usize>) -> Map<Seq<u8>, usize>;

/// `AHashMap::new`: a map that holds nothing.
#[verifier::external_body]
fn index_new() -> (index: AHashMap<Vec<u8>, usize>)
    ensures
        index_entries(index) =~= Map::empty(),
{
    AHashMap::new()
}

/// `AHashMap::get`: the number that the map holds for `key`, if it holds one.
#[verifier::external_body]
fn index_get(index: &AHashMap<Vec<u8>, usize>, key: &Vec<u8>) -> (found: Option<usize>)
    ensures
        found == (if index_entries(*index).contains_key(key@) {
            Some(index_entries(*index)[key@])
        } else {
            None
        }),
{
    index.get(key).copied()
}

/// `AHashMap::insert`: afterwards the map holds `value` for `key`, and for
/// every other key what it held before.
#[verifier::external_body]
fn index_insert(index: &mut AHashMap<Vec<u8>, usize>, key: Vec<u8>, value: usize)
    ensures
        index_entries(*final(index)) == index_entries(*old(index)).insert(key@, value),
{
    index.insert(key, value);
}

/// The views of a sequence of keys.
pub open spec fn key_views(keys: Seq<Vec<Scalar>>) -> Seq<Seq<ScalarValue>> {
    keys.map_values(|k: Vec<Scalar>| scalar_values(k@))
}

/// No key occurs twice.
pub open spec fn distinct(keys: Seq<Seq<ScalarValue>>) -> bool {
    forall|i: int, j: int| 0 <= i < j < keys.len() ==> #[trigger] keys[i] != #[trigger] keys[j]
}

/// Whether `key` is the key at `slot`.
pub open spec fn at_slot(keys: Seq<Seq<ScalarValue>>, key: Seq<ScalarValue>, slot: int) -> bool {
    0 <= slot < keys.len() && keys[slot] == key
}

/// The place of `key` among `keys`, if it is one of them.
pub open spec fn slot_of(keys: Seq<Seq<ScalarValue>>, key: Seq<ScalarValue>) -> Option<int> {
    if exists|slot: int| at_slot(keys, key, slot) {
        Some(choose|slot: int| at_slot(keys, key, slot))
    } else {
        None
    }
}

/// Among distinct keys a key has one place only.
pub proof fn lemma_slot_of(keys: Seq<Seq<ScalarValue>>, key: Seq<ScalarValue>, slot: int)
    requires
        distinct(keys),
        at_slot(keys, key, slot),
    ensures
        slot_of(keys, key) == Some(slot),
{
    let chosen = choose|slot: int| at_slot(keys, key, slot);
    if chosen < slot {
        assert(keys[chosen] != keys[slot]);
    } else if slot < chosen {
        assert(keys[slot] != keys[chosen]);
    }
}

/// Different keys have different encodings.
pub proof fn lemma_key_encoding_injective(a: Seq<ScalarValue>, b: Seq<ScalarValue>)
    requires
        scalars_fit(a),
        scalars_fit(b),
        enc_scalars(a) == enc_scalars(b),
    ensures
        a == b,
{
    lemma_scalars_round_trip(a, Seq::empty());
    lemma_scalars_round_trip(b, Seq::empty());
}

/// The keys seen so far, numbered from zero in the order of their arrival.
pub struct KeyTable {
    keys: Vec<Vec<Scalar>>,
    index: AHashMap<Vec<u8>, usize>,
}

impl View for KeyTable {
    type V = Seq<Seq<ScalarValue>>;

    closed spec fn view(&self) -> Seq<Seq<ScalarValue>> {
        key_views(self.keys@)
    }
}

impl KeyTable {
    /// The keys are distinct, and the index holds for the encoding of each
    /// key its number, and nothing else.
    pub closed spec fn wf(&self) -> bool {
        &&& distinct(self@)
        &&& forall|i: int| 0 <= i < self@.len() ==> scalars_fit(#[trigger] self@[i])
        &&& forall|i: int|
            0 <= i < self@.len() ==> index_entries(self.index).contains_key(
                #[trigger] enc_scalars(self@[i]),
            ) && index_entries(self.index)[enc_scalars(self@[i])] == i
        &&& forall|bytes: Seq<u8>| #[trigger]
            index_entries(self.index).contains_key(bytes) ==> index_entries(self.index)[bytes]
                < self@.len() && enc_scalars(self@[index_entries(self.index)[bytes] as int])
                == bytes
    }

    /// What holds of the keys of every well-formed table.
    pub proof fn lemma_distinct(&self)
        requires
            self.wf(),
        ensures
            distinct(self@),
    {
    }

    pub fn new() -> (table: KeyTable)
        ensures
            table.wf(),
            table@ == Seq::<Seq<ScalarValue>>::empty(),
    {
        let table = KeyTable { keys: Vec::new(), index: index_new() };
        assert(table@ =~= Seq::<Seq<ScalarValue>>::empty());
        table
    }

    pub fn len(&self) -> (n: usize)
        ensures
            n == self@.len(),
    {
        self.keys.len()
    }

    /// The key with number `slot`.
    pub fn key(&self, slot: usize) -> (key: &Vec<Scalar>)
        requires
            slot < self@.len(),
        ensures
            scalar_values(key@) == self@[slot as int],
    {
        &self.keys[slot]
    }

    /// The number of `key`, if it was seen before.
    pub fn find(&self, key: &Vec<Scalar>) -> (slot: Option<usize>)
        requires
            self.wf(),
        ensures
            match slot {
                Some(s) => slot_of(self@, scalar_values(key@)) == Some(s as int) && s < self@.len(),
                None => slot_of(self@, scalar_values(key@)) is None,
            },
    {
        let mut bytes: Vec<u8> = Vec::new();
        put_scalars(&mut bytes, key);
        assert(bytes@ =~= enc_scalars(scalar_values(key@)));
        let found = index_get(&self.index, &bytes);
        proof {
            let wanted = scalar_values(key@);
            match found {
                Some(s) => {
                    lemma_key_encoding_injective(self@[s as int], wanted);
                    lemma_slot_of(self@, wanted, s as int);
                },
                None => {
                    if exists|slot: int| at_slot(self@, wanted, slot) {
                        let slot = choose|slot: int| at_slot(self@, wanted, slot);
                        assert(index_entries(self.index).contains_key(enc_scalars(self@[slot])));
                    }
                },
            }
        }
        found
    }

    /// Gives `key`, which was not seen before, the next number.
    pub fn insert(&mut self, key: &Vec<Scalar>) -> (slot: usize)
        requires
            old(self).wf(),
            slot_of(old(self)@, scalar_values(key@)) is None,
        ensures
            final(self).wf(),
            slot == old(self)@.len(),
            final(self)@ == old(self)@.push(scalar_values(key@)),
    {
        let ghost wanted = scalar_values(key@);
        let ghost before = self@;
        let ghost entries = index_entries(self.index);
        let slot = self.keys.len();
        let mut bytes: Vec<u8> = Vec::new();
        put_scalars(&mut bytes, key);
        assert(bytes@ =~= enc_scalars(wanted));
        let copy = duplicate_scalars(key);
        self.keys.push(copy);
        index_insert(&mut self.index, bytes, slot);
        proof {
            assert(self@ =~= before.push(wanted));
            assert forall|i: int, j: int| 0 <= i < j < self@.len() implies #[trigger] self@[i]
                != #[trigger] self@[j] by {
                if j == before.len() {
                    if self@[i] == wanted {
                        assert(at_slot(before, wanted, i));
                    }
                } else {
                    assert(before[i] != before[j]);
                }
            }
            assert forall|i: int| 0 <= i < self@.len() implies index_entries(
                self.index,
            ).contains_key(#[trigger] enc_scalars(self@[i])) && index_entries(
                self.index,
            )[enc_scalars(self@[i])] == i by {
                if i < before.len() {
                    assert(entries.contains_key(enc_scalars(before[i])));
                    if enc_scalars(before[i]) == enc_scalars(wanted) {
                        lemma_key_encoding_injective(before[i], wanted);
                        assert(at_slot(before, wanted, i));
                    }
                }
            }
            assert forall|bytes: Seq<u8>| #[trigger]
                index_entries(self.index).contains_key(bytes) implies index_entries(
                self.index,
            )[bytes] < self@.len() && enc_scalars(
                self@[index_entries(self.index)[bytes] as int],
            ) == bytes by {
                if bytes != enc_scalars(wanted) {
                    assert(entries.contains_key(bytes));
                }
            }
        }
        slot
    }
}

} // verus!
