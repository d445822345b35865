//! Typed columnar storage: data types, scalars, arrays and their builders.

use vstd::prelude::*;
use vstd::utf8::*;
use vstd::slice::slice_subrange;
use vstd::slice::slice_to_vec;

verus! {

/// Resolution of the integer stored in a timestamp column.
#[derive(Clone, Copy, Debug, PartialEq, Eq, Hash, Structural)]
pub enum TimeUnit {
    Second,
    Millisecond,
    Microsecond,
    Nanosecond,
}

/// The type of every cell of one column.
#[derive(Clone, Copy, Debug, PartialEq, Eq, Hash, Structural)]
pub enum DataType {
    Null,
    Int8,
    Int16,
    Int32,
    Int64,
    Float32,
    Float64,
    Boolean,
    Timestamp(TimeUnit),
    String,
}

/// The value of one cell.
///
/// A floating-point cell is held as its IEEE 754 bit pattern, so that two
/// cells are the same value exactly when their bits agree.
#[derive(Clone, Debug, PartialEq, Eq, Hash)]
pub enum Scalar {
    Null,
    Int8(i8),
    Int16(i16),
    Int32(i32),
    Int64(i64),
    Float32(u32),
    Float64(u64),
    Boolean(bool),
    Timestamp(i64),
    String(String),
}

/// The mathematical value of a [`Scalar`]: a string is its sequence of characters.
pub enum ScalarValue {
    Null,
    Int8(i8),
    Int16(i16),
    Int32(i32),
    Int64(i64),
    Float32(u32),
    Float64(u64),
    Boolean(bool),
    Timestamp(i64),
    String(Seq<char>),
}

impl ScalarValue {
    /// Whether a cell of a column of type `data_type` may hold this value
    /// without being null.
    pub open spec fn has_type(self, data_type: DataType) -> bool {
        match self {
            ScalarValue::Null => false,
            ScalarValue::Int8(_) => data_type == DataType::Int8,
            ScalarValue::Int16(_) => data_type == DataType::Int16,
            ScalarValue::Int32(_) => data_type == DataType::Int32,
            ScalarValue::Int64(_) => data_type == DataType::Int64,
            ScalarValue::Float32(_) => data_type == DataType::Float32,
            ScalarValue::Float64(_) => data_type == DataType::Float64,
            ScalarValue::Boolean(_) => data_type == DataType::Boolean,
            ScalarValue::Timestamp(_) => data_type is Timestamp,
            ScalarValue::String(_) => data_type == DataType::String,
        }
    }

    /// What a column of type `data_type` stores for this value: the value
    /// itself where it has that type, null otherwise.
    pub open spec fn coerce(self, data_type: DataType) -> ScalarValue {
        if self.has_type(data_type) {
            self
        } else {
            ScalarValue::Null
        }
    }
}

impl View for Scalar {
    type V = ScalarValue;

    open spec fn view(&self) -> ScalarValue {
        match *self {
            Scalar::Null => ScalarValue::Null,
            Scalar::Int8(v) => ScalarValue::Int8(v),
            Scalar::Int16(v) => ScalarValue::Int16(v),
            Scalar::Int32(v) => ScalarValue::Int32(v),
            Scalar::Int64(v) => ScalarValue::Int64(v),
            Scalar::Float32(v) => ScalarValue::Float32(v),
            Scalar::Float64(v) => ScalarValue::Float64(v),
            Scalar::Boolean(v) => ScalarValue::Boolean(v),
            Scalar::Timestamp(v) => ScalarValue::Timestamp(v),
            Scalar::String(v) => ScalarValue::String(v@),
        }
    }
}

impl Scalar {
    /// A copy of this scalar.
    pub fn duplicate(&self) -> (copy: Scalar)
        ensures
            copy@ == self@,
    {
        match self {
            Scalar::Null => Scalar::Null,
            Scalar::Int8(v) => Scalar::Int8(*v),
            Scalar::Int16(v) => Scalar::Int16(*v),
            Scalar::Int32(v) => Scalar::Int32(*v),
            Scalar::Int64(v) => Scalar::Int64(*v),
            Scalar::Float32(v) => Scalar::Float32(*v),
            Scalar::Float64(v) => Scalar::Float64(*v),
            Scalar::Boolean(v) => Scalar::Boolean(*v),
            Scalar::Timestamp(v) => Scalar::Timestamp(*v),
            Scalar::String(v) => Scalar::String(v.clone()),
        }
    }

    /// Whether two scalars are the same value; null equals null.
    pub fn same(&self, other: &Scalar) -> (equal: bool)
        ensures
            equal == (self@ == other@),
    {
        match (self, other) {
            (Scalar::Null, Scalar::Null) => true,
            (Scalar::Int8(a), Scalar::Int8(b)) => *a == *b,
            (Scalar::Int16(a), Scalar::Int16(b)) => *a == *b,
            (Scalar::Int32(a), Scalar::Int32(b)) => *a == *b,
            (Scalar::Int64(a), Scalar::Int64(b)) => *a == *b,
            (Scalar::Float32(a), Scalar::Float32(b)) => *a == *b,
            (Scalar::Float64(a), Scalar::Float64(b)) => *a == *b,
            (Scalar::Boolean(a), Scalar::Boolean(b)) => *a == *b,
            (Scalar::Timestamp(a), Scalar::Timestamp(b)) => *a == *b,
            (Scalar::String(a), Scalar::String(b)) => {
                let equal = *a == *b;
                assert(equal == (a@ == b@));
                equal
            },
            _ => false,
        }
    }

    pub fn is_null(&self) -> (null: bool)
        ensures
            null == (self@ is Null),
    {
        match self {
            Scalar::Null => true,
            _ => false,
        }
    }
}

/// The views of a sequence of scalars.
pub open spec fn scalar_values(scalars: Seq<Scalar>) -> Seq<ScalarValue> {
    scalars.map_values(|s: Scalar| s@)
}

/// A copy of a row of scalars.
pub fn duplicate_scalars(scalars: &Vec<Scalar>) -> (copy: Vec<Scalar>)
    ensures
        scalar_values(copy@) == scalar_values(scalars@),
{
    let mut copy: Vec<Scalar> = Vec::with_capacity(scalars.len());
    let mut i: usize = 0;
    while i < scalars.len()
        invariant
            i <= scalars.len(),
            copy.len() == i,
            forall|j: int| 0 <= j < i ==> copy[j]@ == scalars[j]@,
        decreases scalars.len() - i,
    {
        copy.push(scalars[i].duplicate());
        i += 1;
    }
    assert(scalar_values(copy@) =~= scalar_values(scalars@));
    copy
}

/// A fixed-width element that a primitive column stores.
pub trait Native: Copy + Sized {
    /// Whether columns of type `kind` store elements of this type.
    spec fn stores(kind: DataType) -> bool;

    /// The scalar that this element is in a column of type `kind`.
    spec fn wrap(self, kind: DataType) -> ScalarValue;

    /// The element that a column of type `kind` stores for `value`, or
    /// nothing where `value` has not that type.
    spec fn pick_spec(value: ScalarValue, kind: DataType) -> Option<Self>;

    /// A column keeps exactly the scalars of its type, unchanged.
    proof fn lemma_pick(value: ScalarValue, kind: DataType)
        requires
            Self::stores(kind),
        ensures
            match Self::pick_spec(value, kind) {
                Some(v) => value.has_type(kind) && v.wrap(kind) == value,
                None => !value.has_type(kind),
            },
    ;

    /// An element of a column is a scalar of the column's type.
    proof fn lemma_wrap(self, kind: DataType)
        requires
            Self::stores(kind),
        ensures
            self.wrap(kind).has_type(kind),
    ;

    /// The element that fills the buffer slot of a null cell: zero, and
    /// `false` for a boolean.
    spec fn filler_value() -> Self;

    /// The element that fills the buffer slot of a null cell.
    fn filler() -> (filler: Self)
        ensures
            filler == Self::filler_value(),
    ;

    fn pick(scalar: &Scalar, kind: DataType) -> (picked: Option<Self>)
        ensures
            picked == Self::pick_spec(scalar@, kind),
    ;

    fn to_scalar(self, kind: DataType) -> (scalar: Scalar)
        requires
            Self::stores(kind),
        ensures
            scalar@ == self.wrap(kind),
    ;
}

impl Native for i8 {
    open spec fn stores(kind: DataType) -> bool {
        kind == DataType::Int8
    }

    open spec fn wrap(self, kind: DataType) -> ScalarValue {
        ScalarValue::Int8(self)
    }

    open spec fn pick_spec(value: ScalarValue, kind: DataType) -> Option<Self> {
        match value {
            ScalarValue::Int8(v) if kind == DataType::Int8 => Some(v),
            _ => None,
        }
    }

    proof fn lemma_pick(value: ScalarValue, kind: DataType) {
    }

    proof fn lemma_wrap(self, kind: DataType) {
    }

    open spec fn filler_value() -> Self {
        0
    }

    fn filler() -> (filler: Self) {
        0
    }

    fn pick(scalar: &Scalar, kind: DataType) -> (picked: Option<Self>) {
        match scalar {
            Scalar::Int8(v) if kind == DataType::Int8 => Some(*v),
            _ => None,
        }
    }

    fn to_scalar(self, kind: DataType) -> (scalar: Scalar) {
        Scalar::Int8(self)
    }
}

impl Native for i16 {
    open spec fn stores(kind: DataType) -> bool {
        kind == DataType::Int16
    }

    open spec fn wrap(self, kind: DataType) -> ScalarValue {
        ScalarValue::Int16(self)
    }

    open spec fn pick_spec(value: ScalarValue, kind: DataType) -> Option<Self> {
        match value {
            ScalarValue::Int16(v) if kind == DataType::Int16 => Some(v),
            _ => None,
        }
    }

    proof fn lemma_pick(value: ScalarValue, kind: DataType) {
    }

    proof fn lemma_wrap(self, kind: DataType) {
    }

    open spec fn filler_value() -> Self {
        0
    }

    fn filler() -> (filler: Self) {
        0
    }

    fn pick(scalar: &Scalar, kind: DataType) -> (picked: Option<Self>) {
        match scalar {
            Scalar::Int16(v) if kind == DataType::Int16 => Some(*v),
            _ => None,
        }
    }

    fn to_scalar(self, kind: DataType) -> (scalar: Scalar) {
        Scalar::Int16(self)
    }
}

impl Native for i32 {
    open spec fn stores(kind: DataType) -> bool {
        kind == DataType::Int32
    }

    open spec fn wrap(self, kind: DataType) -> ScalarValue {
        ScalarValue::Int32(self)
    }

    open spec fn pick_spec(value: ScalarValue, kind: DataType) -> Option<Self> {
        match value {
            ScalarValue::Int32(v) if kind == DataType::Int32 => Some(v),
            _ => None,
        }
    }

    proof fn lemma_pick(value: ScalarValue, kind: DataType) {
    }

    proof fn lemma_wrap(self, kind: DataType) {
    }

    open spec fn filler_value() -> Self {
        0
    }

    fn filler() -> (filler: Self) {
        0
    }

    fn pick(scalar: &Scalar, kind: DataType) -> (picked: Option<Self>) {
        match scalar {
            Scalar::Int32(v) if kind == DataType::Int32 => Some(*v),
            _ => None,
        }
    }

    fn to_scalar(self, kind: DataType) -> (scalar: Scalar) {
        Scalar::Int32(self)
    }
}

impl Native for u32 {
    open spec fn stores(kind: DataType) -> bool {
        kind == DataType::Float32
    }

    open spec fn wrap(self, kind: DataType) -> ScalarValue {
        ScalarValue::Float32(self)
    }

    open spec fn pick_spec(value: ScalarValue, kind: DataType) -> Option<Self> {
        match value {
            ScalarValue::Float32(v) if kind == DataType::Float32 => Some(v),
            _ => None,
        }
    }

    proof fn lemma_pick(value: ScalarValue, kind: DataType) {
    }

    proof fn lemma_wrap(self, kind: DataType) {
    }

    open spec fn filler_value() -> Self {
        0
    }

    fn filler() -> (filler: Self) {
        0
    }

    fn pick(scalar: &Scalar, kind: DataType) -> (picked: Option<Self>) {
        match scalar {
            Scalar::Float32(v) if kind == DataType::Float32 => Some(*v),
            _ => None,
        }
    }

    fn to_scalar(self, kind: DataType) -> (scalar: Scalar) {
        Scalar::Float32(self)
    }
}

impl Native for u64 {
    open spec fn stores(kind: DataType) -> bool {
        kind == DataType::Float64
    }

    open spec fn wrap(self, kind: DataType) -> ScalarValue {
        ScalarValue::Float64(self)
    }

    open spec fn pick_spec(value: ScalarValue, kind: DataType) -> Option<Self> {
        match value {
            ScalarValue::Float64(v) if kind == DataType::Float64 => Some(v),
            _ => None,
        }
    }

    proof fn lemma_pick(value: ScalarValue, kind: DataType) {
    }

    proof fn lemma_wrap(self, kind: DataType) {
    }

    open spec fn filler_value() -> Self {
        0
    }

    fn filler() -> (filler: Self) {
        0
    }

    fn pick(scalar: &Scalar, kind: DataType) -> (picked: Option<Self>) {
        match scalar {
            Scalar::Float64(v) if kind == DataType::Float64 => Some(*v),
            _ => None,
        }
    }

    fn to_scalar(self, kind: DataType) -> (scalar: Scalar) {
        Scalar::Float64(self)
    }
}

impl Native for bool {
    open spec fn stores(kind: DataType) -> bool {
        kind == DataType::Boolean
    }

    open spec fn wrap(self, kind: DataType) -> ScalarValue {
        ScalarValue::Boolean(self)
    }

    open spec fn pick_spec(value: ScalarValue, kind: DataType) -> Option<Self> {
        match value {
            ScalarValue::Boolean(v) if kind == DataType::Boolean => Some(v),
            _ => None,
        }
    }

    proof fn lemma_pick(value: ScalarValue, kind: DataType) {
    }

    proof fn lemma_wrap(self, kind: DataType) {
    }

    open spec fn filler_value() -> Self {
        false
    }

    fn filler() -> (filler: Self) {
        false
    }

    fn pick(scalar: &Scalar, kind: DataType) -> (picked: Option<Self>) {
        match scalar {
            Scalar::Boolean(v) if kind == DataType::Boolean => Some(*v),
            _ => None,
        }
    }

    fn to_scalar(self, kind: DataType) -> (scalar: Scalar) {
        Scalar::Boolean(self)
    }
}

impl Native for i64 {
    open spec fn stores(kind: DataType) -> bool {
        kind == DataType::Int64 || kind is Timestamp
    }

    open spec fn wrap(self, kind: DataType) -> ScalarValue {
        if kind is Timestamp {
            ScalarValue::Timestamp(self)
        } else {
            ScalarValue::Int64(self)
        }
    }

    open spec fn pick_spec(value: ScalarValue, kind: DataType) -> Option<Self> {
        match value {
            ScalarValue::Int64(v) if kind == DataType::Int64 => Some(v),
            ScalarValue::Timestamp(v) if kind is Timestamp => Some(v),
            _ => None,
        }
    }

    proof fn lemma_pick(value: ScalarValue, kind: DataType) {
    }

    proof fn lemma_wrap(self, kind: DataType) {
    }

    open spec fn filler_value() -> Self {
        0
    }

    fn filler() -> (filler: Self) {
        0
    }

    fn pick(scalar: &Scalar, kind: DataType) -> (picked: Option<Self>) {
        match scalar {
            Scalar::Int64(v) if kind == DataType::Int64 => Some(*v),
            Scalar::Timestamp(v) if matches!(kind, DataType::Timestamp(_)) => Some(*v),
            _ => None,
        }
    }

    fn to_scalar(self, kind: DataType) -> (scalar: Scalar) {
        if matches!(kind, DataType::Timestamp(_)) {
            Scalar::Timestamp(self)
        } else {
            Scalar::Int64(self)
        }
    }
}

/// The cells that a buffer and a null bitmap of the same length stand for.
pub open spec fn masked<T>(values: Seq<T>, validity: Seq<bool>) -> Seq<Option<T>> {
    Seq::new(
        validity.len(),
        |i: int|
            if validity[i] {
                Some(values[i])
            } else {
                None
            },
    )
}

/// A column of fixed-width elements: a contiguous buffer and a null bitmap.
#[derive(Debug)]
pub struct PrimitiveArray<T> {
    values: Vec<T>,
    validity: Vec<bool>,
}

impl<T: Copy> PrimitiveArray<T> {
    /// The buffer and the bitmap have one slot per cell.
    pub closed spec fn wf(&self) -> bool {
        self.values@.len() == self.validity@.len()
    }

    /// The cells of the column, `None` for a null cell.
    pub closed spec fn cells(&self) -> Seq<Option<T>> {
        masked(self.values@, self.validity@)
    }

    pub fn len(&self) -> (n: usize)
        requires
            self.wf(),
        ensures
            n == self.cells().len(),
    {
        self.validity.len()
    }

    /// The cell at `index`.
    pub fn get(&self, index: usize) -> (cell: Option<T>)
        requires
            self.wf(),
            index < self.cells().len(),
        ensures
            cell == self.cells()[index as int],
    {
        if self.validity[index] {
            Some(self.values[index])
        } else {
            None
        }
    }
}

/// Write-only accumulator of a primitive column.
pub struct PrimitiveBuilder<T> {
    values: Vec<T>,
    validity: Vec<bool>,
}

impl<T: Native> PrimitiveBuilder<T> {
    pub closed spec fn wf(&self) -> bool {
        self.values@.len() == self.validity@.len()
    }

    /// The cells appended so far.
    pub closed spec fn cells(&self) -> Seq<Option<T>> {
        masked(self.values@, self.validity@)
    }

    pub fn new() -> (builder: Self)
        ensures
            builder.wf(),
            builder.cells() == Seq::<Option<T>>::empty(),
    {
        let builder = PrimitiveBuilder { values: Vec::new(), validity: Vec::new() };
        assert(builder.cells() =~= Seq::<Option<T>>::empty());
        builder
    }

    pub fn with_capacity(capacity: usize) -> (builder: Self)
        ensures
            builder.wf(),
            builder.cells() == Seq::<Option<T>>::empty(),
    {
        let builder = PrimitiveBuilder {
            values: Vec::with_capacity(capacity),
            validity: Vec::with_capacity(capacity),
        };
        assert(builder.cells() =~= Seq::<Option<T>>::empty());
        builder
    }

    pub fn append(&mut self, value: T)
        requires
            old(self).wf(),
        ensures
            final(self).wf(),
            final(self).cells() == old(self).cells().push(Some(value)),
    {
        self.values.push(value);
        self.validity.push(true);
        assert(self.cells() =~= old(self).cells().push(Some(value)));
    }

    pub fn append_null(&mut self)
        requires
            old(self).wf(),
        ensures
            final(self).wf(),
            final(self).cells() == old(self).cells().push(None),
    {
        self.values.push(T::filler());
        self.validity.push(false);
        assert(self.cells() =~= old(self).cells().push(None));
    }

    pub fn append_opt(&mut self, value: Option<T>)
        requires
            old(self).wf(),
        ensures
            final(self).wf(),
            final(self).cells() == old(self).cells().push(value),
    {
        match value {
            Some(v) => self.append(v),
            None => self.append_null(),
        }
    }

    /// Appends every cell of `items`, in order.
    pub fn append_all(&mut self, items: &Vec<Option<T>>)
        requires
            old(self).wf(),
        ensures
            final(self).wf(),
            final(self).cells() == old(self).cells() + items@,
    {
        let mut i: usize = 0;
        while i < items.len()
            invariant
                i <= items.len(),
                self.wf(),
                self.cells() == old(self).cells() + items@.take(i as int),
            decreases items.len() - i,
        {
            self.append_opt(items[i]);
            assert(self.cells() =~= old(self).cells() + items@.take(i + 1));
            i += 1;
        }
        assert(items@.take(i as int) =~= items@);
    }

    /// Ends the accumulation; the column holds the appended cells in order.
    pub fn finish(self) -> (array: PrimitiveArray<T>)
        requires
            self.wf(),
        ensures
            array.wf(),
            array.cells() == self.cells(),
    {
        PrimitiveArray { values: self.values, validity: self.validity }
    }
}

/// Every cell that was appended to a builder is the cell at the same place
/// of the finished column: for a fresh builder `empty`, the builder `filled`
/// that `append_all` made of it with `items`, and the column `array` that
/// `finish` made of `filled`, cell `i` of `array` is `items[i]`.
pub proof fn lemma_builder_keeps_cells<T: Native>(
    empty: PrimitiveBuilder<T>,
    items: Seq<Option<T>>,
    filled: PrimitiveBuilder<T>,
    array: PrimitiveArray<T>,
    i: int,
)
    requires
        empty.cells() == Seq::<Option<T>>::empty(),
        filled.cells() == empty.cells() + items,
        array.cells() == filled.cells(),
        0 <= i < items.len(),
    ensures
        array.cells().len() == items.len(),
        array.cells()[i] == items[i],
{
}

/// std's `String::from_utf8`: the string whose UTF-8 encoding is `bytes`,
/// or nothing where `bytes` is no UTF-8 encoding.
#[verifier::external_body]
pub(crate) fn string_from_utf8(bytes: Vec<u8>) -> (text: Option<String>)
    ensures
        text is Some <==> valid_utf8(bytes@),
        text matches Some(s) ==> s@ == decode_utf8(bytes@),
{
    String::from_utf8(bytes).ok()
}

/// A column of strings: an offsets vector, a byte buffer and a null bitmap.
///
/// Cell `i` is the UTF-8 text held in the buffer from `offsets[i]` up to
/// `offsets[i + 1]`.
#[derive(Debug)]
pub struct StringArray {
    offsets: Vec<usize>,
    data: Vec<u8>,
    validity: Vec<bool>,
}

/// The well-formedness of an offsets vector over a byte buffer.
pub open spec fn offsets_wf(offsets: Seq<usize>, data: Seq<u8>, cells: nat) -> bool {
    &&& offsets.len() == cells + 1
    &&& offsets[0] == 0
    &&& offsets[cells as int] == data.len()
    &&& forall|i: int| 0 <= i < cells ==> offsets[i] <= #[trigger] offsets[i + 1]
    &&& forall|i: int|
        0 <= i < cells ==> valid_utf8(
            #[trigger] data.subrange(offsets[i] as int, offsets[i + 1] as int),
        )
}

/// The cells that an offsets vector, a byte buffer and a null bitmap stand for.
pub open spec fn string_cells(offsets: Seq<usize>, data: Seq<u8>, validity: Seq<bool>) -> Seq<
    Option<Seq<char>>,
> {
    Seq::new(
        validity.len(),
        |i: int|
            if validity[i] {
                Some(decode_utf8(data.subrange(offsets[i] as int, offsets[i + 1] as int)))
            } else {
                None
            },
    )
}

proof fn lemma_offsets_bounded(offsets: Seq<usize>, data: Seq<u8>, cells: nat, i: int)
    requires
        offsets_wf(offsets, data, cells),
        0 <= i <= cells,
    ensures
        offsets[i] <= data.len(),
    decreases cells - i,
{
    if i < cells {
        lemma_offsets_bounded(offsets, data, cells, i + 1);
        assert(offsets[i] <= offsets[i + 1]);
    }
}

impl StringArray {
    pub closed spec fn wf(&self) -> bool {
        offsets_wf(self.offsets@, self.data@, self.validity@.len())
    }

    /// The cells of the column, `None` for a null cell.
    pub closed spec fn cells(&self) -> Seq<Option<Seq<char>>> {
        string_cells(self.offsets@, self.data@, self.validity@)
    }

    pub fn len(&self) -> (n: usize)
        requires
            self.wf(),
        ensures
            n == self.cells().len(),
    {
        self.validity.len()
    }

    /// The cell at `index`.
    pub fn get(&self, index: usize) -> (cell: Option<String>)
        requires
            self.wf(),
            index < self.cells().len(),
        ensures
            cell is Some <==> self.cells()[index as int] is Some,
            cell matches Some(s) ==> Some(s@) == self.cells()[index as int],
    {
        if self.validity[index] {
            proof {
                lemma_offsets_bounded(
                    self.offsets@,
                    self.data@,
                    self.validity@.len(),
                    index as int + 1,
                );
                assert(self.offsets@[index as int] <= self.offsets@[index as int + 1]);
            }
            assert(self.offsets@.len() == self.validity@.len() + 1);
            assert(index + 1 < self.offsets.len());
            let from = self.offsets[index];
            let to = self.offsets[index + 1];
            let bytes = slice_to_vec(slice_subrange(self.data.as_slice(), from, to));
            string_from_utf8(bytes)
        } else {
            None
        }
    }
}

/// Write-only accumulator of a string column.
pub struct StringBuilder {
    offsets: Vec<usize>,
    data: Vec<u8>,
    validity: Vec<bool>,
}

impl StringBuilder {
    pub closed spec fn wf(&self) -> bool {
        offsets_wf(self.offsets@, self.data@, self.validity@.len())
    }

    /// The cells appended so far.
    pub closed spec fn cells(&self) -> Seq<Option<Seq<char>>> {
        string_cells(self.offsets@, self.data@, self.validity@)
    }

    pub fn new() -> (builder: Self)
        ensures
            builder.wf(),
            builder.cells() == Seq::<Option<Seq<char>>>::empty(),
    {
        let mut offsets: Vec<usize> = Vec::new();
        offsets.push(0);
        let builder = StringBuilder { offsets, data: Vec::new(), validity: Vec::new() };
        assert(builder.cells() =~= Seq::<Option<Seq<char>>>::empty());
        builder
    }

    pub fn with_capacity(capacity: usize) -> (builder: Self)
        ensures
            builder.wf(),
            builder.cells() == Seq::<Option<Seq<char>>>::empty(),
    {
        let mut offsets: Vec<usize> = Vec::new();
        offsets.push(0);
        let builder = StringBuilder {
            offsets,
            data: Vec::new(),
            validity: Vec::with_capacity(capacity),
        };
        assert(builder.cells() =~= Seq::<Option<Seq<char>>>::empty());
        builder
    }

    pub fn append(&mut self, value: &str)
        requires
            old(self).wf(),
        ensures
            final(self).wf(),
            final(self).cells() == old(self).cells().push(Some(value@)),
    {
        let bytes = value.as_bytes();
        let ghost cells = self.validity@.len();
        let ghost old_offsets = self.offsets@;
        let ghost old_data = self.data@;
        self.data.extend_from_slice(bytes);
        assert(self.data@ =~= old_data + bytes@);
        self.offsets.push(self.data.len());
        self.validity.push(true);
        proof {
            broadcast use encode_utf8_valid_utf8, encode_utf8_decode_utf8;

            assert(self.data@.subrange(old_data.len() as int, self.data@.len() as int)
                =~= bytes@);
            assert forall|i: int| 0 <= i < cells implies #[trigger] self.data@.subrange(
                self.offsets@[i] as int,
                self.offsets@[i + 1] as int,
            ) == old_data.subrange(old_offsets[i] as int, old_offsets[i + 1] as int) by {
                lemma_offsets_bounded(old_offsets, old_data, cells, i + 1);
                assert(old_offsets[i] <= old_offsets[i + 1]);
                assert(self.data@.subrange(self.offsets@[i] as int, self.offsets@[i + 1] as int)
                    =~= old_data.subrange(old_offsets[i] as int, old_offsets[i + 1] as int));
            }
            assert(self.wf());
            assert(self.cells() =~= old(self).cells().push(Some(value@)));
        }
    }

    pub fn append_null(&mut self)
        requires
            old(self).wf(),
        ensures
            final(self).wf(),
            final(self).cells() == old(self).cells().push(None),
    {
        let ghost cells = self.validity@.len();
        let ghost old_offsets = self.offsets@;
        self.offsets.push(self.data.len());
        self.validity.push(false);
        proof {
            assert(self.data@.subrange(self.data@.len() as int, self.data@.len() as int)
                =~= Seq::<u8>::empty());
            assert forall|i: int| 0 <= i < cells implies #[trigger] self.data@.subrange(
                self.offsets@[i] as int,
                self.offsets@[i + 1] as int,
            ) == self.data@.subrange(old_offsets[i] as int, old_offsets[i + 1] as int) by {}
            assert(self.wf());
            assert(self.cells() =~= old(self).cells().push(None));
        }
    }

    pub fn append_opt(&mut self, value: Option<&str>)
        requires
            old(self).wf(),
        ensures
            final(self).wf(),
            final(self).cells() == old(self).cells().push(
                match value {
                    Some(s) => Some(s@),
                    None => None,
                },
            ),
    {
        match value {
            Some(s) => self.append(s),
            None => self.append_null(),
        }
    }

    /// Ends the accumulation; the column holds the appended cells in order.
    pub fn finish(self) -> (array: StringArray)
        requires
            self.wf(),
        ensures
            array.wf(),
            array.cells() == self.cells(),
    {
        StringArray { offsets: self.offsets, data: self.data, validity: self.validity }
    }
}

/// The scalars that the cells of a primitive column of type `kind` are.
pub open spec fn lift<T: Native>(cells: Seq<Option<T>>, kind: DataType) -> Seq<ScalarValue> {
    Seq::new(
        cells.len(),
        |i: int|
            match cells[i] {
                Some(v) => v.wrap(kind),
                None => ScalarValue::Null,
            },
    )
}

/// The scalars that the cells of a string column are.
pub open spec fn lift_strings(cells: Seq<Option<Seq<char>>>) -> Seq<ScalarValue> {
    Seq::new(
        cells.len(),
        |i: int|
            match cells[i] {
                Some(v) => ScalarValue::String(v),
                None => ScalarValue::Null,
            },
    )
}

/// What a column of type `kind` stores for each of `values`.
pub open spec fn coerce_all(values: Seq<ScalarValue>, kind: DataType) -> Seq<ScalarValue> {
    Seq::new(values.len(), |i: int| values[i].coerce(kind))
}

/// The primitive column of type `kind` that stores `scalars`.
fn collect<T: Native>(scalars: &Vec<Scalar>, kind: DataType) -> (array: PrimitiveArray<T>)
    requires
        T::stores(kind),
    ensures
        array.wf(),
        lift(array.cells(), kind) == coerce_all(scalar_values(scalars@), kind),
{
    let mut builder: PrimitiveBuilder<T> = PrimitiveBuilder::with_capacity(scalars.len());
    let mut i: usize = 0;
    while i < scalars.len()
        invariant
            i <= scalars.len(),
            builder.wf(),
            T::stores(kind),
            builder.cells().len() == i,
            forall|j: int|
                0 <= j < i ==> #[trigger] builder.cells()[j] == T::pick_spec(scalars[j]@, kind),
        decreases scalars.len() - i,
    {
        builder.append_opt(T::pick(&scalars[i], kind));
        i += 1;
    }
    let array = builder.finish();
    proof {
        assert forall|j: int| 0 <= j < scalars.len() implies #[trigger] lift(
            array.cells(),
            kind,
        )[j] == coerce_all(scalar_values(scalars@), kind)[j] by {
            T::lemma_pick(scalars[j]@, kind);
        }
        assert(lift(array.cells(), kind) =~= coerce_all(scalar_values(scalars@), kind));
    }
    array
}

/// The string column that stores `scalars`.
fn collect_strings(scalars: &Vec<Scalar>) -> (array: StringArray)
    ensures
        array.wf(),
        lift_strings(array.cells()) == coerce_all(scalar_values(scalars@), DataType::String),
{
    let mut builder = StringBuilder::with_capacity(scalars.len());
    let mut i: usize = 0;
    while i < scalars.len()
        invariant
            i <= scalars.len(),
            builder.wf(),
            builder.cells().len() == i,
            forall|j: int|
                0 <= j < i ==> #[trigger] lift_strings(builder.cells())[j] == scalars[j]@.coerce(
                    DataType::String,
                ),
        decreases scalars.len() - i,
    {
        let ghost before = builder.cells();
        match &scalars[i] {
            Scalar::String(text) => builder.append(text.as_str()),
            _ => builder.append_null(),
        }
        assert forall|j: int| 0 <= j < i + 1 implies #[trigger] lift_strings(builder.cells())[j]
            == scalars[j]@.coerce(DataType::String) by {
            if j < i {
                assert(lift_strings(before)[j] == scalars[j]@.coerce(DataType::String));
            }
        }
        i += 1;
    }
    let array = builder.finish();
    assert(lift_strings(array.cells()) =~= coerce_all(
        scalar_values(scalars@),
        DataType::String,
    ));
    array
}

/// A column: one data type, a length and, for each cell, a value or null.
#[derive(Debug)]
pub enum Array {
    /// A column of nulls is just a length.
    Null(usize),
    Int8(PrimitiveArray<i8>),
    Int16(PrimitiveArray<i16>),
    Int32(PrimitiveArray<i32>),
    Int64(PrimitiveArray<i64>),
    Float32(PrimitiveArray<u32>),
    Float64(PrimitiveArray<u64>),
    Boolean(PrimitiveArray<bool>),
    Timestamp(TimeUnit, PrimitiveArray<i64>),
    String(StringArray),
}

/// The mathematical value of an [`Array`]: its type and its cells in order,
/// a null cell being `ScalarValue::Null`.
pub struct ArrayView {
    pub data_type: DataType,
    pub cells: Seq<ScalarValue>,
}

impl View for Array {
    type V = ArrayView;

    open spec fn view(&self) -> ArrayView {
        match *self {
            Array::Null(len) => ArrayView {
                data_type: DataType::Null,
                cells: Seq::new(len as nat, |i: int| ScalarValue::Null),
            },
            Array::Int8(a) => ArrayView {
                data_type: DataType::Int8,
                cells: lift(a.cells(), DataType::Int8),
            },
            Array::Int16(a) => ArrayView {
                data_type: DataType::Int16,
                cells: lift(a.cells(), DataType::Int16),
            },
            Array::Int32(a) => ArrayView {
                data_type: DataType::Int32,
                cells: lift(a.cells(), DataType::Int32),
            },
            Array::Int64(a) => ArrayView {
                data_type: DataType::Int64,
                cells: lift(a.cells(), DataType::Int64),
            },
            Array::Float32(a) => ArrayView {
                data_type: DataType::Float32,
                cells: lift(a.cells(), DataType::Float32),
            },
            Array::Float64(a) => ArrayView {
                data_type: DataType::Float64,
                cells: lift(a.cells(), DataType::Float64),
            },
            Array::Boolean(a) => ArrayView {
                data_type: DataType::Boolean,
                cells: lift(a.cells(), DataType::Boolean),
            },
            Array::Timestamp(unit, a) => ArrayView {
                data_type: DataType::Timestamp(unit),
                cells: lift(a.cells(), DataType::Timestamp(unit)),
            },
            Array::String(a) => ArrayView {
                data_type: DataType::String,
                cells: lift_strings(a.cells()),
            },
        }
    }
}

impl ArrayView {
    /// Every cell is null or a value of the column's type.
    pub open spec fn typed(self) -> bool {
        forall|i: int|
            0 <= i < self.cells.len() ==> (#[trigger] self.cells[i]) is Null
                || self.cells[i].has_type(self.data_type)
    }
}

impl Array {
    /// The buffers of the column fit together.
    pub open spec fn wf(&self) -> bool {
        match *self {
            Array::Null(_) => true,
            Array::Int8(a) => a.wf(),
            Array::Int16(a) => a.wf(),
            Array::Int32(a) => a.wf(),
            Array::Int64(a) => a.wf(),
            Array::Float32(a) => a.wf(),
            Array::Float64(a) => a.wf(),
            Array::Boolean(a) => a.wf(),
            Array::Timestamp(_, a) => a.wf(),
            Array::String(a) => a.wf(),
        }
    }

    /// Every cell of a column is null or of the column's type.
    pub proof fn lemma_typed(&self)
        ensures
            self@.typed(),
    {
    }

    /// A column of `len` nulls.
    pub fn new_null(len: usize) -> (array: Array)
        ensures
            array.wf(),
            array@.data_type == DataType::Null,
            array@.cells == Seq::new(len as nat, |i: int| ScalarValue::Null),
    {
        Array::Null(len)
    }

    /// A timestamp column of `len` cells that all hold `value`.
    pub fn new_timestamp_scalar(unit: TimeUnit, len: usize, value: Option<i64>) -> (array: Array)
        ensures
            array.wf(),
            array@.data_type == DataType::Timestamp(unit),
            array@.cells == Seq::new(
                len as nat,
                |i: int|
                    match value {
                        Some(v) => ScalarValue::Timestamp(v),
                        None => ScalarValue::Null,
                    },
            ),
    {
        let mut builder: PrimitiveBuilder<i64> = PrimitiveBuilder::with_capacity(len);
        let mut i: usize = 0;
        while i < len
            invariant
                i <= len,
                builder.wf(),
                builder.cells() == Seq::new(i as nat, |j: int| value),
            decreases len - i,
        {
            builder.append_opt(value);
            assert(builder.cells() =~= Seq::new((i + 1) as nat, |j: int| value));
            i += 1;
        }
        let array = Array::Timestamp(unit, builder.finish());
        assert(array@.cells =~= Seq::new(
            len as nat,
            |i: int|
                match value {
                    Some(v) => ScalarValue::Timestamp(v),
                    None => ScalarValue::Null,
                },
        ));
        array
    }

    /// The column of type `data_type` that stores `scalars`: a scalar that
    /// has not that type is stored as null.
    pub fn materialize(data_type: DataType, scalars: &Vec<Scalar>) -> (array: Array)
        ensures
            array.wf(),
            array@.data_type == data_type,
            array@.cells == coerce_all(scalar_values(scalars@), data_type),
    {
        match data_type {
            DataType::Null => {
                let array = Array::Null(scalars.len());
                assert(array@.cells =~= coerce_all(scalar_values(scalars@), data_type));
                array
            },
            DataType::Int8 => Array::Int8(collect(scalars, data_type)),
            DataType::Int16 => Array::Int16(collect(scalars, data_type)),
            DataType::Int32 => Array::Int32(collect(scalars, data_type)),
            DataType::Int64 => Array::Int64(collect(scalars, data_type)),
            DataType::Float32 => Array::Float32(collect(scalars, data_type)),
            DataType::Float64 => Array::Float64(collect(scalars, data_type)),
            DataType::Boolean => Array::Boolean(collect(scalars, data_type)),
            DataType::Timestamp(unit) => Array::Timestamp(unit, collect(scalars, data_type)),
            DataType::String => Array::String(collect_strings(scalars)),
        }
    }

    pub fn data_type(&self) -> (data_type: DataType)
        ensures
            data_type == self@.data_type,
    {
        match self {
            Array::Null(_) => DataType::Null,
            Array::Int8(_) => DataType::Int8,
            Array::Int16(_) => DataType::Int16,
            Array::Int32(_) => DataType::Int32,
            Array::Int64(_) => DataType::Int64,
            Array::Float32(_) => DataType::Float32,
            Array::Float64(_) => DataType::Float64,
            Array::Boolean(_) => DataType::Boolean,
            Array::Timestamp(unit, _) => DataType::Timestamp(*unit),
            Array::String(_) => DataType::String,
        }
    }

    pub fn len(&self) -> (len: usize)
        requires
            self.wf(),
        ensures
            len == self@.cells.len(),
    {
        match self {
            Array::Null(len) => *len,
            Array::Int8(a) => a.len(),
            Array::Int16(a) => a.len(),
            Array::Int32(a) => a.len(),
            Array::Int64(a) => a.len(),
            Array::Float32(a) => a.len(),
            Array::Float64(a) => a.len(),
            Array::Boolean(a) => a.len(),
            Array::Timestamp(_, a) => a.len(),
            Array::String(a) => a.len(),
        }
    }

    /// The value of the cell at `index`; `Scalar::Null` for a null cell.
    pub fn scalar_value(&self, index: usize) -> (scalar: Scalar)
        requires
            self.wf(),
            index < self@.cells.len(),
        ensures
            scalar@ == self@.cells[index as int],
            scalar@ is Null || scalar@.has_type(self@.data_type),
    {
        match self {
            Array::Null(_) => Scalar::Null,
            Array::Int8(a) => primitive_scalar(a, index, DataType::Int8),
            Array::Int16(a) => primitive_scalar(a, index, DataType::Int16),
            Array::Int32(a) => primitive_scalar(a, index, DataType::Int32),
            Array::Int64(a) => primitive_scalar(a, index, DataType::Int64),
            Array::Float32(a) => primitive_scalar(a, index, DataType::Float32),
            Array::Float64(a) => primitive_scalar(a, index, DataType::Float64),
            Array::Boolean(a) => primitive_scalar(a, index, DataType::Boolean),
            Array::Timestamp(unit, a) => primitive_scalar(a, index, DataType::Timestamp(*unit)),
            Array::String(a) => match a.get(index) {
                Some(text) => Scalar::String(text),
                None => Scalar::Null,
            },
        }
    }
}

/// The scalar at `index` of a primitive column of type `kind`.
fn primitive_scalar<T: Native>(array: &PrimitiveArray<T>, index: usize, kind: DataType) -> (scalar:
    Scalar)
    requires
        array.wf(),
        T::stores(kind),
        index < array.cells().len(),
    ensures
        scalar@ == lift(array.cells(), kind)[index as int],
        scalar@ is Null || scalar@.has_type(kind),
{
    match array.get(index) {
        Some(v) => {
            proof {
                T::lemma_pick(v.wrap(kind), kind);
                T::lemma_wrap(v, kind);
            }
            v.to_scalar(kind)
        },
        None => Scalar::Null,
    }
}

} // verus!
