//! Chunks: the unit of streaming transfer. A chunk is an ordered sequence of
//! columns, one per schema field, all with the same row count. Chunks are
//! supplied fresh for every write and are not retained.

use vstd::prelude::*;

use crate::fields::IpcField;

verus! {

/// One column of a chunk: either plain 64-bit integers, or a
/// dictionary-encoded column holding its dictionary values (ordered byte
/// strings) and one code per row.
pub enum Column {
    Primitive(Vec<u64>),
    Dictionary { values: Vec<Vec<u8>>, keys: Vec<u32> },
}

/// The mathematical value of a [`Column`].
pub ghost enum ColumnV {
    Primitive(Seq<u64>),
    Dictionary { values: Seq<Seq<u8>>, keys: Seq<u32> },
}

impl View for Column {
    type V = ColumnV;

    open spec fn view(&self) -> ColumnV {
        match self {
            Column::Primitive(values) => ColumnV::Primitive(values@),
            Column::Dictionary { values, keys } => ColumnV::Dictionary {
                values: values.deep_view(),
                keys: keys@,
            },
        }
    }
}

/// A column's row count.
pub open spec fn column_rows(c: ColumnV) -> nat {
    match c {
        ColumnV::Primitive(values) => values.len(),
        ColumnV::Dictionary { keys, .. } => keys.len(),
    }
}

/// The dictionary values a column carries: empty for a plain column.
pub open spec fn dictionary_values(c: ColumnV) -> Seq<Seq<u8>> {
    match c {
        ColumnV::Dictionary { values, .. } => values,
        ColumnV::Primitive(_) => Seq::<Seq<u8>>::empty(),
    }
}

/// A chunk's row count: that of its first column, or zero when it has none.
pub open spec fn chunk_rows(cols: Seq<ColumnV>) -> nat {
    if cols.len() == 0 {
        0
    } else {
        column_rows(cols[0])
    }
}

/// One batch of equal-length columns.
pub struct Chunk {
    pub columns: Vec<Column>,
}

impl View for Chunk {
    type V = Seq<ColumnV>;

    open spec fn view(&self) -> Seq<ColumnV> {
        self.columns@.map_values(|c: Column| c@)
    }
}

impl Chunk {
    /// Wraps columns into a chunk; conformance with a mapping is checked at
    /// encoding time.
    pub fn new(columns: Vec<Column>) -> (r: Chunk)
        ensures
            r@ == columns@.map_values(|c: Column| c@),
    {
        Chunk { columns }
    }

    /// The chunk's row count: that of its first column, or zero.
    pub fn len(&self) -> (r: usize)
        ensures
            r as nat == chunk_rows(self@),
    {
        if self.columns.len() == 0 {
            0
        } else {
            match &self.columns[0] {
                Column::Primitive(values) => values.len(),
                Column::Dictionary { keys, .. } => keys.len(),
            }
        }
    }
}

/// Every length-prefixed section of a column fits its four-byte prefix.
pub open spec fn column_sections_fit(c: ColumnV) -> bool {
    match c {
        ColumnV::Dictionary { values, .. } => values.len() <= 0xFFFF_FFFF && forall|j: int|
            0 <= j < values.len() ==> (#[trigger] values[j]).len() <= 0xFFFF_FFFF,
        ColumnV::Primitive(_) => true,
    }
}

/// A chunk conforms to a mapping when it has one column per mapped field,
/// column kinds agree with the mapping, all row counts are equal, and every
/// length-prefixed section fits its four-byte prefix.
pub open spec fn conforms(cols: Seq<ColumnV>, mapping: Seq<IpcField>) -> bool {
    &&& cols.len() == mapping.len()
    &&& cols.len() <= 0xFFFF_FFFF
    &&& chunk_rows(cols) <= 0xFFFF_FFFF
    &&& forall|i: int|
        0 <= i < cols.len() ==> ((#[trigger] cols[i]) is Dictionary <==> mapping[i].dictionary_id
            is Some)
    &&& forall|i: int| 0 <= i < cols.len() ==> column_rows(#[trigger] cols[i]) == chunk_rows(cols)
    &&& forall|i: int| 0 <= i < cols.len() ==> column_sections_fit(#[trigger] cols[i])
}

/// Checks chunk conformance; the encoder rejects a chunk for which this is
/// false.
pub fn check_conforms(chunk: &Chunk, mapping: &Vec<IpcField>) -> (r: bool)
    ensures
        r == conforms(chunk@, mapping@),
{
    if chunk.columns.len() != mapping.len() {
        return false;
    }
    if chunk.columns.len() as u64 > 0xFFFF_FFFFu64 {
        return false;
    }
    let rows: usize = chunk.len();
    if rows as u64 > 0xFFFF_FFFFu64 {
        return false;
    }
    let mut i: usize = 0;
    while i < chunk.columns.len()
        invariant
            i <= chunk.columns.len(),
            chunk@.len() == chunk.columns@.len(),
            mapping@.len() == chunk.columns@.len(),
            rows as nat == chunk_rows(chunk@),
            chunk@.len() <= 0xFFFF_FFFF,
            chunk_rows(chunk@) <= 0xFFFF_FFFF,
            forall|k: int|
                0 <= k < i ==> ((#[trigger] chunk@[k]) is Dictionary <==> mapping@[k].dictionary_id
                    is Some),
            forall|k: int| 0 <= k < i ==> column_rows(#[trigger] chunk@[k]) == chunk_rows(chunk@),
            forall|k: int| 0 <= k < i ==> column_sections_fit(#[trigger] chunk@[k]),
        decreases chunk.columns.len() - i,
    {
        proof {
            assert(chunk@[i as int] == chunk.columns@[i as int]@);
        }
        match &chunk.columns[i] {
            Column::Primitive(values) => {
                if mapping[i].dictionary_id.is_some() {
                    return false;
                }
                if values.len() != rows {
                    return false;
                }
            },
            Column::Dictionary { values, keys } => {
                if mapping[i].dictionary_id.is_none() {
                    return false;
                }
                if keys.len() != rows {
                    return false;
                }
                if values.len() as u64 > 0xFFFF_FFFFu64 {
                    return false;
                }
                let mut j: usize = 0;
                while j < values.len()
                    invariant
                        j <= values.len(),
                        i < chunk.columns.len(),
                        chunk@.len() == chunk.columns@.len(),
                        chunk@[i as int] == (ColumnV::Dictionary {
                            values: values.deep_view(),
                            keys: keys@,
                        }),
                        forall|k: int|
                            0 <= k < j ==> (#[trigger] values.deep_view()[k]).len()
                                <= 0xFFFF_FFFF,
                    decreases values.len() - j,
                {
                    if values[j].len() as u64 > 0xFFFF_FFFFu64 {
                        proof {
                            assert(values.deep_view()[j as int] =~= values@[j as int]@);
                            assert(chunk@[i as int] == ColumnV::Dictionary {
                                values: values.deep_view(),
                                keys: keys@,
                            });
                            assert(values.deep_view()[j as int].len() > 0xFFFF_FFFF);
                            assert(!column_sections_fit(chunk@[i as int]));
                        }
                        return false;
                    }
                    proof {
                        assert(values.deep_view()[j as int] =~= values@[j as int]@);
                    }
                    j = j + 1;
                }
            },
        }
        i = i + 1;
    }
    true
}

} // verus!
