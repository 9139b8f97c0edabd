//! Change records, sequence numbers and the wire-size estimate.
use vstd::prelude::*;
use vstd::utf8::encode_utf8;

verus! {

/// An intra-version sequence number.
#[derive(Clone, Copy, Debug, Default, PartialEq, Eq, Structural, PartialOrd, Ord, Hash)]
pub struct CrsqlSeq(pub u64);

/// A per-writer database version.
#[derive(Clone, Copy, Debug, Default, PartialEq, Eq, Structural, PartialOrd, Ord, Hash)]
pub struct CrsqlDbVersion(pub u64);

/// An inclusive span `[start, end]` of sequence numbers within one version.
#[derive(Clone, Copy, Debug, Default, PartialEq, Eq, Structural, Hash)]
pub struct CrsqlSeqRange {
    pub start: CrsqlSeq,
    pub end: CrsqlSeq,
}

impl CrsqlSeqRange {
    pub fn new(start: CrsqlSeq, end: CrsqlSeq) -> (r: CrsqlSeqRange)
        ensures
            r.start == start,
            r.end == end,
    {
        CrsqlSeqRange { start, end }
    }
}

/// A scalar column value. A real number is held as its IEEE-754 bit pattern.
#[derive(Clone, Debug, Default, PartialEq)]
pub enum SqliteValue {
    #[default]
    Null,
    Integer(i64),
    Real(u64),
    Text(String),
    Blob(Vec<u8>),
}

/// Number of bytes in the UTF-8 encoding of `s`, as `str::len` reports it.
pub open spec fn text_len(s: Seq<char>) -> nat {
    (encode_utf8(s).len() as usize) as nat
}

/// Largest value a `usize` can hold.
pub open spec fn usize_cap(n: nat) -> nat {
    if n <= usize::MAX {
        n
    } else {
        usize::MAX as nat
    }
}

impl SqliteValue {
    /// Estimated wire size of the value.
    pub open spec fn estimated_size(&self) -> nat {
        match self {
            SqliteValue::Null => 1,
            SqliteValue::Integer(_) => 8,
            SqliteValue::Real(_) => 8,
            SqliteValue::Text(t) => text_len(t@),
            SqliteValue::Blob(b) => b@.len(),
        }
    }

    pub fn estimated_byte_size(&self) -> (r: usize)
        ensures
            r == self.estimated_size(),
    {
        match self {
            SqliteValue::Null => 1,
            SqliteValue::Integer(_) => 8,
            SqliteValue::Real(_) => 8,
            SqliteValue::Text(t) => t.as_str().len(),
            SqliteValue::Blob(b) => b.len(),
        }
    }
}

/// Bytes reserved for the fixed-width fields: col_version, db_version, seq,
/// site_id, cl, and a site_version slot that only exists on the wire.
pub const FIXED_FIELDS_SIZE: usize = 8 + 8 + 8 + 16 + 8 + 8;

/// One column's value change for one row.
#[derive(Clone, Debug, Default, PartialEq)]
pub struct Change {
    pub table: String,
    pub pk: Vec<u8>,
    pub cid: String,
    pub val: SqliteValue,
    pub col_version: i64,
    pub db_version: CrsqlDbVersion,
    pub seq: CrsqlSeq,
    pub site_id: [u8; 16],
    pub cl: i64,
}

impl Change {
    /// Estimated wire size: the variable-length fields plus the fixed-width ones.
    pub open spec fn estimated_size(&self) -> nat {
        (text_len(self.table@) + self.pk@.len() + text_len(self.cid@) + self.val.estimated_size()
            + FIXED_FIELDS_SIZE) as nat
    }

    /// The estimate, saturated at `usize::MAX`.
    pub fn estimated_byte_size(&self) -> (r: usize)
        ensures
            r == usize_cap(self.estimated_size()),
    {
        let a: usize = self.table.as_str().len();
        let b: usize = a.saturating_add(self.pk.len());
        let c: usize = b.saturating_add(self.cid.as_str().len());
        let d: usize = c.saturating_add(self.val.estimated_byte_size());
        d.saturating_add(FIXED_FIELDS_SIZE)
    }
}

} // verus!
