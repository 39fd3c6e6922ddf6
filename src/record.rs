use vstd::prelude::*;

verus! {

/// One submitted result: a player's score under a game version.
#[derive(Clone, Debug, PartialEq, Eq)]
pub struct Highscore {
    pub score: u32,
    pub name: String,
    pub version: String,
}

/// A row as the table hands it back: (version, score, name).
pub type StoredRow = (String, i64, String);

/// Why a store operation failed.
#[derive(Clone, Copy, Debug, PartialEq, Eq)]
pub enum StoreError {
    /// The table could not be opened or created.
    Unavailable,
    /// A read or write against the table failed.
    Io,
    /// The row at this position holds a score that no record can carry.
    BadRow(usize),
}

impl Highscore {
    /// A field-for-field copy.
    pub fn copied(&self) -> (r: Highscore)
        ensures
            r == *self,
    {
        Highscore { score: self.score, name: self.name.clone(), version: self.version.clone() }
    }
}

/// The row that stores a record.
pub open spec fn row_of(r: Highscore) -> StoredRow {
    (r.version, r.score as i64, r.name)
}

/// A stored score can be read back only when it fits in a `u32`.
pub open spec fn row_fits(row: StoredRow) -> bool {
    0 <= row.1 <= u32::MAX
}

/// The record that a fitting row stands for.
pub open spec fn record_of(row: StoredRow) -> Highscore {
    Highscore { score: row.1 as u32, name: row.2, version: row.0 }
}

/// Every row of the table can be read back.
pub open spec fn rows_fit(rows: Seq<StoredRow>) -> bool {
    forall|i: int| 0 <= i < rows.len() ==> row_fits(#[trigger] rows[i])
}

/// The records that a table of fitting rows holds, in table order.
pub open spec fn records_of(rows: Seq<StoredRow>) -> Seq<Highscore> {
    rows.map_values(|row: StoredRow| record_of(row))
}

/// The row handed to the table when a record is inserted.
pub fn row_from_record(r: &Highscore) -> (row: StoredRow)
    ensures
        row == row_of(*r),
{
    (r.version.clone(), r.score as i64, r.name.clone())
}

/// Reads every row back as a record. A row whose score does not fit fails the
/// whole read, naming the first such row: no row is dropped in silence.
pub fn records_from_rows(rows: &Vec<StoredRow>) -> (r: Result<Vec<Highscore>, StoreError>)
    ensures
        r is Ok <==> rows_fit(rows@),
        r matches Ok(v) ==> v@ == records_of(rows@),
        r matches Err(e) ==> exists|i: int|
            0 <= i < rows@.len() && !row_fits(rows@[i]) && e == StoreError::BadRow(i as usize)
                && forall|j: int| 0 <= j < i ==> row_fits(#[trigger] rows@[j]),
{
    let mut out: Vec<Highscore> = Vec::new();
    let mut i: usize = 0;
    while i < rows.len()
        invariant
            i <= rows@.len(),
            forall|j: int| 0 <= j < i ==> row_fits(#[trigger] rows@[j]),
            out@ == records_of(rows@.subrange(0, i as int)),
        decreases rows@.len() - i,
    {
        let row = &rows[i];
        if row.1 < 0 || row.1 > u32::MAX as i64 {
            return Err(StoreError::BadRow(i));
        }
        let rec = Highscore { score: row.1 as u32, name: row.2.clone(), version: row.0.clone() };
        out.push(rec);
        proof {
            assert(rows@.subrange(0, i + 1) == rows@.subrange(0, i as int).push(rows@[i as int]));
        }
        i = i + 1;
    }
    proof {
        assert(rows@.subrange(0, rows@.len() as int) == rows@);
    }
    Ok(out)
}

} // verus!
