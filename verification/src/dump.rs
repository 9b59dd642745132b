use vstd::prelude::*;

verus! {

/// How many vacant slots in a row a listing shows before it puts one gap in
/// place of the rest.
pub const SHOWN_VACANT: usize = 3;

/// One line of a listing of the backing array.
#[derive(Debug, Clone, Copy, PartialEq, Eq, Structural)]
pub enum Row {
    /// The slot at this index holds an entry.
    Entry(usize),
    /// The slot at this index holds none.
    Vacant(usize),
    /// More vacant slots follow, and are not listed.
    Gap,
}

/// The number of vacant slots that lie directly before slot `n`.
pub open spec fn vacant_run(occupied: Seq<bool>, n: int) -> nat
    decreases n,
{
    if n <= 0 || occupied[n - 1] {
        0
    } else {
        1 + vacant_run(occupied, n - 1)
    }
}

/// The line that slot `index` adds to a listing, if any: an occupied slot
/// is listed, and so are the first [`SHOWN_VACANT`] of a run of vacant
/// slots; the next one gives a gap, and the rest of the run gives nothing.
pub open spec fn row_at(occupied: Seq<bool>, index: int) -> Option<Row> {
    if occupied[index] {
        Some(Row::Entry(index as usize))
    } else if vacant_run(occupied, index) < SHOWN_VACANT {
        Some(Row::Vacant(index as usize))
    } else if vacant_run(occupied, index) == SHOWN_VACANT {
        Some(Row::Gap)
    } else {
        None
    }
}

/// The listing of the first `n` slots.
pub open spec fn rows_upto(occupied: Seq<bool>, n: int) -> Seq<Row>
    decreases n,
{
    if n <= 0 {
        Seq::empty()
    } else {
        match row_at(occupied, n - 1) {
            Some(row) => rows_upto(occupied, n - 1).push(row),
            None => rows_upto(occupied, n - 1),
        }
    }
}

/// The listing of a backing array of which `occupied` tells the slots that
/// hold an entry.
pub fn list_rows(occupied: &Vec<bool>) -> (rows: Vec<Row>)
    ensures
        rows@ == rows_upto(occupied@, occupied.len() as int),
{
    let mut rows: Vec<Row> = Vec::new();
    let mut run: usize = 0;
    let mut index: usize = 0;
    while index < occupied.len()
        invariant
            index <= occupied.len(),
            rows@ == rows_upto(occupied@, index as int),
            run <= SHOWN_VACANT + 1,
            run <= SHOWN_VACANT ==> run == vacant_run(occupied@, index as int),
            run == SHOWN_VACANT + 1 ==> vacant_run(occupied@, index as int) > SHOWN_VACANT,
        decreases occupied.len() - index,
    {
        if occupied[index] {
            rows.push(Row::Entry(index));
            run = 0;
        } else if run < SHOWN_VACANT {
            rows.push(Row::Vacant(index));
            run += 1;
        } else if run == SHOWN_VACANT {
            rows.push(Row::Gap);
            run += 1;
        }
        index += 1;
    }
    rows
}

} // verus!
