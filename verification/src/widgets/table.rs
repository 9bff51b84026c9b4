use vstd::prelude::*;

verus! {

/// A two-column table as plain rows; rendering it is the caller's concern.
#[derive(Debug)]
pub struct Table<T, U> {
    pub rows: Vec<(T, U)>,
}

impl<T, U> Table<T, U> {
    /// A table of the given rows.
    pub fn new(rows: Vec<(T, U)>) -> (r: Table<T, U>)
        ensures
            r.rows@ == rows@,
    {
        Table { rows }
    }

    /// Appends rows at the end, keeping their order.
    pub fn extend(&mut self, items: Vec<(T, U)>)
        ensures
            final(self).rows@ == old(self).rows@ + items@,
    {
        let mut items = items;
        self.rows.append(&mut items);
    }

    /// Appends another table's rows at the end.
    pub fn extend_table(&mut self, other: Table<T, U>)
        ensures
            final(self).rows@ == old(self).rows@ + other.rows@,
    {
        self.extend(other.rows);
    }
}

} // verus!
