//! The databases that are open, each with its connection.

use vstd::prelude::*;

use crate::name_table::NameTable;

verus! {

/// From the name of each open database to its connection. Connections are
/// known by their numbers.
#[derive(Debug)]
pub struct Connections {
    conns: NameTable<u32>,
}

impl View for Connections {
    type V = Map<Seq<char>, u32>;

    closed spec fn view(&self) -> Map<Seq<char>, u32> {
        self.conns@
    }
}

impl Connections {
    /// No database occurs twice.
    pub closed spec fn wf(self) -> bool {
        self.conns.wf()
    }

    /// No database is open.
    pub fn new() -> (conns: Self)
        ensures
            conns.wf(),
            conns@ == Map::<Seq<char>, u32>::empty(),
    {
        Connections { conns: NameTable::new() }
    }

    /// Whether a database is open.
    pub fn is_open(&self, db: &str) -> (open: bool)
        requires
            self.wf(),
        ensures
            open == self@.dom().contains(db@),
    {
        self.conns.contains_key(db)
    }

    /// The connection of a database.
    pub fn connection(&self, db: &str) -> (conn: u32)
        requires
            self.wf(),
            self@.dom().contains(db@),
        ensures
            conn == self@[db@],
    {
        *self.conns.get(db).unwrap()
    }

    /// Notes the connection of a database, in place of one that it had.
    pub(crate) fn register(&mut self, db: &str, conn: u32)
        requires
            old(self).wf(),
        ensures
            final(self).wf(),
            final(self)@ == old(self)@.insert(db@, conn),
    {
        self.conns.insert(db.to_owned(), conn);
    }
}

} // verus!
