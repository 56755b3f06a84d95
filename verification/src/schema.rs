use vstd::prelude::*;

use crate::util::str_eq;

verus! {

/// Declared column types.
#[derive(Clone, Copy, Debug, PartialEq, Eq, Structural)]
pub enum Type {
    Null,
    Text,
    Numeric,
    Integer,
    Real,
    Blob,
}

/// A column of a table.
#[derive(Clone, Debug, PartialEq, Eq)]
pub struct Column {
    pub name: String,
    pub ty: Type,
    /// The column is the table's integer primary key, stored as the row id.
    pub primary_key: bool,
}

/// A table stored in a b-tree.
#[derive(Clone, Debug, PartialEq, Eq)]
pub struct BTreeTable {
    pub name: String,
    pub columns: Vec<Column>,
}

/// A table whose rows come from a register set rather than from storage.
#[derive(Clone, Debug, PartialEq, Eq)]
pub struct PseudoTable {
    pub columns: Vec<Column>,
}

/// A table that a query reads.
#[derive(Debug)]
pub enum Table<'a> {
    BTree(&'a BTreeTable),
    Pseudo(&'a PseudoTable),
}

impl<'a> Table<'a> {
    pub open spec fn spec_columns(self) -> Seq<Column> {
        match self {
            Table::BTree(t) => t.columns@,
            Table::Pseudo(t) => t.columns@,
        }
    }

    /// The table's columns.
    pub fn columns(&self) -> (res: &'a Vec<Column>)
        ensures
            res@ == self.spec_columns(),
    {
        match self {
            Table::BTree(t) => &t.columns,
            Table::Pseudo(t) => &t.columns,
        }
    }
}

/// Index of the first table in `tables` named `name`.
pub open spec fn first_table_named(tables: Seq<BTreeTable>, name: Seq<char>) -> Option<int>
    decreases tables.len(),
{
    if tables.len() == 0 {
        None
    } else if tables[0].name@ == name {
        Some(0)
    } else {
        match first_table_named(tables.drop_first(), name) {
            Some(i) => Some(i + 1),
            None => None,
        }
    }
}

pub proof fn lemma_first_table_named(tables: Seq<BTreeTable>, name: Seq<char>)
    ensures
        first_table_named(tables, name) matches Some(i) ==> 0 <= i < tables.len()
            && tables[i].name@ == name && forall|j: int| 0 <= j < i ==> tables[j].name@ != name,
        first_table_named(tables, name) is None ==> forall|j: int|
            0 <= j < tables.len() ==> tables[j].name@ != name,
    decreases tables.len(),
{
    if tables.len() > 0 {
        lemma_first_table_named(tables.drop_first(), name);
        assert forall|j: int| 1 <= j < tables.len() implies tables[j] == tables.drop_first()[j
            - 1] by {}
    }
}

/// The tables of a database.
pub struct Schema {
    pub tables: Vec<BTreeTable>,
}

impl Schema {
    /// A schema without tables.
    pub fn new() -> (res: Schema)
        ensures
            res.tables@ == Seq::<BTreeTable>::empty(),
    {
        Schema { tables: Vec::new() }
    }

    /// Adds a table after the ones already there.
    pub fn add_table(&mut self, table: BTreeTable)
        ensures
            final(self).tables@ == old(self).tables@.push(table),
    {
        self.tables.push(table);
    }

    /// The model of `get_table`: the first table with the given name.
    pub open spec fn spec_get_table(self, name: Seq<char>) -> Option<BTreeTable> {
        match first_table_named(self.tables@, name) {
            Some(i) => Some(self.tables@[i]),
            None => None,
        }
    }

    /// The first table with the given name, compared exactly.
    pub fn get_table(&self, name: &str) -> (res: Option<&BTreeTable>)
        ensures
            match res {
                Some(t) => self.spec_get_table(name@) == Some(*t),
                None => self.spec_get_table(name@) is None,
            },
    {
        proof {
            lemma_first_table_named(self.tables@, name@);
        }
        let mut i: usize = 0;
        while i < self.tables.len()
            invariant
                i <= self.tables@.len(),
                forall|j: int| 0 <= j < i ==> self.tables@[j].name@ != name@,
            decreases self.tables@.len() - i,
        {
            if str_eq(self.tables[i].name.as_str(), name) {
                proof {
                    lemma_first_table_named(self.tables@, name@);
                }
                return Some(&self.tables[i]);
            }
            i = i + 1;
        }
        None
    }
}

} // verus!
