//! The plan of a `SELECT`: its source tables and what each result column needs.
use vstd::prelude::*;

use crate::ast::{Expr, Limit, JoinedSelectTable, ResultColumn};
use crate::function::Func;
use crate::schema::Table;
use crate::vdbe::{BranchOffset, CursorID};

verus! {

/// A table that a `SELECT` reads, with the alias it goes by and, for a
/// joined table, the join it comes from.
#[derive(Debug)]
pub struct SrcTable<'a> {
    pub table: Table<'a>,
    pub alias: Option<&'a String>,
    pub join_info: Option<&'a JoinedSelectTable>,
}

/// What planning found out about one result column.
#[derive(Debug)]
pub struct ColumnInfo<'a> {
    /// The function the column's expression calls, if it calls a known one.
    pub func: Option<Func>,
    /// The arguments of that call.
    pub args: Option<&'a Vec<Expr>>,
    /// How many registers the column's values take.
    pub columns_to_allocate: usize,
}

/// A `ColumnInfo` with its argument list seen as a sequence.
pub struct ColumnInfoView {
    pub func: Option<Func>,
    pub args: Option<Seq<Expr>>,
    pub columns_to_allocate: usize,
}

impl<'a> View for ColumnInfo<'a> {
    type V = ColumnInfoView;

    open spec fn view(&self) -> ColumnInfoView {
        ColumnInfoView {
            func: self.func,
            args: match self.args {
                Some(a) => Some(a@),
                None => None,
            },
            columns_to_allocate: self.columns_to_allocate,
        }
    }
}

impl ColumnInfoView {
    /// The information of a column before analysis.
    pub open spec fn initial() -> ColumnInfoView {
        ColumnInfoView { func: None, args: None, columns_to_allocate: 1 }
    }

    pub open spec fn is_aggregation(self) -> bool {
        self.func matches Some(Func::Agg(_))
    }
}

impl<'a> ColumnInfo<'a> {
    /// No function, no arguments, one register.
    pub fn new() -> (res: ColumnInfo<'a>)
        ensures
            res@ == ColumnInfoView::initial(),
    {
        ColumnInfo { func: None, args: None, columns_to_allocate: 1 }
    }

    /// Whether the column's expression calls an aggregate function.
    pub fn is_aggregation_function(&self) -> (res: bool)
        ensures
            res == self@.is_aggregation(),
    {
        match self.func {
            Some(f) => f.is_aggregate(),
            None => false,
        }
    }
}

/// The loop over the rows of one source table, once code for it has been
/// emitted: the cursor it reads, where the rewind stands and the label it
/// jumps to when the table is empty.
#[derive(Debug, Clone, Copy)]
pub struct LoopInfo {
    pub rewind_offset: BranchOffset,
    pub rewind_label: BranchOffset,
    pub open_cursor: CursorID,
}

/// A planned `SELECT`.
#[derive(Debug)]
pub struct Select<'a> {
    pub columns: &'a Vec<ResultColumn>,
    pub column_info: Vec<ColumnInfo<'a>>,
    pub src_tables: Vec<SrcTable<'a>>,
    pub limit: &'a Option<Limit>,
    pub exist_aggregation: bool,
    pub where_clause: &'a Option<Expr>,
    pub loops: Vec<LoopInfo>,
}

} // verus!
