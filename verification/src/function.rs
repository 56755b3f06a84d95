use vstd::prelude::*;

use crate::util::str_eq;

verus! {

/// Aggregate functions.
#[derive(Clone, Copy, Debug, PartialEq, Eq, Structural)]
pub enum AggFunc {
    Avg,
    Count,
    GroupConcat,
    Max,
    Min,
    StringAgg,
    Sum,
    Total,
}

/// Functions that compute one value per row.
#[derive(Clone, Copy, Debug, PartialEq, Eq, Structural)]
pub enum SingleRowFunc {
    Coalesce,
    Like,
    Abs,
}

/// A built-in SQL function.
#[derive(Clone, Copy, Debug, PartialEq, Eq, Structural)]
pub enum Func {
    Agg(AggFunc),
    SingleRow(SingleRowFunc),
}

impl Func {
    /// The function that a (normalized, lower-case) name denotes.
    pub open spec fn spec_resolve(name: Seq<char>) -> Option<Func> {
        if name == "avg"@ {
            Some(Func::Agg(AggFunc::Avg))
        } else if name == "count"@ {
            Some(Func::Agg(AggFunc::Count))
        } else if name == "group_concat"@ {
            Some(Func::Agg(AggFunc::GroupConcat))
        } else if name == "max"@ {
            Some(Func::Agg(AggFunc::Max))
        } else if name == "min"@ {
            Some(Func::Agg(AggFunc::Min))
        } else if name == "string_agg"@ {
            Some(Func::Agg(AggFunc::StringAgg))
        } else if name == "sum"@ {
            Some(Func::Agg(AggFunc::Sum))
        } else if name == "total"@ {
            Some(Func::Agg(AggFunc::Total))
        } else if name == "coalesce"@ {
            Some(Func::SingleRow(SingleRowFunc::Coalesce))
        } else if name == "like"@ {
            Some(Func::SingleRow(SingleRowFunc::Like))
        } else if name == "abs"@ {
            Some(Func::SingleRow(SingleRowFunc::Abs))
        } else {
            None
        }
    }

    /// Looks a function up by its name; the match is exact, so callers
    /// normalize the name first.
    pub fn resolve(name: &str) -> (res: Option<Func>)
        ensures
            res == Func::spec_resolve(name@),
    {
        if str_eq(name, "avg") {
            Some(Func::Agg(AggFunc::Avg))
        } else if str_eq(name, "count") {
            Some(Func::Agg(AggFunc::Count))
        } else if str_eq(name, "group_concat") {
            Some(Func::Agg(AggFunc::GroupConcat))
        } else if str_eq(name, "max") {
            Some(Func::Agg(AggFunc::Max))
        } else if str_eq(name, "min") {
            Some(Func::Agg(AggFunc::Min))
        } else if str_eq(name, "string_agg") {
            Some(Func::Agg(AggFunc::StringAgg))
        } else if str_eq(name, "sum") {
            Some(Func::Agg(AggFunc::Sum))
        } else if str_eq(name, "total") {
            Some(Func::Agg(AggFunc::Total))
        } else if str_eq(name, "coalesce") {
            Some(Func::SingleRow(SingleRowFunc::Coalesce))
        } else if str_eq(name, "like") {
            Some(Func::SingleRow(SingleRowFunc::Like))
        } else if str_eq(name, "abs") {
            Some(Func::SingleRow(SingleRowFunc::Abs))
        } else {
            None
        }
    }

    /// Whether this is an aggregate function.
    pub fn is_aggregate(&self) -> (res: bool)
        ensures
            res == (*self is Agg),
    {
        match self {
            Func::Agg(_) => true,
            Func::SingleRow(_) => false,
        }
    }
}

} // verus!
