//! The inputs on which planning and translation are defined, decided ahead
//! of a call: a form that is not translated, or a register or label counter
//! that would overflow, makes them undefined.
use vstd::prelude::*;
use vstd::string::StrSliceExecFns;

use crate::ast::{
    self, Expr, JoinedSelectTable, Literal, OneSelect, Operator, ResultColumn, SelectTable,
    UnaryOperator,
};
use crate::error::Error;
use crate::expr::{
    called_function, find_column, has_column, is_comparison,
    spec_resolve_qualified, spec_resolve_qualified_from, spec_resolve_table, spec_translate,
    spec_translate_call, spec_translate_literal, spec_translate_negative, table_identifier,
    tables_with_column, Outcome, columns_analyzable, from_sources, resolve_sources,
    analyze_columns, analyze_expr, build_select, plans_to, total_columns, translate_expr,
    is_lone_quote, spec_analyze_expr, spec_analyze_head, spec_build_select, spec_column_info, total_schema_columns,
};
use crate::function::{Func, SingleRowFunc};
use crate::properties::lemma_literal_emits_one;
use crate::schema::{first_table_named, lemma_first_table_named, Schema, Table};
use crate::select::{ColumnInfo, ColumnInfoView, Select, SrcTable};
use crate::util::{is_f64_literal, normalize_ident, parse_i64};
use crate::vdbe::{first_cursor, ProgramBuilder, ProgramState};

verus! {

/// The register and label counters of a program: the next free register
/// and the last label handed out.
pub type Counters = (usize, i64);

/// What translation does to the counters, and whether it succeeds, with the
/// cursors of `s0`; the instructions it emits play no part.
pub open spec fn sim_translate(select: Select, s0: ProgramState, c: Counters, expr: Expr, target: usize) -> Outcome<
    (Counters, bool),
>
    decreases expr,
{
    match expr {
        Expr::Binary(e1, op, e2) => {
            if c.0 >= usize::MAX - 1 {
                Outcome::Panics
            } else {
                match sim_translate(select, s0, ((c.0 + 2) as usize, c.1), *e1, c.0) {
                    Outcome::Panics => Outcome::Panics,
                    Outcome::Done((c2, false)) => Outcome::Done((c2, false)),
                    Outcome::Done((c2, true)) => match sim_translate(
                        select,
                        s0,
                        c2,
                        *e2,
                        (c.0 + 1) as usize,
                    ) {
                        Outcome::Panics => Outcome::Panics,
                        Outcome::Done((c3, false)) => Outcome::Done((c3, false)),
                        Outcome::Done((c3, true)) => if is_comparison(op) {
                            if c3.1 == i64::MIN {
                                Outcome::Panics
                            } else {
                                Outcome::Done(((c3.0, (c3.1 - 1) as i64), true))
                            }
                        } else if op == Operator::Add {
                            Outcome::Done((c3, true))
                        } else {
                            Outcome::Panics
                        },
                    },
                }
            }
        },
        Expr::FunctionCall { name, args } => {
            if name@ == seq!['"'] {
                Outcome::Panics
            } else {
                match called_function(name@) {
                    Some(Func::SingleRow(f)) => match args {
                        Some(a) => sim_call(select, s0, c, f, a@, target),
                        None => Outcome::Done((c, false)),
                    },
                    _ => Outcome::Done((c, false)),
                }
            }
        },
        Expr::Id(ident) => match spec_resolve_table(select, s0, ident) {
            Outcome::Panics => Outcome::Panics,
            Outcome::Done(r) => Outcome::Done((c, r is Ok)),
        },
        Expr::Qualified(tbl, ident) => match spec_resolve_qualified(select, s0, tbl, ident) {
            Outcome::Panics => Outcome::Panics,
            Outcome::Done(r) => Outcome::Done((c, r is Ok)),
        },
        Expr::Literal(lit) => match spec_translate_literal(s0, lit, target) {
            Outcome::Panics => Outcome::Panics,
            Outcome::Done((_, r)) => Outcome::Done((c, r is Ok)),
        },
        Expr::Unary(op, e) => match (op, *e) {
            (UnaryOperator::Negative, Expr::Literal(Literal::Numeric(v))) => match spec_translate_negative(
                s0,
                v,
                target,
            ) {
                Outcome::Panics => Outcome::Panics,
                Outcome::Done((_, r)) => Outcome::Done((c, r is Ok)),
            },
            _ => Outcome::Panics,
        },
        _ => Outcome::Panics,
    }
}

pub open spec fn sim_call(
    select: Select,
    s0: ProgramState,
    c: Counters,
    f: SingleRowFunc,
    args: Seq<Expr>,
    target: usize,
) -> Outcome<(Counters, bool)>
    decreases args, 1int,
{
    match f {
        SingleRowFunc::Coalesce => {
            if args.len() < 2 {
                Outcome::Done((c, false))
            } else if c.1 == i64::MIN {
                Outcome::Panics
            } else {
                sim_coalesce(select, s0, (c.0, (c.1 - 1) as i64), args, target)
            }
        },
        SingleRowFunc::Like => {
            if args.len() < 2 {
                Outcome::Done((c, false))
            } else {
                match sim_like(select, s0, c, args) {
                    Outcome::Done((c2, true)) => if target == usize::MAX {
                        Outcome::Panics
                    } else {
                        Outcome::Done((c2, true))
                    },
                    other => other,
                }
            }
        },
        SingleRowFunc::Abs => {
            if args.len() != 1 {
                Outcome::Done((c, false))
            } else if c.0 == usize::MAX {
                Outcome::Panics
            } else {
                sim_translate(select, s0, ((c.0 + 1) as usize, c.1), args[0], c.0)
            }
        },
    }
}

pub open spec fn sim_coalesce(select: Select, s0: ProgramState, c: Counters, args: Seq<Expr>, target: usize) -> Outcome<
    (Counters, bool),
>
    decreases args, 0int,
{
    if args.len() == 0 {
        Outcome::Done((c, true))
    } else {
        match sim_translate(select, s0, c, args[0], target) {
            Outcome::Done((c2, true)) => sim_coalesce(select, s0, c2, args.drop_first(), target),
            other => other,
        }
    }
}

pub open spec fn sim_like(select: Select, s0: ProgramState, c: Counters, args: Seq<Expr>) -> Outcome<
    (Counters, bool),
>
    decreases args, 0int,
{
    if args.len() == 0 {
        Outcome::Done((c, true))
    } else if c.0 == usize::MAX {
        Outcome::Panics
    } else {
        match sim_translate(select, s0, ((c.0 + 1) as usize, c.1), args[0], c.0) {
            Outcome::Done((c2, true)) => sim_like(select, s0, c2, args.drop_first()),
            other => other,
        }
    }
}

/// The simulation agrees with translation: both are undefined together,
/// and otherwise they reach the same counters and the same success.
pub open spec fn sim_agrees(t: Outcome<(ProgramState, Result<usize, Error>)>, m: Outcome<(Counters, bool)>, s0: ProgramState) -> bool {
    match (t, m) {
        (Outcome::Panics, Outcome::Panics) => true,
        (Outcome::Done((s2, r)), Outcome::Done((c2, ok))) => c2 == (s2.next_free_register, s2.next_free_label)
            && ok == (r is Ok) && s2.cursors == s0.cursors,
        _ => false,
    }
}

pub open spec fn sim_agrees_unit(t: Outcome<(ProgramState, Result<(), Error>)>, m: Outcome<(Counters, bool)>, s0: ProgramState) -> bool {
    match (t, m) {
        (Outcome::Panics, Outcome::Panics) => true,
        (Outcome::Done((s2, r)), Outcome::Done((c2, ok))) => c2 == (s2.next_free_register, s2.next_free_label)
            && ok == (r is Ok) && s2.cursors == s0.cursors,
        _ => false,
    }
}

proof fn lemma_sim_translate(select: Select, s0: ProgramState, s: ProgramState, expr: Expr, target: usize)
    requires
        s.cursors == s0.cursors,
    ensures
        sim_agrees(
            spec_translate(select, s, expr, target),
            sim_translate(select, s0, (s.next_free_register, s.next_free_label), expr, target),
            s0,
        ),
    decreases expr,
{
    match expr {
        Expr::Binary(e1, op, e2) => {
            if s.next_free_register < usize::MAX - 1 {
                let (s1, r1) = s.alloc_register();
                let (s2, r2) = s1.alloc_register();
                lemma_sim_translate(select, s0, s2, *e1, r1);
                match spec_translate(select, s2, *e1, r1) {
                    Outcome::Done((s3, Ok(_))) => {
                        lemma_sim_translate(select, s0, s3, *e2, r2);
                    },
                    _ => {},
                }
            }
        },
        Expr::FunctionCall { name, args } => {
            match args {
                Some(a) => match called_function(name@) {
                    Some(Func::SingleRow(f)) => lemma_sim_call(select, s0, s, f, a@, target),
                    _ => {},
                },
                None => {},
            }
        },
        _ => {},
    }
}

proof fn lemma_sim_call(select: Select, s0: ProgramState, s: ProgramState, f: SingleRowFunc, args: Seq<Expr>, target: usize)
    requires
        s.cursors == s0.cursors,
    ensures
        sim_agrees(
            spec_translate_call(select, s, f, args, target),
            sim_call(select, s0, (s.next_free_register, s.next_free_label), f, args, target),
            s0,
        ),
    decreases args, 1int,
{
    match f {
        SingleRowFunc::Coalesce => {
            if args.len() >= 2 && s.next_free_label > i64::MIN {
                let (s1, label) = s.allocate_label();
                lemma_sim_coalesce(select, s0, s1, args, target, label);
            }
        },
        SingleRowFunc::Like => {
            if args.len() >= 2 {
                lemma_sim_like(select, s0, s, args);
            }
        },
        SingleRowFunc::Abs => {
            if args.len() == 1 && s.next_free_register < usize::MAX {
                let (s1, reg) = s.alloc_register();
                lemma_sim_translate(select, s0, s1, args[0], reg);
            }
        },
    }
}

proof fn lemma_sim_coalesce(
    select: Select,
    s0: ProgramState,
    s: ProgramState,
    args: Seq<Expr>,
    target: usize,
    label: i64,
)
    requires
        s.cursors == s0.cursors,
    ensures
        sim_agrees_unit(
            crate::expr::spec_coalesce_args(select, s, args, target, label),
            sim_coalesce(select, s0, (s.next_free_register, s.next_free_label), args, target),
            s0,
        ),
    decreases args, 0int,
{
    if args.len() > 0 {
        lemma_sim_translate(select, s0, s, args[0], target);
        match spec_translate(select, s, args[0], target) {
            Outcome::Done((s1, Ok(reg))) => {
                let s2 = if args.len() > 1 {
                    s1.emit_with_label_dependency(crate::vdbe::InsnView::NotNull { reg, target_pc: label }, label)
                } else {
                    s1
                };
                lemma_sim_coalesce(select, s0, s2, args.drop_first(), target, label);
            },
            _ => {},
        }
    }
}

proof fn lemma_sim_like(select: Select, s0: ProgramState, s: ProgramState, args: Seq<Expr>)
    requires
        s.cursors == s0.cursors,
    ensures
        sim_agrees_unit(
            crate::expr::spec_like_args(select, s, args),
            sim_like(select, s0, (s.next_free_register, s.next_free_label), args),
            s0,
        ),
    decreases args, 0int,
{
    if args.len() > 0 && s.next_free_register < usize::MAX {
        let (s1, reg) = s.alloc_register();
        lemma_sim_translate(select, s0, s1, args[0], reg);
        match spec_translate(select, s1, args[0], reg) {
            Outcome::Done((s2, Ok(_))) => {
                if args[0] is Literal {
                    lemma_literal_emits_one(s1, args[0]->Literal_0, reg);
                }
                let s3 = if args[0] is Literal {
                    s2.mark_last_insn_constant()
                } else {
                    s2
                };
                lemma_sim_like(select, s0, s3, args.drop_first());
            },
            _ => {},
        }
    }
}


proof fn lemma_tables_with_column_step(src: Seq<crate::select::SrcTable>, name: Seq<char>, k: int)
    requires
        0 <= k < src.len(),
    ensures
        tables_with_column(src.take(k + 1), name) == if has_column(src[k], name) {
            tables_with_column(src.take(k), name).push(k)
        } else {
            tables_with_column(src.take(k), name)
        },
        tables_with_column(src.take(k), name).len() <= k,
    decreases k,
{
    assert(src.take(k + 1).drop_last() =~= src.take(k));
    assert(src.take(k + 1).last() == src[k]);
    if k > 0 {
        lemma_tables_with_column_step(src, name, k - 1);
    } else {
        assert(src.take(0) =~= Seq::<crate::select::SrcTable>::empty());
    }
}

/// Unqualified resolution: `None` where it panics, else whether it finds the column.
fn resolve_table_outcome(program: &ProgramBuilder, ident: &String, select: &Select) -> (res: Option<bool>)
    ensures
        match spec_resolve_table(*select, program@, *ident) {
            Outcome::Panics => res is None,
            Outcome::Done(r) => res == Some(r is Ok),
        },
{
    let ghost src = select.src_tables@;
    let mut count: usize = 0;
    let mut k: usize = 0;
    while k < select.src_tables.len()
        invariant
            k <= src.len(),
            src == select.src_tables@,
            forall|j: int|
                0 <= j < k ==> !(#[trigger] src[j].table is Pseudo || (has_column(src[j], ident@)
                    && first_cursor(program@.cursors, table_identifier(src[j])) is None)),
            count == tables_with_column(src.take(k as int), ident@).len(),
        decreases src.len() - k,
    {
        proof {
            lemma_tables_with_column_step(src, ident@, k as int);
        }
        let join = &select.src_tables[k];
        match join.table {
            Table::Pseudo(_) => {
                assert(src[k as int].table is Pseudo);
                return None;
            },
            Table::BTree(table) => {
                let table_identifier = match join.alias {
                    Some(alias) => alias.clone(),
                    None => table.name.clone(),
                };
                if let Some(_) = find_column(&table.columns, ident) {
                    assert(has_column(src[k as int], ident@));
                    match program.lookup_cursor_id(table_identifier.as_str()) {
                        None => {
                            assert(has_column(src[k as int], ident@) && first_cursor(
                                program@.cursors,
                                crate::expr::table_identifier(src[k as int]),
                            ) is None);
                            return None;
                        },
                        Some(_) => {
                            count = count + 1;
                        },
                    }
                }
            },
        }
        k = k + 1;
    }
    assert(src.take(src.len() as int) =~= src);
    Some(count == 1)
}

/// Qualified resolution: `None` where it panics, else whether it finds the column.
fn resolve_qualified_outcome(
    program: &ProgramBuilder,
    table_name: &String,
    ident: &String,
    select: &Select,
) -> (res: Option<bool>)
    ensures
        match spec_resolve_qualified(*select, program@, *table_name, *ident) {
            Outcome::Panics => res is None,
            Outcome::Done(r) => res == Some(r is Ok),
        },
{
    let mut k: usize = 0;
    while k < select.src_tables.len()
        invariant
            k <= select.src_tables@.len(),
            spec_resolve_qualified(*select, program@, *table_name, *ident)
                == spec_resolve_qualified_from(
                select.src_tables@,
                program@.cursors,
                *table_name,
                *ident,
                k as int,
            ),
        decreases select.src_tables@.len() - k,
    {
        let join = &select.src_tables[k];
        match join.table {
            Table::BTree(table) => {
                let table_identifier = match join.alias {
                    Some(alias) => alias.clone(),
                    None => table.name.clone(),
                };
                if table_identifier == *table_name {
                    if let Some(_) = find_column(&table.columns, ident) {
                        return match program.lookup_cursor_id(table_identifier.as_str()) {
                            Some(_) => Some(true),
                            None => None,
                        };
                    }
                }
            },
            Table::Pseudo(_) => {
                return None;
            },
        }
        k = k + 1;
    }
    Some(false)
}


/// Literal loads: `None` where they panic, else whether they succeed.
fn literal_outcome(program: &ProgramBuilder, lit: &Literal, target: usize) -> (res: Option<bool>)
    ensures
        match spec_translate_literal(program@, *lit, target) {
            Outcome::Panics => res is None,
            Outcome::Done((_, r)) => res == Some(r is Ok),
        },
{
    match lit {
        Literal::Numeric(v) => {
            if parse_i64(v.as_str()).is_some() || is_f64_literal(v.as_str()) {
                Some(true)
            } else {
                None
            }
        },
        Literal::String(t) => {
            let s = t.as_str();
            let n = s.unicode_len();
            if n >= 2 && (s.get_char(0) as u32) < 128 && (s.get_char(n - 1) as u32) < 128 {
                Some(true)
            } else {
                None
            }
        },
        Literal::Null => Some(true),
        _ => None,
    }
}

/// What translation does to the counters, computed without emitting.
fn simulate(program: &ProgramBuilder, select: &Select, c: Counters, expr: &Expr, target: usize) -> (res: Option<
    (Counters, bool),
>)
    ensures
        match sim_translate(*select, program@, c, *expr, target) {
            Outcome::Panics => res is None,
            Outcome::Done(d) => res == Some(d),
        },
    decreases expr,
{
    match expr {
        Expr::Binary(e1, op, e2) => {
            if c.0 >= usize::MAX - 1 {
                return None;
            }
            let c2 = match simulate(program, select, (c.0 + 2, c.1), e1, c.0) {
                None => return None,
                Some((c2, false)) => return Some((c2, false)),
                Some((c2, true)) => c2,
            };
            let c3 = match simulate(program, select, c2, e2, c.0 + 1) {
                None => return None,
                Some((c3, false)) => return Some((c3, false)),
                Some((c3, true)) => c3,
            };
            match op {
                Operator::NotEquals | Operator::Equals | Operator::Less | Operator::LessEquals
                | Operator::Greater | Operator::GreaterEquals => {
                    if c3.1 == i64::MIN {
                        None
                    } else {
                        Some(((c3.0, c3.1 - 1), true))
                    }
                },
                Operator::Add => Some((c3, true)),
                _ => None,
            }
        },
        Expr::FunctionCall { name, args } => {
            if is_lone_quote(name) {
                return None;
            }
            let normalized = normalize_ident(name.as_str());
            match Func::resolve(normalized.as_str()) {
                Some(Func::SingleRow(f)) => match args {
                    Some(a) => simulate_call(program, select, c, f, a, target),
                    None => Some((c, false)),
                },
                _ => Some((c, false)),
            }
        },
        Expr::Id(ident) => match resolve_table_outcome(program, ident, select) {
            None => None,
            Some(ok) => Some((c, ok)),
        },
        Expr::Qualified(tbl, ident) => match resolve_qualified_outcome(program, tbl, ident, select) {
            None => None,
            Some(ok) => Some((c, ok)),
        },
        Expr::Literal(lit) => match literal_outcome(program, lit, target) {
            None => None,
            Some(ok) => Some((c, ok)),
        },
        Expr::Unary(op, e) => match (op, &**e) {
            (UnaryOperator::Negative, Expr::Literal(Literal::Numeric(v))) => {
                match parse_i64(v.as_str()) {
                    Some(i) => if i == i64::MIN {
                        None
                    } else {
                        Some((c, true))
                    },
                    None => Some((c, is_f64_literal(v.as_str()))),
                }
            },
            _ => None,
        },
        _ => None,
    }
}

fn simulate_call(
    program: &ProgramBuilder,
    select: &Select,
    c: Counters,
    f: SingleRowFunc,
    args: &Vec<Expr>,
    target: usize,
) -> (res: Option<(Counters, bool)>)
    ensures
        match sim_call(*select, program@, c, f, args@, target) {
            Outcome::Panics => res is None,
            Outcome::Done(d) => res == Some(d),
        },
    decreases args@, 1int,
{
    match f {
        SingleRowFunc::Coalesce => {
            if args.len() < 2 {
                return Some((c, false));
            }
            if c.1 == i64::MIN {
                return None;
            }
            let mut cur: Counters = (c.0, c.1 - 1);
            let mut i: usize = 0;
            assert(args@.skip(0) =~= args@);
            while i < args.len()
                invariant
                    i <= args@.len(),
                    sim_call(*select, program@, c, f, args@, target) == sim_coalesce(
                        *select,
                        program@,
                        cur,
                        args@.skip(i as int),
                        target,
                    ),
                decreases args@.len() - i,
            {
                let ghost rest = args@.skip(i as int);
                assert(rest[0] == args@[i as int]);
                assert(rest.drop_first() =~= args@.skip(i + 1));
                match simulate(program, select, cur, &args[i], target) {
                    None => return None,
                    Some((c2, false)) => return Some((c2, false)),
                    Some((c2, true)) => {
                        cur = c2;
                    },
                }
                i = i + 1;
            }
            assert(args@.skip(i as int) =~= Seq::<Expr>::empty());
            Some((cur, true))
        },
        SingleRowFunc::Like => {
            if args.len() < 2 {
                return Some((c, false));
            }
            let mut cur: Counters = c;
            let mut i: usize = 0;
            assert(args@.skip(0) =~= args@);
            while i < args.len()
                invariant
                    i <= args@.len(),
                    args@.len() >= 2,
                    f == SingleRowFunc::Like,
                    sim_like(*select, program@, c, args@) == sim_like(
                        *select,
                        program@,
                        cur,
                        args@.skip(i as int),
                    ),
                decreases args@.len() - i,
            {
                let ghost rest = args@.skip(i as int);
                assert(rest[0] == args@[i as int]);
                assert(rest.drop_first() =~= args@.skip(i + 1));
                if cur.0 == usize::MAX {
                    return None;
                }
                match simulate(program, select, (cur.0 + 1, cur.1), &args[i], cur.0) {
                    None => return None,
                    Some((c2, false)) => return Some((c2, false)),
                    Some((c2, true)) => {
                        cur = c2;
                    },
                }
                i = i + 1;
            }
            assert(args@.skip(i as int) =~= Seq::<Expr>::empty());
            if target == usize::MAX {
                None
            } else {
                Some((cur, true))
            }
        },
        SingleRowFunc::Abs => {
            if args.len() != 1 {
                return Some((c, false));
            }
            if c.0 == usize::MAX {
                return None;
            }
            simulate(program, select, (c.0 + 1, c.1), &args[0], c.0)
        },
    }
}

/// Whether `translate_expr` is defined on these arguments.
pub fn translation_is_defined(
    program: &ProgramBuilder,
    select: &Select,
    expr: &Expr,
    target_register: usize,
) -> (res: bool)
    ensures
        res == !(spec_translate(*select, program@, *expr, target_register) is Panics),
{
    proof {
        lemma_sim_translate(*select, program@, program@, *expr, target_register);
    }
    let c = (program.next_free_register(), program.next_free_label());
    simulate(program, select, c, expr, target_register).is_some()
}


/// Whether analyzing an expression is defined: the calls at its head, down
/// through the first arguments of unknown functions, include no call with
/// `*`, no call of an unknown function without an argument list, and no
/// function named by a lone `"`.
pub open spec fn analysis_defined(expr: Expr) -> bool
    decreases expr,
{
    match expr {
        Expr::FunctionCall { name, args } => name@ != seq!['"'] && match called_function(name@) {
            None => match args {
                None => false,
                Some(a) => a@.len() == 0 || analysis_defined(a@[0]),
            },
            Some(_) => true,
        },
        Expr::FunctionCallStar { .. } => false,
        _ => true,
    }
}

/// Whether analysis is defined does not depend on what was found before.
proof fn lemma_analysis_defined(expr: Expr, info: ColumnInfoView)
    ensures
        (spec_analyze_head(expr, info) is Panics) == !analysis_defined(expr),
        (spec_analyze_expr(expr, info) is Panics) == !analysis_defined(expr),
    decreases expr,
{
    if let Expr::FunctionCall { name, args } = expr {
        if name@ != seq!['"'] && called_function(name@) is None {
            if let Some(a) = args {
                if a@.len() > 0 {
                    lemma_analysis_defined(a@[0], info);
                }
            }
        }
    }
}

/// Whether analyzing an expression is defined, whatever was found before.
pub fn analysis_is_defined(expr: &Expr) -> (res: bool)
    ensures
        res == analysis_defined(*expr),
        forall|info: ColumnInfoView| res == !(#[trigger] spec_analyze_expr(*expr, info) is Panics),
    decreases expr,
{
    let res = match expr {
        Expr::FunctionCall { name, args } => {
            if is_lone_quote(name) {
                false
            } else {
                let normalized = normalize_ident(name.as_str());
                match Func::resolve(normalized.as_str()) {
                    None => match args {
                        None => false,
                        Some(a) => a.len() == 0 || analysis_is_defined(&a[0]),
                    },
                    Some(_) => true,
                }
            }
        },
        Expr::FunctionCallStar { .. } => false,
        _ => true,
    };
    proof {
        assert forall|info: ColumnInfoView| res == !(#[trigger] spec_analyze_expr(*expr, info) is Panics) by {
            lemma_analysis_defined(*expr, info);
        }
    }
    res
}

/// Whether analyzing every result column is defined, when the source tables
/// have `total` columns together (`None`: more than a `usize` holds).
fn columns_are_analyzable(columns: &Vec<ResultColumn>, total: Option<usize>, Ghost(t): Ghost<int>) -> (res: bool)
    requires
        match total {
            Some(x) => x == t,
            None => t > usize::MAX,
        },
    ensures
        res == columns_analyzable(columns@, t),
{
    let mut i: usize = 0;
    while i < columns.len()
        invariant
            i <= columns@.len(),
            match total {
                Some(x) => x == t,
                None => t > usize::MAX,
            },
            forall|j: int| 0 <= j < i ==> !(#[trigger] spec_column_info(columns@[j], t) is Panics),
        decreases columns@.len() - i,
    {
        let ok = match &columns[i] {
            ResultColumn::Star => total.is_some(),
            ResultColumn::Expr(e, _) => analysis_is_defined(e),
            ResultColumn::TableStar(_) => true,
        };
        if !ok {
            assert(spec_column_info(columns@[i as int], t) is Panics);
            return false;
        }
        i = i + 1;
    }
    true
}

proof fn lemma_total_schema_columns_push(schema: Schema, idxs: Seq<int>, i: int)
    ensures
        total_schema_columns(schema, idxs.push(i)) == total_schema_columns(schema, idxs)
            + schema.tables@[i].columns@.len(),
        total_schema_columns(schema, idxs) >= 0,
    decreases idxs.len(),
{
    assert(idxs.push(i).drop_last() =~= idxs);
    if idxs.len() > 0 {
        lemma_total_schema_columns_push(schema, idxs.drop_last(), idxs.last());
        assert(idxs.drop_last().push(idxs.last()) =~= idxs);
    }
}

/// Adds the column count of a table to a total that may already exceed a `usize`.
fn add_columns(total: Option<usize>, n: usize, Ghost(t): Ghost<int>) -> (res: Option<usize>)
    requires
        t >= 0,
        match total {
            Some(x) => x == t,
            None => t > usize::MAX,
        },
    ensures
        match res {
            Some(x) => x == t + n,
            None => t + n > usize::MAX,
        },
{
    match total {
        Some(x) => if x <= usize::MAX - n {
            Some(x + n)
        } else {
            None
        },
        None => None,
    }
}

/// Whether `build_select` is defined on these arguments.
pub fn select_is_plannable(schema: &Schema, select: &ast::Select) -> (res: bool)
    ensures
        res == !(spec_build_select(*schema, *select) is Panics),
{
    match &select.body.select {
        OneSelect::Values => false,
        OneSelect::Select { columns, from: None, .. } => {
            columns_are_analyzable(columns, Some(0), Ghost(0))
        },
        OneSelect::Select { columns, from: Some(from), .. } => {
            let first = match &from.select {
                Some(first) => first,
                None => return false,
            };
            let ghost sources = from_sources(*first, from.joins);
            let ghost whole = resolve_sources(*schema, sources);
            assert(sources[0].0 == *first);
            let name = match first {
                SelectTable::Table(name, _) => name,
                _ => return false,
            };
            let table = match schema.get_table(name.as_str()) {
                Some(t) => t,
                None => return true,
            };
            proof {
                lemma_first_table_named(schema.tables@, name@);
            }
            let ghost first_idx = first_table_named(schema.tables@, name@).unwrap();
            let ghost mut idxs: Seq<int> = seq![first_idx];
            proof {
                lemma_total_schema_columns_push(*schema, Seq::empty(), first_idx);
                assert(Seq::<int>::empty().push(first_idx) =~= idxs);
            }
            let mut total: Option<usize> = Some(table.columns.len());
            assert(sources.skip(1) =~= sources.drop_first());
            assert(sources.drop_first() =~= match from.joins {
                Some(j) => j@.map_values(|jt: JoinedSelectTable| (jt.table, Some(jt))),
                None => Seq::empty(),
            });
            let ghost mut n_sources: int = 1;
            assert(whole == match resolve_sources(*schema, sources.skip(1)) {
                Outcome::Done(Ok(rest)) => Outcome::Done(Ok(idxs + rest)),
                other => other,
            });
            assert(spec_build_select(*schema, *select) == match whole {
                Outcome::Done(Ok(idxs)) => if columns_analyzable(
                    columns@,
                    total_schema_columns(*schema, idxs),
                ) {
                    Outcome::Done(Ok(idxs))
                } else {
                    Outcome::Panics
                },
                other => other,
            });
            if let Some(joins) = &from.joins {
                let mut i: usize = 0;
                while i < joins.len()
                    invariant
                        i <= joins@.len(),
                        from.joins == Some(*joins),
                        sources == from_sources(*first, from.joins),
                        sources.len() == joins@.len() + 1,
                        whole == resolve_sources(*schema, sources),
                        whole == match resolve_sources(*schema, sources.skip(i + 1)) {
                            Outcome::Done(Ok(rest)) => Outcome::Done(Ok(idxs + rest)),
                            other => other,
                        },
                        n_sources == i + 1,
                        spec_build_select(*schema, *select) == match whole {
                            Outcome::Done(Ok(idxs)) => if columns_analyzable(
                                columns@,
                                total_schema_columns(*schema, idxs),
                            ) {
                                Outcome::Done(Ok(idxs))
                            } else {
                                Outcome::Panics
                            },
                            other => other,
                        },
                        match total {
                            Some(x) => x == total_schema_columns(*schema, idxs),
                            None => total_schema_columns(*schema, idxs) > usize::MAX,
                        },
                    decreases joins@.len() - i,
                {
                    let join = &joins[i];
                    let ghost rest = sources.skip(i + 1);
                    assert(rest[0] == sources[i + 1]);
                    assert(sources[i + 1] == (join.table, Some(*join)));
                    assert(rest.drop_first() =~= sources.skip(i + 2));
                    let name = match &join.table {
                        SelectTable::Table(name, _) => name,
                        _ => return false,
                    };
                    let table = match schema.get_table(name.as_str()) {
                        Some(t) => t,
                        None => return true,
                    };
                    proof {
                        lemma_first_table_named(schema.tables@, name@);
                    }
                    let ghost idx = first_table_named(schema.tables@, name@).unwrap();
                    proof {
                        lemma_total_schema_columns_push(*schema, idxs, idx);
                    }
                    total = add_columns(total, table.columns.len(), Ghost(total_schema_columns(*schema, idxs)));
                    proof {
                        let old_idxs = idxs;
                        idxs = idxs.push(idx);
                        match resolve_sources(*schema, sources.skip(i + 2)) {
                            Outcome::Done(Ok(r)) => {
                                assert(old_idxs + (seq![idx] + r) =~= idxs + r);
                            },
                            _ => {},
                        }
                    }
                    i = i + 1;
                    proof {
                        n_sources = n_sources + 1;
                    }
                }
            }
            assert(sources.len() == n_sources);
            assert(whole == match resolve_sources(*schema, sources.skip(n_sources)) {
                Outcome::Done(Ok(rest)) => Outcome::Done(Ok(idxs + rest)),
                other => other,
            });
            assert(sources.skip(n_sources) =~= Seq::empty());
            assert(idxs + Seq::<int>::empty() =~= idxs);
            assert(whole == Outcome::Done(Ok::<Seq<int>, Error>(idxs)));
            columns_are_analyzable(columns, total, Ghost(total_schema_columns(*schema, idxs)))
        },
    }
}

/// Translates `expr` into `target_register` where translation is defined;
/// where it is not, returns `None` and leaves the program as it was.
pub fn try_translate_expr(
    program: &mut ProgramBuilder,
    select: &Select,
    expr: &Expr,
    target_register: usize,
) -> (res: Option<Result<usize, Error>>)
    ensures
        match res {
            Some(r) => spec_translate(*select, old(program)@, *expr, target_register)
                == Outcome::Done((final(program)@, r)),
            None => spec_translate(*select, old(program)@, *expr, target_register) is Panics
                && final(program)@ == old(program)@,
        },
{
    if translation_is_defined(program, select, expr, target_register) {
        Some(translate_expr(program, select, expr, target_register))
    } else {
        None
    }
}

/// Analyzes `expr` into `column_info_out` where analysis is defined, and
/// says whether it was; where it is not, `column_info_out` is left as it was.
pub fn try_analyze_expr<'a>(expr: &'a Expr, column_info_out: &mut ColumnInfo<'a>) -> (res: bool)
    ensures
        res == !(spec_analyze_expr(*expr, old(column_info_out)@) is Panics),
        res ==> spec_analyze_expr(*expr, old(column_info_out)@) == Outcome::Done(final(column_info_out)@),
        !res ==> final(column_info_out)@ == old(column_info_out)@,
{
    if analysis_is_defined(expr) {
        analyze_expr(expr, column_info_out);
        true
    } else {
        false
    }
}

/// Analyzes each result column against the source tables where analysis
/// is defined; `None` where it is not.
pub fn try_analyze_columns<'a>(columns: &'a Vec<ResultColumn>, joins: &Vec<SrcTable>) -> (res: Option<
    Vec<ColumnInfo<'a>>,
>)
    ensures
        res is None <==> !columns_analyzable(columns@, total_columns(joins@)),
        res matches Some(infos) ==> {
            &&& infos@.len() == columns@.len()
            &&& forall|i: int|
                0 <= i < columns@.len() ==> spec_column_info(columns@[i], total_columns(joins@))
                    == Outcome::Done(#[trigger] infos@[i]@)
        },
{
    let mut total: Option<usize> = Some(0);
    let mut i: usize = 0;
    assert(joins@.take(0) =~= Seq::<SrcTable>::empty());
    while i < joins.len()
        invariant
            i <= joins@.len(),
            total_columns(joins@.take(i as int)) >= 0,
            match total {
                Some(x) => x == total_columns(joins@.take(i as int)),
                None => total_columns(joins@.take(i as int)) > usize::MAX,
            },
        decreases joins@.len() - i,
    {
        assert(joins@.take(i + 1).drop_last() =~= joins@.take(i as int));
        assert(joins@.take(i + 1).last() == joins@[i as int]);
        let n = joins[i].table.columns().len();
        total = add_columns(total, n, Ghost(total_columns(joins@.take(i as int))));
        i = i + 1;
    }
    assert(joins@.take(i as int) =~= joins@);
    if columns_are_analyzable(columns, total, Ghost(total_columns(joins@))) {
        Some(analyze_columns(columns, joins))
    } else {
        None
    }
}

/// Plans a `SELECT` where planning is defined; `None` where it is not.
pub fn try_build_select<'a>(schema: &'a Schema, select: &'a ast::Select) -> (res: Option<
    Result<Select<'a>, Error>,
>)
    ensures
        res is None <==> spec_build_select(*schema, *select) is Panics,
        res matches Some(r) ==> plans_to(*schema, *select, r),
{
    if select_is_plannable(schema, select) {
        Some(build_select(schema, select))
    } else {
        None
    }
}

} // verus!
