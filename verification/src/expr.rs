//! Translation of SQL expressions into virtual-machine instructions, and the
//! analysis and resolution that it rests on.
use vstd::pervasive::unreached;
use vstd::prelude::*;
use vstd::string::{StrSliceExecFns, StringExecFns};

use crate::ast::{
    self, Expr, JoinedSelectTable, Literal, OneSelect, Operator, ResultColumn, SelectTable,
    UnaryOperator,
};
use crate::error::Error;
use crate::function::{Func, SingleRowFunc};
use crate::schema::{first_table_named, lemma_first_table_named, Column, Schema, Table, Type};
use crate::select::{ColumnInfo, ColumnInfoView, Select, SrcTable};
use crate::util::{
    is_f64_literal, normalize_ident, parse_i64, spec_is_f64_literal, spec_normalize_ident,
    spec_parse_i64,
};
use crate::vdbe::{first_cursor, BranchOffset, Insn, InsnView, ProgramBuilder, ProgramState};

verus! {

/// The result of a step that the planner may be unable to take: `Panics`
/// stands for the inputs on which planning is not defined (a form it does
/// not translate, or a counter that would overflow).
pub enum Outcome<T> {
    Done(T),
    Panics,
}

// ---------------------------------------------------------------------------
// Column resolution
// ---------------------------------------------------------------------------

/// The name a source table goes by: its alias if it has one, else its name.
pub open spec fn table_identifier(t: SrcTable) -> Seq<char> {
    match t.alias {
        Some(a) => a@,
        None => match t.table {
            Table::BTree(b) => b.name@,
            Table::Pseudo(_) => Seq::empty(),
        },
    }
}

/// Index of the first column named `name`.
pub open spec fn first_column_named(columns: Seq<Column>, name: Seq<char>) -> Option<int>
    decreases columns.len(),
{
    if columns.len() == 0 {
        None
    } else if columns[0].name@ == name {
        Some(0)
    } else {
        match first_column_named(columns.drop_first(), name) {
            Some(i) => Some(i + 1),
            None => None,
        }
    }
}

pub proof fn lemma_first_column_named(columns: Seq<Column>, name: Seq<char>)
    ensures
        first_column_named(columns, name) matches Some(i) ==> 0 <= i < columns.len()
            && columns[i].name@ == name && forall|j: int| 0 <= j < i ==> columns[j].name@ != name,
        first_column_named(columns, name) is None ==> forall|j: int|
            0 <= j < columns.len() ==> columns[j].name@ != name,
    decreases columns.len(),
{
    if columns.len() > 0 {
        lemma_first_column_named(columns.drop_first(), name);
        assert forall|j: int| 1 <= j < columns.len() implies columns[j]
            == columns.drop_first()[j - 1] by {}
    }
}

/// A b-tree source table has a column with this name.
pub open spec fn has_column(t: SrcTable, name: Seq<char>) -> bool {
    &&& t.table is BTree
    &&& first_column_named(t.table.spec_columns(), name) is Some
}

/// What resolving a column reference finds: the column's index in its
/// table, the index of the source table, and the table's cursor.
pub type Resolved = (usize, int, usize);

/// The column that `table_name.ident` denotes: the first source table, in
/// order, that goes by `table_name` and has such a column. Reaching a
/// pseudo table first, or a table without an open cursor, panics.
pub open spec fn spec_resolve_qualified_from(
    src: Seq<SrcTable>,
    cursors: Seq<Option<Seq<char>>>,
    table_name: String,
    ident: String,
    k: int,
) -> Outcome<Result<Resolved, Error>>
    decreases src.len() - k,
{
    if k < 0 || k >= src.len() {
        Outcome::Done(Err(Error::QualifiedColumnNotFound(table_name, ident)))
    } else if src[k].table is Pseudo {
        Outcome::Panics
    } else if table_identifier(src[k]) == table_name@ && has_column(src[k], ident@) {
        match first_cursor(cursors, table_identifier(src[k])) {
            Some(c) => Outcome::Done(
                Ok(
                    (
                        first_column_named(src[k].table.spec_columns(), ident@).unwrap() as usize,
                        k,
                        c as usize,
                    ),
                ),
            ),
            None => Outcome::Panics,
        }
    } else {
        spec_resolve_qualified_from(src, cursors, table_name, ident, k + 1)
    }
}

pub open spec fn spec_resolve_qualified(
    select: Select,
    state: ProgramState,
    table_name: String,
    ident: String,
) -> Outcome<Result<Resolved, Error>> {
    spec_resolve_qualified_from(select.src_tables@, state.cursors, table_name, ident, 0)
}

/// Resolves a column reference qualified by a table name or alias.
pub fn resolve_ident_qualified<'a>(
    program: &ProgramBuilder,
    table_name: &String,
    ident: &String,
    select: &'a Select,
) -> (res: Result<(usize, &'a Column, usize), Error>)
    requires
        !(spec_resolve_qualified(*select, program@, *table_name, *ident) is Panics),
    ensures
        match spec_resolve_qualified(*select, program@, *table_name, *ident) {
            Outcome::Done(Ok((idx, k, cursor))) => res matches Ok((i, col, c)) && i == idx && c
                == cursor && *col == select.src_tables@[k].table.spec_columns()[idx as int],
            Outcome::Done(Err(e)) => res == Err::<(usize, &Column, usize), Error>(e),
            Outcome::Panics => false,
        },
{
    let mut k: usize = 0;
    while k < select.src_tables.len()
        invariant
            k <= select.src_tables@.len(),
            spec_resolve_qualified(*select, program@, *table_name, *ident)
                == spec_resolve_qualified_from(
                select.src_tables@,
                program@.cursors,
                *table_name,
                *ident,
                k as int,
            ),
            !(spec_resolve_qualified(*select, program@, *table_name, *ident) is Panics),
        decreases select.src_tables@.len() - k,
    {
        let join = &select.src_tables[k];
        match join.table {
            Table::BTree(table) => {
                let table_identifier = match join.alias {
                    Some(alias) => alias.clone(),
                    None => table.name.clone(),
                };
                if table_identifier == *table_name {
                    let found = find_column(&table.columns, ident);
                    if let Some((idx, col)) = found {
                        let cursor_id = program.resolve_cursor_id(table_identifier.as_str());
                        return Ok((idx, col, cursor_id));
                    }
                }
            },
            Table::Pseudo(_) => unreached(),
        }
        k = k + 1;
    }
    Err(Error::QualifiedColumnNotFound(table_name.clone(), ident.clone()))
}

/// Indices of the source tables, in order, that have a column named `name`.
pub open spec fn tables_with_column(src: Seq<SrcTable>, name: Seq<char>) -> Seq<int>
    decreases src.len(),
{
    if src.len() == 0 {
        Seq::empty()
    } else {
        let rest = tables_with_column(src.drop_last(), name);
        if has_column(src.last(), name) {
            rest.push(src.len() - 1)
        } else {
            rest
        }
    }
}

/// Resolving an unqualified column panics when a source is a pseudo table,
/// or when a table that has the column has no open cursor.
pub open spec fn resolve_table_panics(src: Seq<SrcTable>, cursors: Seq<Option<Seq<char>>>, name: Seq<char>) -> bool {
    exists|k: int|
        0 <= k < src.len() && (#[trigger] src[k].table is Pseudo || (has_column(src[k], name)
            && first_cursor(cursors, table_identifier(src[k])) is None))
}

/// The column that an unqualified name denotes: it must belong to exactly
/// one source table; then it is that table's first column of that name.
pub open spec fn spec_resolve_table(select: Select, state: ProgramState, ident: String) -> Outcome<
    Result<Resolved, Error>,
> {
    let src = select.src_tables@;
    let found = tables_with_column(src, ident@);
    if resolve_table_panics(src, state.cursors, ident@) {
        Outcome::Panics
    } else if found.len() == 1 {
        let k = found[0];
        Outcome::Done(
            Ok(
                (
                    first_column_named(src[k].table.spec_columns(), ident@).unwrap() as usize,
                    k,
                    first_cursor(state.cursors, table_identifier(src[k])).unwrap() as usize,
                ),
            ),
        )
    } else if found.len() == 0 {
        Outcome::Done(Err(Error::ColumnNotFound(ident)))
    } else {
        Outcome::Done(Err(Error::AmbiguousColumn(ident)))
    }
}

proof fn lemma_tables_with_column(src: Seq<SrcTable>, name: Seq<char>)
    ensures
        forall|j: int|
            0 <= j < tables_with_column(src, name).len() ==> 0 <= #[trigger] tables_with_column(
                src,
                name,
            )[j] < src.len() && has_column(src[tables_with_column(src, name)[j]], name),
    decreases src.len(),
{
    if src.len() > 0 {
        let rest = tables_with_column(src.drop_last(), name);
        lemma_tables_with_column(src.drop_last(), name);
        let all = tables_with_column(src, name);
        assert forall|j: int| 0 <= j < all.len() implies 0 <= #[trigger] all[j] < src.len()
            && has_column(src[all[j]], name) by {
            if j < rest.len() {
                assert(all[j] == rest[j]);
                assert(src.drop_last()[rest[j]] == src[rest[j]]);
            }
        }
    }
}

/// Resolves an unqualified column name against all source tables.
pub fn resolve_ident_table<'a>(program: &ProgramBuilder, ident: &String, select: &'a Select) -> (res:
    Result<(usize, &'a Column, usize), Error>)
    requires
        !(spec_resolve_table(*select, program@, *ident) is Panics),
    ensures
        match spec_resolve_table(*select, program@, *ident) {
            Outcome::Done(Ok((idx, k, cursor))) => res matches Ok((i, col, c)) && i == idx && c
                == cursor && *col == select.src_tables@[k].table.spec_columns()[idx as int],
            Outcome::Done(Err(e)) => res == Err::<(usize, &Column, usize), Error>(e),
            Outcome::Panics => false,
        },
{
    let ghost src = select.src_tables@;
    let mut found: Vec<(usize, &'a Column, usize)> = Vec::new();
    let mut k: usize = 0;
    while k < select.src_tables.len()
        invariant
            k <= src.len(),
            src == select.src_tables@,
            !resolve_table_panics(src, program@.cursors, ident@),
            found@.len() == tables_with_column(src.take(k as int), ident@).len(),
            forall|j: int|
                0 <= j < found@.len() ==> {
                    let t = #[trigger] tables_with_column(src.take(k as int), ident@)[j];
                    &&& found@[j].0 == first_column_named(src[t].table.spec_columns(), ident@).unwrap()
                    &&& *found@[j].1 == src[t].table.spec_columns()[found@[j].0 as int]
                    &&& found@[j].2 == first_cursor(program@.cursors, table_identifier(src[t])).unwrap()
                },
        decreases src.len() - k,
    {
        let ghost before = src.take(k as int);
        let ghost after = src.take(k + 1);
        assert(after.drop_last() =~= before);
        assert(after.last() == src[k as int]);
        proof {
            lemma_tables_with_column(before, ident@);
        }
        let join = &select.src_tables[k];
        match join.table {
            Table::BTree(table) => {
                let table_identifier = match join.alias {
                    Some(alias) => alias.clone(),
                    None => table.name.clone(),
                };
                let res = find_column(&table.columns, ident);
                if let Some((idx, col)) = res {
                    assert(has_column(src[k as int], ident@));
                    let cursor_id = program.resolve_cursor_id(table_identifier.as_str());
                    found.push((idx, col, cursor_id));
                }
            },
            Table::Pseudo(_) => {
                assert(src[k as int].table is Pseudo);
                unreached()
            },
        }
        k = k + 1;
    }
    assert(src.take(src.len() as int) =~= src);
    proof {
        lemma_tables_with_column(src, ident@);
    }
    if found.len() == 1 {
        return Ok(found[0]);
    }
    if found.len() == 0 {
        return Err(Error::ColumnNotFound(ident.clone()));
    }
    Err(Error::AmbiguousColumn(ident.clone()))
}

/// The first column of `columns` named `name`.
pub(crate) fn find_column<'c>(columns: &'c Vec<Column>, name: &String) -> (res: Option<(usize, &'c Column)>)
    ensures
        match first_column_named(columns@, name@) {
            Some(i) => res matches Some((idx, col)) && idx == i && *col == columns@[i],
            None => res is None,
        },
{
    proof {
        lemma_first_column_named(columns@, name@);
    }
    let mut i: usize = 0;
    while i < columns.len()
        invariant
            i <= columns@.len(),
            forall|j: int| 0 <= j < i ==> columns@[j].name@ != name@,
        decreases columns@.len() - i,
    {
        if columns[i].name == *name {
            proof {
                lemma_first_column_named(columns@, name@);
            }
            return Some((i, &columns[i]));
        }
        i = i + 1;
    }
    None
}

/// Applies the real affinity of a column to the register its value was
/// read into: a `REAL` column gets a `RealAffinity` instruction.
pub open spec fn spec_apply_affinity(state: ProgramState, col: Column, target: usize) -> ProgramState {
    if col.ty == Type::Real {
        state.emit(InsnView::RealAffinity { register: target })
    } else {
        state
    }
}

/// Emits a `RealAffinity` for `target_register` when the column is `REAL`.
pub fn maybe_apply_affinity(col: &Column, target_register: usize, program: &mut ProgramBuilder)
    ensures
        final(program)@ == spec_apply_affinity(old(program)@, *col, target_register),
{
    if col.ty == Type::Real {
        program.emit_insn(Insn::RealAffinity { register: target_register });
    }
}


// ---------------------------------------------------------------------------
// Translation
// ---------------------------------------------------------------------------

/// What translating an expression leaves behind: the program state after
/// it, and the register holding the value or the error that stopped it.
pub type Translation = Outcome<(ProgramState, Result<usize, Error>)>;

/// Evaluates a conditional jump into 0 or 1: `target` is set to 1, the jump
/// skips the reset to 0 when its condition holds, and `label` is made to
/// stand for the instruction after the reset.
pub open spec fn spec_jump_expr(state: ProgramState, insn: InsnView, target: usize, label: BranchOffset) -> ProgramState {
    state.emit(InsnView::Integer { value: 1, dest: target }).emit_with_label_dependency(
        insn,
        label,
    ).emit(InsnView::Integer { value: 0, dest: target }).preassign_label(label)
}

/// Emits a conditional jump so that it leaves 1 in `target_register` when
/// its condition holds and 0 otherwise.
fn wrap_eval_jump_expr(
    program: &mut ProgramBuilder,
    insn: Insn,
    target_register: usize,
    if_true_label: BranchOffset,
)
    ensures
        final(program)@ == spec_jump_expr(old(program)@, insn@, target_register, if_true_label),
{
    program.emit_insn(Insn::Integer { value: 1, dest: target_register });
    program.emit_insn_with_label_dependency(insn, if_true_label);
    program.emit_insn(Insn::Integer { value: 0, dest: target_register });
    program.preassign_label_to_next_insn(if_true_label);
}

/// The comparison operators, which translate to conditional jumps.
pub open spec fn is_comparison(op: Operator) -> bool {
    match op {
        Operator::NotEquals | Operator::Equals | Operator::Less | Operator::LessEquals
        | Operator::Greater | Operator::GreaterEquals => true,
        _ => false,
    }
}

/// The jump that a comparison operator translates to.
pub open spec fn comparison_insn(op: Operator, lhs: usize, rhs: usize, label: BranchOffset) -> InsnView {
    match op {
        Operator::NotEquals => InsnView::Ne { lhs, rhs, target_pc: label },
        Operator::Equals => InsnView::Eq { lhs, rhs, target_pc: label },
        Operator::Less => InsnView::Lt { lhs, rhs, target_pc: label },
        Operator::LessEquals => InsnView::Le { lhs, rhs, target_pc: label },
        Operator::Greater => InsnView::Gt { lhs, rhs, target_pc: label },
        _ => InsnView::Ge { lhs, rhs, target_pc: label },
    }
}

/// Applies a binary operator to the registers holding its operands.
pub open spec fn spec_binary_op(state: ProgramState, op: Operator, lhs: usize, rhs: usize, target: usize) -> Translation {
    if is_comparison(op) {
        if state.next_free_label == i64::MIN {
            Outcome::Panics
        } else {
            let (s1, label) = state.allocate_label();
            Outcome::Done(
                (spec_jump_expr(s1, comparison_insn(op, lhs, rhs, label), target, label), Ok(target)),
            )
        }
    } else if op == Operator::Add {
        Outcome::Done((state.emit(InsnView::Add { lhs, rhs, dest: target }), Ok(target)))
    } else {
        Outcome::Panics
    }
}

/// Reads a resolved column into `target`: the row id for the primary key,
/// the stored column otherwise, then the column's affinity.
pub open spec fn spec_read_column(state: ProgramState, col: Column, idx: usize, cursor: usize, target: usize) -> ProgramState {
    let read = if col.primary_key {
        state.emit(InsnView::RowId { cursor_id: cursor, dest: target })
    } else {
        state.emit(InsnView::Column { cursor_id: cursor, column: idx, dest: target })
    };
    spec_apply_affinity(read, col, target)
}

/// A string literal's text can be cut at its first and last byte: it has
/// at least two characters and both ends are ASCII (its quotes).
pub open spec fn string_literal_sliceable(t: Seq<char>) -> bool {
    &&& t.len() >= 2
    &&& (t[0] as u32) < 128
    &&& (t[t.len() - 1] as u32) < 128
}

/// Translates a literal into the instruction that loads it.
pub open spec fn spec_translate_literal(state: ProgramState, lit: Literal, target: usize) -> Translation {
    match lit {
        Literal::Numeric(v) => match spec_parse_i64(v@) {
            Some(i) => Outcome::Done((state.emit(InsnView::Integer { value: i, dest: target }), Ok(target))),
            None => if spec_is_f64_literal(v@) {
                Outcome::Done(
                    (
                        state.emit(InsnView::Real { literal: v@, negative: false, dest: target }),
                        Ok(target),
                    ),
                )
            } else {
                Outcome::Panics
            },
        },
        Literal::String(t) => if string_literal_sliceable(t@) {
            Outcome::Done(
                (
                    state.emit(InsnView::String8 { value: t@.subrange(1, t@.len() - 1), dest: target }),
                    Ok(target),
                ),
            )
        } else {
            Outcome::Panics
        },
        Literal::Null => Outcome::Done((state.emit(InsnView::Null { dest: target }), Ok(target))),
        _ => Outcome::Panics,
    }
}

/// Translates a negated numeric literal.
pub open spec fn spec_translate_negative(state: ProgramState, v: String, target: usize) -> Translation {
    match spec_parse_i64(v@) {
        Some(i) => if i == i64::MIN {
            Outcome::Panics
        } else {
            Outcome::Done((state.emit(InsnView::Integer { value: (-i) as i64, dest: target }), Ok(target)))
        },
        None => if spec_is_f64_literal(v@) {
            Outcome::Done(
                (state.emit(InsnView::Real { literal: v@, negative: true, dest: target }), Ok(target)),
            )
        } else {
            Outcome::Done((state, Err(Error::InvalidNumber(v))))
        },
    }
}

/// The function that a call names, after normalization.
pub open spec fn called_function(name: Seq<char>) -> Option<Func> {
    Func::spec_resolve(spec_normalize_ident(name))
}

/// What translating an expression into `target` does to the program.
pub open spec fn spec_translate(select: Select, state: ProgramState, expr: Expr, target: usize) -> Translation
    decreases expr,
{
    match expr {
        Expr::Binary(e1, op, e2) => {
            if state.next_free_register >= usize::MAX - 1 {
                Outcome::Panics
            } else {
                let (s1, r1) = state.alloc_register();
                let (s2, r2) = s1.alloc_register();
                match spec_translate(select, s2, *e1, r1) {
                    Outcome::Panics => Outcome::Panics,
                    Outcome::Done((s3, Err(e))) => Outcome::Done((s3, Err(e))),
                    Outcome::Done((s3, Ok(_))) => match spec_translate(select, s3, *e2, r2) {
                        Outcome::Panics => Outcome::Panics,
                        Outcome::Done((s4, Err(e))) => Outcome::Done((s4, Err(e))),
                        Outcome::Done((s4, Ok(_))) => spec_binary_op(s4, op, r1, r2, target),
                    },
                }
            }
        },
        Expr::FunctionCall { name, args } => {
            if name@ == seq!['"'] {
                Outcome::Panics
            } else {
                match called_function(name@) {
                    None => Outcome::Done((state, Err(Error::UnknownFunction(name)))),
                    Some(Func::Agg(_)) => Outcome::Done(
                        (state, Err(Error::AggregateInNonAggregateContext)),
                    ),
                    Some(Func::SingleRow(f)) => match args {
                        None => Outcome::Done((state, Err(Error::NoArguments(f)))),
                        Some(a) => spec_translate_call(select, state, f, a@, target),
                    },
                }
            }
        },
        Expr::Id(ident) => match spec_resolve_table(select, state, ident) {
            Outcome::Panics => Outcome::Panics,
            Outcome::Done(Err(e)) => Outcome::Done((state, Err(e))),
            Outcome::Done(Ok((idx, k, cursor))) => Outcome::Done(
                (
                    spec_read_column(
                        state,
                        select.src_tables@[k].table.spec_columns()[idx as int],
                        idx,
                        cursor,
                        target,
                    ),
                    Ok(target),
                ),
            ),
        },
        Expr::Qualified(tbl, ident) => match spec_resolve_qualified(select, state, tbl, ident) {
            Outcome::Panics => Outcome::Panics,
            Outcome::Done(Err(e)) => Outcome::Done((state, Err(e))),
            Outcome::Done(Ok((idx, k, cursor))) => Outcome::Done(
                (
                    spec_read_column(
                        state,
                        select.src_tables@[k].table.spec_columns()[idx as int],
                        idx,
                        cursor,
                        target,
                    ),
                    Ok(target),
                ),
            ),
        },
        Expr::Literal(lit) => spec_translate_literal(state, lit, target),
        Expr::Unary(op, e) => match (op, *e) {
            (UnaryOperator::Negative, Expr::Literal(Literal::Numeric(v))) => spec_translate_negative(
                state,
                v,
                target,
            ),
            _ => Outcome::Panics,
        },
        _ => Outcome::Panics,
    }
}

/// Translates a call of a single-row function with an argument list.
pub open spec fn spec_translate_call(
    select: Select,
    state: ProgramState,
    f: SingleRowFunc,
    args: Seq<Expr>,
    target: usize,
) -> Translation
    decreases args, 1int,
{
    match f {
        SingleRowFunc::Coalesce => {
            if args.len() < 2 {
                Outcome::Done((state, Err(Error::WrongArgumentCount(f))))
            } else if state.next_free_label == i64::MIN {
                Outcome::Panics
            } else {
                let (s1, label) = state.allocate_label();
                match spec_coalesce_args(select, s1, args, target, label) {
                    Outcome::Panics => Outcome::Panics,
                    Outcome::Done((s2, Err(e))) => Outcome::Done((s2, Err(e))),
                    Outcome::Done((s2, Ok(_))) => Outcome::Done(
                        (s2.preassign_label(label), Ok(target)),
                    ),
                }
            }
        },
        SingleRowFunc::Like => {
            if args.len() < 2 {
                Outcome::Done((state, Err(Error::WrongArgumentCount(f))))
            } else {
                match spec_like_args(select, state, args) {
                    Outcome::Panics => Outcome::Panics,
                    Outcome::Done((s2, Err(e))) => Outcome::Done((s2, Err(e))),
                    Outcome::Done((s2, Ok(_))) => if target == usize::MAX {
                        Outcome::Panics
                    } else {
                        Outcome::Done(
                            (
                                s2.emit(
                                    InsnView::Function {
                                        start_reg: (target + 1) as usize,
                                        dest: target,
                                        func: SingleRowFunc::Like,
                                    },
                                ),
                                Ok(target),
                            ),
                        )
                    },
                }
            }
        },
        SingleRowFunc::Abs => {
            if args.len() != 1 {
                Outcome::Done((state, Err(Error::WrongArgumentCount(f))))
            } else if state.next_free_register == usize::MAX {
                Outcome::Panics
            } else {
                let (s1, reg) = state.alloc_register();
                match spec_translate(select, s1, args[0], reg) {
                    Outcome::Panics => Outcome::Panics,
                    Outcome::Done((s2, Err(e))) => Outcome::Done((s2, Err(e))),
                    Outcome::Done((s2, Ok(_))) => Outcome::Done(
                        (
                            s2.emit(
                                InsnView::Function {
                                    start_reg: reg,
                                    dest: target,
                                    func: SingleRowFunc::Abs,
                                },
                            ),
                            Ok(target),
                        ),
                    ),
                }
            }
        },
    }
}

/// `coalesce`: each argument is evaluated into `target`; after each but the
/// last, a jump to `label` is taken when the value is not NULL.
pub open spec fn spec_coalesce_args(
    select: Select,
    state: ProgramState,
    args: Seq<Expr>,
    target: usize,
    label: BranchOffset,
) -> Outcome<(ProgramState, Result<(), Error>)>
    decreases args, 0int,
{
    if args.len() == 0 {
        Outcome::Done((state, Ok(())))
    } else {
        match spec_translate(select, state, args[0], target) {
            Outcome::Panics => Outcome::Panics,
            Outcome::Done((s1, Err(e))) => Outcome::Done((s1, Err(e))),
            Outcome::Done((s1, Ok(reg))) => {
                let s2 = if args.len() > 1 {
                    s1.emit_with_label_dependency(InsnView::NotNull { reg, target_pc: label }, label)
                } else {
                    s1
                };
                spec_coalesce_args(select, s2, args.drop_first(), target, label)
            },
        }
    }
}

/// `like`: each argument is evaluated into a fresh register; the load of a
/// literal argument is moved to the constant instructions.
pub open spec fn spec_like_args(select: Select, state: ProgramState, args: Seq<Expr>) -> Outcome<
    (ProgramState, Result<(), Error>),
>
    decreases args, 0int,
{
    if args.len() == 0 {
        Outcome::Done((state, Ok(())))
    } else if state.next_free_register == usize::MAX {
        Outcome::Panics
    } else {
        let (s1, reg) = state.alloc_register();
        match spec_translate(select, s1, args[0], reg) {
            Outcome::Panics => Outcome::Panics,
            Outcome::Done((s2, Err(e))) => Outcome::Done((s2, Err(e))),
            Outcome::Done((s2, Ok(_))) => {
                if args[0] is Literal && s2.insns.len() == 0 {
                    Outcome::Panics
                } else {
                    let s3 = if args[0] is Literal {
                        s2.mark_last_insn_constant()
                    } else {
                        s2
                    };
                    spec_like_args(select, s3, args.drop_first())
                }
            },
        }
    }
}


/// Translates an expression into instructions that leave its value in
/// `target_register`, and returns that register.
pub fn translate_expr(
    program: &mut ProgramBuilder,
    select: &Select,
    expr: &Expr,
    target_register: usize,
) -> (res: Result<usize, Error>)
    requires
        !(spec_translate(*select, old(program)@, *expr, target_register) is Panics),
    ensures
        spec_translate(*select, old(program)@, *expr, target_register) == Outcome::Done(
            (final(program)@, res),
        ),
    decreases expr,
{
    match expr {
        Expr::Binary(e1, op, e2) => {
            let e1_reg = program.alloc_register();
            let e2_reg = program.alloc_register();
            match translate_expr(program, select, e1, e1_reg) {
                Ok(_) => {},
                Err(e) => return Err(e),
            }
            match translate_expr(program, select, e2, e2_reg) {
                Ok(_) => {},
                Err(e) => return Err(e),
            }
            match op {
                Operator::NotEquals => {
                    let if_true_label = program.allocate_label();
                    wrap_eval_jump_expr(
                        program,
                        Insn::Ne { lhs: e1_reg, rhs: e2_reg, target_pc: if_true_label },
                        target_register,
                        if_true_label,
                    );
                },
                Operator::Equals => {
                    let if_true_label = program.allocate_label();
                    wrap_eval_jump_expr(
                        program,
                        Insn::Eq { lhs: e1_reg, rhs: e2_reg, target_pc: if_true_label },
                        target_register,
                        if_true_label,
                    );
                },
                Operator::Less => {
                    let if_true_label = program.allocate_label();
                    wrap_eval_jump_expr(
                        program,
                        Insn::Lt { lhs: e1_reg, rhs: e2_reg, target_pc: if_true_label },
                        target_register,
                        if_true_label,
                    );
                },
                Operator::LessEquals => {
                    let if_true_label = program.allocate_label();
                    wrap_eval_jump_expr(
                        program,
                        Insn::Le { lhs: e1_reg, rhs: e2_reg, target_pc: if_true_label },
                        target_register,
                        if_true_label,
                    );
                },
                Operator::Greater => {
                    let if_true_label = program.allocate_label();
                    wrap_eval_jump_expr(
                        program,
                        Insn::Gt { lhs: e1_reg, rhs: e2_reg, target_pc: if_true_label },
                        target_register,
                        if_true_label,
                    );
                },
                Operator::GreaterEquals => {
                    let if_true_label = program.allocate_label();
                    wrap_eval_jump_expr(
                        program,
                        Insn::Ge { lhs: e1_reg, rhs: e2_reg, target_pc: if_true_label },
                        target_register,
                        if_true_label,
                    );
                },
                Operator::Add => {
                    program.emit_insn(Insn::Add { lhs: e1_reg, rhs: e2_reg, dest: target_register });
                },
                _ => unreached(),
            }
            Ok(target_register)
        },
        Expr::FunctionCall { name, args } => {
            let normalized = normalize_ident(name.as_str());
            match Func::resolve(normalized.as_str()) {
                Some(Func::Agg(_)) => Err(Error::AggregateInNonAggregateContext),
                Some(Func::SingleRow(srf)) => {
                    let args = match args {
                        Some(args) => args,
                        None => return Err(Error::NoArguments(srf)),
                    };
                    translate_call(program, select, srf, args, target_register)
                },
                None => Err(Error::UnknownFunction(name.clone())),
            }
        },
        Expr::Id(ident) => {
            let (idx, col, cursor_id) = match resolve_ident_table(program, ident, select) {
                Ok(found) => found,
                Err(e) => return Err(e),
            };
            read_column(program, col, idx, cursor_id, target_register);
            Ok(target_register)
        },
        Expr::Literal(lit) => translate_literal(program, lit, target_register),
        Expr::Qualified(tbl, ident) => {
            let (idx, col, cursor_id) = match resolve_ident_qualified(program, tbl, ident, select) {
                Ok(found) => found,
                Err(e) => return Err(e),
            };
            read_column(program, col, idx, cursor_id, target_register);
            Ok(target_register)
        },
        Expr::Unary(op, e) => match (op, &**e) {
            (UnaryOperator::Negative, Expr::Literal(Literal::Numeric(numeric_value))) => {
                match parse_i64(numeric_value.as_str()) {
                    Some(value) => {
                        program.emit_insn(Insn::Integer { value: -value, dest: target_register });
                    },
                    None => {
                        if !is_f64_literal(numeric_value.as_str()) {
                            return Err(Error::InvalidNumber(numeric_value.clone()));
                        }
                        program.emit_insn(
                            Insn::Real {
                                literal: numeric_value.clone(),
                                negative: true,
                                dest: target_register,
                            },
                        );
                    },
                }
                Ok(target_register)
            },
            _ => unreached(),
        },
        _ => unreached(),
    }
}

/// Emits the read of a resolved column into `target_register`.
fn read_column(
    program: &mut ProgramBuilder,
    col: &Column,
    idx: usize,
    cursor_id: usize,
    target_register: usize,
)
    ensures
        final(program)@ == spec_read_column(old(program)@, *col, idx, cursor_id, target_register),
{
    if col.primary_key {
        program.emit_insn(Insn::RowId { cursor_id, dest: target_register });
    } else {
        program.emit_insn(Insn::Column { column: idx, dest: target_register, cursor_id });
    }
    maybe_apply_affinity(col, target_register, program);
}

/// Emits the load of a literal into `target_register`.
fn translate_literal(program: &mut ProgramBuilder, lit: &Literal, target_register: usize) -> (res:
    Result<usize, Error>)
    requires
        !(spec_translate_literal(old(program)@, *lit, target_register) is Panics),
    ensures
        spec_translate_literal(old(program)@, *lit, target_register) == Outcome::Done(
            (final(program)@, res),
        ),
{
    match lit {
        Literal::Numeric(val) => {
            match parse_i64(val.as_str()) {
                Some(int_value) => {
                    program.emit_insn(Insn::Integer { value: int_value, dest: target_register });
                },
                None => {
                    // The literal is then a real, which its text stands for.
                    program.emit_insn(
                        Insn::Real { literal: val.clone(), negative: false, dest: target_register },
                    );
                },
            }
            Ok(target_register)
        },
        Literal::String(s) => {
            let n = s.as_str().unicode_len();
            let value = String::from_str(s.as_str().substring_char(1, n - 1));
            program.emit_insn(Insn::String8 { value, dest: target_register });
            Ok(target_register)
        },
        Literal::Null => {
            program.emit_insn(Insn::Null { dest: target_register });
            Ok(target_register)
        },
        _ => unreached(),
    }
}

/// Translates a call of a single-row function with an argument list.
fn translate_call(
    program: &mut ProgramBuilder,
    select: &Select,
    srf: SingleRowFunc,
    args: &Vec<Expr>,
    target_register: usize,
) -> (res: Result<usize, Error>)
    requires
        !(spec_translate_call(*select, old(program)@, srf, args@, target_register) is Panics),
    ensures
        spec_translate_call(*select, old(program)@, srf, args@, target_register) == Outcome::Done(
            (final(program)@, res),
        ),
    decreases args@, 1int,
{
    match srf {
        SingleRowFunc::Coalesce => {
            if args.len() < 2 {
                return Err(Error::WrongArgumentCount(srf));
            }
            // A series of not-NULL checks: the first value that is not NULL
            // jumps to the end.

            let ghost pre = program@;
            let label_coalesce_end = program.allocate_label();
            let ghost start = program@;
            let mut index: usize = 0;
            assert(args@.skip(0) =~= args@);
            while index < args.len()
                invariant
                    index <= args@.len(),
                    args@.len() >= 2,
                    srf == SingleRowFunc::Coalesce,
                    pre.next_free_label != i64::MIN,
                    (start, label_coalesce_end) == pre.allocate_label(),
                    pre == old(program)@,
                    spec_coalesce_args(*select, start, args@, target_register, label_coalesce_end)
                        == spec_coalesce_args(
                        *select,
                        program@,
                        args@.skip(index as int),
                        target_register,
                        label_coalesce_end,
                    ),
                    !(spec_coalesce_args(
                        *select,
                        start,
                        args@,
                        target_register,
                        label_coalesce_end,
                    ) is Panics),
                decreases args@.len() - index,
            {
                let ghost rest = args@.skip(index as int);
                assert(rest[0] == args@[index as int]);
                assert(rest.drop_first() =~= args@.skip(index + 1));
                let reg = match translate_expr(program, select, &args[index], target_register) {
                    Ok(reg) => reg,
                    Err(e) => return Err(e),
                };
                if index < args.len() - 1 {
                    program.emit_insn_with_label_dependency(
                        Insn::NotNull { reg, target_pc: label_coalesce_end },
                        label_coalesce_end,
                    );
                }
                index = index + 1;
            }
            assert(args@.skip(index as int) =~= Seq::<Expr>::empty());
            program.preassign_label_to_next_insn(label_coalesce_end);
            Ok(target_register)
        },
        SingleRowFunc::Like => {
            if args.len() < 2 {
                return Err(Error::WrongArgumentCount(srf));
            }
            let ghost start = program@;
            let mut index: usize = 0;
            assert(args@.skip(0) =~= args@);
            while index < args.len()
                invariant
                    index <= args@.len(),
                    args@.len() >= 2,
                    start == old(program)@,
                    spec_like_args(*select, start, args@) == spec_like_args(
                        *select,
                        program@,
                        args@.skip(index as int),
                    ),
                    !(spec_translate_call(*select, start, srf, args@, target_register) is Panics),
                    srf == SingleRowFunc::Like,
                decreases args@.len() - index,
            {
                let ghost rest = args@.skip(index as int);
                assert(rest[0] == args@[index as int]);
                assert(rest.drop_first() =~= args@.skip(index + 1));
                let arg = &args[index];
                let reg = program.alloc_register();
                match translate_expr(program, select, arg, reg) {
                    Ok(_) => {},
                    Err(e) => return Err(e),
                }
                match arg {
                    Expr::Literal(_) => program.mark_last_insn_constant(),
                    _ => {},
                }
                index = index + 1;
            }
            assert(args@.skip(index as int) =~= Seq::<Expr>::empty());
            program.emit_insn(
                Insn::Function {
                    start_reg: target_register + 1,
                    dest: target_register,
                    func: SingleRowFunc::Like,
                },
            );
            Ok(target_register)
        },
        SingleRowFunc::Abs => {
            if args.len() != 1 {
                return Err(Error::WrongArgumentCount(srf));
            }
            let regs = program.alloc_register();
            match translate_expr(program, select, &args[0], regs) {
                Ok(_) => {},
                Err(e) => return Err(e),
            }
            program.emit_insn(
                Insn::Function { start_reg: regs, dest: target_register, func: SingleRowFunc::Abs },
            );
            Ok(target_register)
        },
    }
}


// ---------------------------------------------------------------------------
// Analysis of result columns
// ---------------------------------------------------------------------------

/// The aggregate function that a call's name denotes, if any. A lone `"`
/// cannot be normalized and names none.
pub open spec fn aggregate_named(name: Seq<char>) -> Option<Func> {
    if name == seq!['"'] {
        None
    } else {
        match called_function(name) {
            Some(Func::Agg(a)) => Some(Func::Agg(a)),
            _ => None,
        }
    }
}

/// The arguments of a call, as recorded in a column's information.
pub open spec fn args_view(args: Option<Vec<Expr>>) -> Option<Seq<Expr>> {
    match args {
        Some(a) => Some(a@),
        None => None,
    }
}

/// What the call at the head of an expression makes of a column's
/// information: a known function replaces what was recorded, with its
/// arguments; an unknown one hands on to its first argument, if it has
/// one; anything else leaves the information as it is. A call of an unknown
/// function without an argument list, a call with `*`, or a function named
/// by a lone `"` is not analyzed.
pub open spec fn spec_analyze_head(expr: Expr, info: ColumnInfoView) -> Outcome<ColumnInfoView>
    decreases expr,
{
    match expr {
        Expr::FunctionCall { name, args } => {
            if name@ == seq!['"'] {
                Outcome::Panics
            } else {
                match called_function(name@) {
                    None => match args {
                        None => Outcome::Panics,
                        Some(a) => if a@.len() == 0 {
                            Outcome::Done(info)
                        } else {
                            spec_analyze_head(a@[0], info)
                        },
                    },
                    Some(f) => Outcome::Done(ColumnInfoView { func: Some(f), args: args_view(args), ..info }),
                }
            }
        },
        Expr::FunctionCallStar { .. } => Outcome::Panics,
        _ => Outcome::Done(info),
    }
}

/// The first call of an aggregate function in an expression, read from
/// left to right (a call before its arguments), with its arguments.
pub open spec fn first_aggregate(expr: Expr) -> Option<(Func, Option<Seq<Expr>>)>
    decreases expr,
{
    match expr {
        Expr::FunctionCall { name, args } => match aggregate_named(name@) {
            Some(f) => Some((f, args_view(args))),
            None => match args {
                Some(a) => first_aggregate_in(a@),
                None => None,
            },
        },
        Expr::FunctionCallStar { name } => match aggregate_named(name@) {
            Some(f) => Some((f, None)),
            None => None,
        },
        Expr::Binary(l, _, r) => match first_aggregate(*l) {
            Some(found) => Some(found),
            None => first_aggregate(*r),
        },
        Expr::Unary(_, e) => first_aggregate(*e),
        _ => None,
    }
}

/// The first call of an aggregate function in a list of expressions.
pub open spec fn first_aggregate_in(args: Seq<Expr>) -> Option<(Func, Option<Seq<Expr>>)>
    decreases args, 0int,
{
    if args.len() == 0 {
        None
    } else {
        match first_aggregate(args[0]) {
            Some(found) => Some(found),
            None => first_aggregate_in(args.drop_first()),
        }
    }
}

/// What analyzing an expression finds out: what the call at its head
/// makes of the information, and then, where the expression calls an
/// aggregate function anywhere in it, the first such call, with its
/// arguments.
pub open spec fn spec_analyze_expr(expr: Expr, info: ColumnInfoView) -> Outcome<ColumnInfoView> {
    match spec_analyze_head(expr, info) {
        Outcome::Done(i1) => match first_aggregate(expr) {
            Some((f, a)) => Outcome::Done(ColumnInfoView { func: Some(f), args: a, ..i1 }),
            None => Outcome::Done(i1),
        },
        Outcome::Panics => Outcome::Panics,
    }
}

/// Whether a call's name is a lone double quote, which cannot be normalized.
pub(crate) fn is_lone_quote(name: &String) -> (res: bool)
    ensures
        res == (name@ == seq!['"']),
{
    let s = name.as_str();
    if s.unicode_len() == 1 && s.get_char(0) == '"' {
        assert(s@ =~= seq!['"']);
        true
    } else {
        false
    }
}

/// The aggregate function that a call's name denotes, if any.
fn resolve_aggregate(name: &String) -> (res: Option<Func>)
    ensures
        res == aggregate_named(name@),
{
    if is_lone_quote(name) {
        return None;
    }
    let normalized = normalize_ident(name.as_str());
    match Func::resolve(normalized.as_str()) {
        Some(Func::Agg(a)) => Some(Func::Agg(a)),
        _ => None,
    }
}

/// Finds the first call of an aggregate function in an expression.
fn find_aggregate<'a>(expr: &'a Expr) -> (res: Option<(Func, Option<&'a Vec<Expr>>)>)
    ensures
        match res {
            Some((f, a)) => first_aggregate(*expr) == Some((
                f,
                match a {
                    Some(v) => Some(v@),
                    None => None,
                },
            )),
            None => first_aggregate(*expr) is None,
        },
    decreases expr,
{
    match expr {
        Expr::FunctionCall { name, args } => match resolve_aggregate(name) {
            Some(f) => Some((
                f,
                match args {
                    Some(a) => Some(a),
                    None => None,
                },
            )),
            None => match args {
                Some(a) => find_aggregate_in(a),
                None => None,
            },
        },
        Expr::FunctionCallStar { name } => match resolve_aggregate(name) {
            Some(f) => Some((f, None)),
            None => None,
        },
        Expr::Binary(l, _, r) => match find_aggregate(l) {
            Some(found) => Some(found),
            None => find_aggregate(r),
        },
        Expr::Unary(_, e) => find_aggregate(e),
        _ => None,
    }
}

/// Finds the first call of an aggregate function in a list of expressions.
fn find_aggregate_in<'a>(args: &'a Vec<Expr>) -> (res: Option<(Func, Option<&'a Vec<Expr>>)>)
    ensures
        match res {
            Some((f, a)) => first_aggregate_in(args@) == Some((
                f,
                match a {
                    Some(v) => Some(v@),
                    None => None,
                },
            )),
            None => first_aggregate_in(args@) is None,
        },
    decreases args@, 1int,
{
    let mut i: usize = 0;
    assert(args@.skip(0) =~= args@);
    while i < args.len()
        invariant
            i <= args@.len(),
            first_aggregate_in(args@) == first_aggregate_in(args@.skip(i as int)),
        decreases args@.len() - i,
    {
        let ghost rest = args@.skip(i as int);
        assert(rest[0] == args@[i as int]);
        assert(rest.drop_first() =~= args@.skip(i + 1));
        let found = find_aggregate(&args[i]);
        if found.is_some() {
            return found;
        }
        i = i + 1;
    }
    assert(args@.skip(i as int) =~= Seq::<Expr>::empty());
    None
}

/// Applies what the call at the head of an expression makes of a column's
/// information.
fn analyze_head<'a>(expr: &'a Expr, column_info_out: &mut ColumnInfo<'a>)
    requires
        !(spec_analyze_head(*expr, old(column_info_out)@) is Panics),
    ensures
        spec_analyze_head(*expr, old(column_info_out)@) == Outcome::Done(final(column_info_out)@),
    decreases expr,
{
    match expr {
        Expr::FunctionCall { name, args } => {
            let normalized = normalize_ident(name.as_str());
            match Func::resolve(normalized.as_str()) {
                None => {
                    let args = match args {
                        Some(args) => args,
                        None => unreached(),
                    };
                    if args.len() > 0 {
                        analyze_head(&args[0], column_info_out);
                    }
                },
                Some(f) => {
                    column_info_out.func = Some(f);
                    column_info_out.args = match args {
                        Some(a) => Some(a),
                        None => None,
                    };
                },
            }
        },
        Expr::FunctionCallStar { .. } => unreached(),
        _ => {},
    }
}

/// Records in `column_info_out` the function that an expression calls: a
/// known function called at its head replaces what was there, an unknown
/// one is looked through to its first argument, and where an aggregate
/// function is called anywhere in the expression, the first such call is
/// what is recorded.
pub fn analyze_expr<'a>(expr: &'a Expr, column_info_out: &mut ColumnInfo<'a>)
    requires
        !(spec_analyze_expr(*expr, old(column_info_out)@) is Panics),
    ensures
        spec_analyze_expr(*expr, old(column_info_out)@) == Outcome::Done(final(column_info_out)@),
{
    analyze_head(expr, column_info_out);
    if let Some((f, a)) = find_aggregate(expr) {
        column_info_out.func = Some(f);
        column_info_out.args = a;
    }
}

/// Analyzes the expression of a result column.
fn analyze_column<'a>(column: &'a ResultColumn, column_info_out: &mut ColumnInfo<'a>)
    requires
        *column matches ResultColumn::Expr(e, _) ==> !(spec_analyze_expr(
            e,
            old(column_info_out)@,
        ) is Panics),
    ensures
        match *column {
            ResultColumn::Expr(e, _) => spec_analyze_expr(e, old(column_info_out)@)
                == Outcome::Done(final(column_info_out)@),
            _ => final(column_info_out)@ == old(column_info_out)@,
        },
{
    match column {
        ResultColumn::Expr(expr, _) => analyze_expr(expr, column_info_out),
        ResultColumn::Star => {},
        ResultColumn::TableStar(_) => {},
    }
}

/// The number of columns of all source tables together.
pub open spec fn total_columns(joins: Seq<SrcTable>) -> int
    decreases joins.len(),
{
    if joins.len() == 0 {
        0
    } else {
        total_columns(joins.drop_last()) + joins.last().table.spec_columns().len()
    }
}

proof fn lemma_total_columns_prefix(joins: Seq<SrcTable>, k: int)
    requires
        0 <= k <= joins.len(),
    ensures
        0 <= total_columns(joins.take(k)) <= total_columns(joins),
    decreases joins.len(),
{
    if k == joins.len() {
        assert(joins.take(k) =~= joins);
    } else {
        lemma_total_columns_prefix(joins.drop_last(), k);
        assert(joins.drop_last().take(k) =~= joins.take(k));
    }
    if joins.len() > 0 {
        lemma_total_columns_prefix(joins.drop_last(), joins.len() - 1);
    }
}

/// What analysis finds out about one result column, when the source
/// tables have `total` columns together: `*` takes a register per column
/// of every table; any other column takes one.
pub open spec fn spec_column_info(column: ResultColumn, total: int) -> Outcome<ColumnInfoView> {
    match column {
        ResultColumn::Star => if total <= usize::MAX {
            Outcome::Done(ColumnInfoView { func: None, args: None, columns_to_allocate: total as usize })
        } else {
            Outcome::Panics
        },
        ResultColumn::Expr(e, _) => spec_analyze_expr(e, ColumnInfoView::initial()),
        ResultColumn::TableStar(_) => Outcome::Done(ColumnInfoView::initial()),
    }
}

/// Analysis of every result column is defined.
pub open spec fn columns_analyzable(columns: Seq<ResultColumn>, total: int) -> bool {
    forall|i: int| 0 <= i < columns.len() ==> !(#[trigger] spec_column_info(columns[i], total) is Panics)
}

/// Analyzes each result column against the source tables.
pub fn analyze_columns<'a>(columns: &'a Vec<ResultColumn>, joins: &Vec<SrcTable>) -> (res: Vec<ColumnInfo<'a>>)
    requires
        columns_analyzable(columns@, total_columns(joins@)),
    ensures
        res@.len() == columns@.len(),
        forall|i: int|
            0 <= i < columns@.len() ==> spec_column_info(columns@[i], total_columns(joins@))
                == Outcome::Done(#[trigger] res@[i]@),
{
    let mut column_information_list: Vec<ColumnInfo<'a>> = Vec::new();
    let mut i: usize = 0;
    while i < columns.len()
        invariant
            i <= columns@.len(),
            columns_analyzable(columns@, total_columns(joins@)),
            column_information_list@.len() == i,
            forall|j: int|
                0 <= j < i ==> spec_column_info(columns@[j], total_columns(joins@))
                    == Outcome::Done(#[trigger] column_information_list@[j]@),
        decreases columns@.len() - i,
    {
        let column = &columns[i];
        assert(!(spec_column_info(columns@[i as int], total_columns(joins@)) is Panics));
        let mut info = ColumnInfo::new();
        match column {
            ResultColumn::Star => {
                info.columns_to_allocate = 0;
                let mut k: usize = 0;
                while k < joins.len()
                    invariant
                        k <= joins@.len(),
                        total_columns(joins@) <= usize::MAX,
                        info@ == (ColumnInfoView {
                            func: None,
                            args: None,
                            columns_to_allocate: total_columns(joins@.take(k as int)) as usize,
                        }),
                        info.columns_to_allocate == total_columns(joins@.take(k as int)),
                    decreases joins@.len() - k,
                {
                    proof {
                        lemma_total_columns_prefix(joins@, k + 1);
                        assert(joins@.take(k + 1).drop_last() =~= joins@.take(k as int));
                    }
                    info.columns_to_allocate = info.columns_to_allocate
                        + joins[k].table.columns().len();
                    k = k + 1;
                }
                assert(joins@.take(joins@.len() as int) =~= joins@);
            },
            _ => {
                info.columns_to_allocate = 1;
                analyze_column(column, &mut info);
            },
        }
        column_information_list.push(info);
        i = i + 1;
    }
    column_information_list
}


// ---------------------------------------------------------------------------
// Planning a SELECT
// ---------------------------------------------------------------------------

/// The tables of a `FROM` clause in order: the first table, then each joined
/// table with the join it comes from.
pub open spec fn from_sources(first: SelectTable, joins: Option<Vec<JoinedSelectTable>>) -> Seq<
    (SelectTable, Option<JoinedSelectTable>),
> {
    seq![(first, None::<JoinedSelectTable>)] + match joins {
        Some(j) => j@.map_values(|jt: JoinedSelectTable| (jt.table, Some(jt))),
        None => Seq::empty(),
    }
}

/// Looks each source table up in the schema, in order: the first source
/// that is not a named table panics, the first name that the schema lacks
/// is an error; otherwise the schema index of each table.
pub open spec fn resolve_sources(schema: Schema, sources: Seq<(SelectTable, Option<JoinedSelectTable>)>) -> Outcome<
    Result<Seq<int>, Error>,
>
    decreases sources.len(),
{
    if sources.len() == 0 {
        Outcome::Done(Ok(Seq::empty()))
    } else {
        match sources[0].0 {
            SelectTable::Table(name, _) => match first_table_named(schema.tables@, name@) {
                None => Outcome::Done(Err(Error::NoSuchTable(name))),
                Some(i) => match resolve_sources(schema, sources.drop_first()) {
                    Outcome::Done(Ok(rest)) => Outcome::Done(Ok(seq![i] + rest)),
                    other => other,
                },
            },
            _ => Outcome::Panics,
        }
    }
}

/// The number of columns of the schema tables at `idxs` together.
pub open spec fn total_schema_columns(schema: Schema, idxs: Seq<int>) -> int
    decreases idxs.len(),
{
    if idxs.len() == 0 {
        0
    } else {
        total_schema_columns(schema, idxs.drop_last()) + schema.tables@[idxs.last()].columns@.len()
    }
}

/// What planning a `SELECT` comes to: the schema index of each source
/// table, or the error that stops it.
pub open spec fn spec_build_select(schema: Schema, select: ast::Select) -> Outcome<Result<Seq<int>, Error>> {
    match select.body.select {
        OneSelect::Select { columns, from: Some(from), .. } => match from.select {
            Some(first) => match resolve_sources(schema, from_sources(first, from.joins)) {
                Outcome::Done(Ok(idxs)) => if columns_analyzable(
                    columns@,
                    total_schema_columns(schema, idxs),
                ) {
                    Outcome::Done(Ok(idxs))
                } else {
                    Outcome::Panics
                },
                other => other,
            },
            None => Outcome::Panics,
        },
        OneSelect::Select { columns, from: None, .. } => if columns_analyzable(columns@, 0) {
            Outcome::Done(Ok(Seq::empty()))
        } else {
            Outcome::Panics
        },
        OneSelect::Values => Outcome::Panics,
    }
}

/// The alias a source table goes by, if any.
pub open spec fn source_alias(t: SelectTable) -> Option<String> {
    match t {
        SelectTable::Table(_, Some(a)) => Some(a.spec_name()),
        _ => None,
    }
}

/// A planned source table is the schema table at `idx`, with the alias and
/// join of the source it was planned from.
pub open spec fn src_table_is(
    t: SrcTable,
    schema: Schema,
    idx: int,
    source: (SelectTable, Option<JoinedSelectTable>),
) -> bool {
    &&& (t.table matches Table::BTree(b) && *b == schema.tables@[idx])
    &&& match (t.alias, source_alias(source.0)) {
        (Some(a), Some(b)) => *a == b,
        (None, None) => true,
        _ => false,
    }
    &&& match (t.join_info, source.1) {
        (Some(j), Some(k)) => *j == k,
        (None, None) => true,
        _ => false,
    }
}

/// A plan reads the tables at `idxs`, as the sources describe them, and
/// holds the analysis of each result column.
pub open spec fn plan_is(
    plan: Select,
    schema: Schema,
    idxs: Seq<int>,
    sources: Seq<(SelectTable, Option<JoinedSelectTable>)>,
    columns: Seq<ResultColumn>,
    where_clause: Option<Expr>,
    limit: Option<ast::Limit>,
) -> bool {
    &&& plan.columns@ == columns
    &&& *plan.where_clause == where_clause
    &&& *plan.limit == limit
    &&& plan.loops@.len() == 0
    &&& plan.src_tables@.len() == idxs.len()
    &&& forall|i: int|
        0 <= i < idxs.len() ==> src_table_is(#[trigger] plan.src_tables@[i], schema, idxs[i], sources[i])
    &&& plan.column_info@.len() == columns.len()
    &&& forall|i: int|
        0 <= i < columns.len() ==> spec_column_info(columns[i], total_schema_columns(schema, idxs))
            == Outcome::Done(#[trigger] plan.column_info@[i]@)
    &&& plan.exist_aggregation == exists|i: int|
        0 <= i < columns.len() && (#[trigger] plan.column_info@[i]@).is_aggregation()
}

/// The name and alias of a source table that is a named table.
fn table_name_and_alias<'a>(t: &'a SelectTable) -> (res: (&'a String, Option<&'a String>))
    requires
        *t is Table,
    ensures
        *t matches SelectTable::Table(name, _) && *res.0 == name,
        match (res.1, source_alias(*t)) {
            (Some(a), Some(b)) => *a == b,
            (None, None) => true,
            _ => false,
        },
{
    match t {
        SelectTable::Table(name, alias) => {
            let alias = match alias {
                Some(a) => Some(a.name()),
                None => None,
            };
            (name, alias)
        },
        _ => unreached(),
    }
}

/// Whether any result column calls an aggregate function.
fn any_aggregation(column_info: &Vec<ColumnInfo>) -> (res: bool)
    ensures
        res == exists|i: int| 0 <= i < column_info@.len() && (#[trigger] column_info@[i]@).is_aggregation(),
{
    let mut i: usize = 0;
    while i < column_info.len()
        invariant
            i <= column_info@.len(),
            forall|j: int| 0 <= j < i ==> !(#[trigger] column_info@[j]@).is_aggregation(),
        decreases column_info@.len() - i,
    {
        if column_info[i].is_aggregation_function() {
            return true;
        }
        i = i + 1;
    }
    false
}

proof fn lemma_total_columns_of_plan(
    joins: Seq<SrcTable>,
    schema: Schema,
    idxs: Seq<int>,
    sources: Seq<(SelectTable, Option<JoinedSelectTable>)>,
)
    requires
        joins.len() == idxs.len(),
        forall|i: int| 0 <= i < idxs.len() ==> src_table_is(#[trigger] joins[i], schema, idxs[i], sources[i]),
    ensures
        total_columns(joins) == total_schema_columns(schema, idxs),
    decreases joins.len(),
{
    if joins.len() > 0 {
        assert forall|i: int| 0 <= i < idxs.len() - 1 implies src_table_is(
            #[trigger] joins.drop_last()[i],
            schema,
            idxs.drop_last()[i],
            sources[i],
        ) by {
            assert(src_table_is(joins[i], schema, idxs[i], sources[i]));
        }
        lemma_total_columns_of_plan(joins.drop_last(), schema, idxs.drop_last(), sources);
        assert(src_table_is(joins[joins.len() - 1], schema, idxs[idxs.len() - 1], sources[joins.len() - 1]));
    }
}

/// `res` is what planning `select` against `schema` gives, where planning
/// is defined: the plan of the tables found and of the analyzed result
/// columns, or the error met.
pub open spec fn plans_to(schema: Schema, select: ast::Select, res: Result<Select, Error>) -> bool {
    match spec_build_select(schema, select) {
        Outcome::Done(Ok(idxs)) => res matches Ok(plan) && match select.body.select {
            OneSelect::Select { columns, from, where_clause } => plan_is(
                plan,
                schema,
                idxs,
                match from {
                    Some(f) => from_sources(f.select.unwrap(), f.joins),
                    None => Seq::empty(),
                },
                columns@,
                where_clause,
                select.limit,
            ),
            OneSelect::Values => false,
        },
        Outcome::Done(Err(e)) => res matches Err(e2) && e2 == e,
        Outcome::Panics => false,
    }
}

/// Plans a `SELECT`: looks its tables up in the schema and analyzes its
/// result columns.
#[verifier::spinoff_prover]
pub fn build_select<'a>(schema: &'a Schema, select: &'a ast::Select) -> (res: Result<Select<'a>, Error>)
    requires
        !(spec_build_select(*schema, *select) is Panics),
    ensures
        plans_to(*schema, *select, res),
{
    match &select.body.select {
        OneSelect::Select { columns, from: Some(from), where_clause } => {
            let first = match &from.select {
                Some(first) => first,
                None => unreached(),
            };
            let ghost sources = from_sources(*first, from.joins);
            let ghost whole = resolve_sources(*schema, sources);
            assert(sources[0].0 == *first);
            let (table_name, maybe_alias) = match first {
                SelectTable::Table(..) => table_name_and_alias(first),
                _ => unreached(),
            };
            let table = match schema.get_table(table_name.as_str()) {
                Some(table) => table,
                None => {
                    assert(sources[0].0 == *first);
                    return Err(Error::NoSuchTable(table_name.clone()));
                },
            };
            proof {
                lemma_first_table_named(schema.tables@, table_name@);
            }
            let ghost first_idx = first_table_named(schema.tables@, table_name@).unwrap();
            let mut joins: Vec<SrcTable<'a>> = Vec::new();
            joins.push(SrcTable { table: Table::BTree(table), alias: maybe_alias, join_info: None });
            let ghost mut idxs: Seq<int> = seq![first_idx];
            assert(sources[0] == (*first, None::<JoinedSelectTable>));
            assert(sources.drop_first() =~= match from.joins {
                Some(j) => j@.map_values(|jt: JoinedSelectTable| (jt.table, Some(jt))),
                None => Seq::empty(),
            });
            assert(sources.skip(1) =~= sources.drop_first());
            assert(whole == match resolve_sources(*schema, sources.skip(1)) {
                Outcome::Done(Ok(rest)) => Outcome::Done(Ok(idxs + rest)),
                other => other,
            });
            assert(src_table_is(joins@[0], *schema, idxs[0], sources[0]));
            if let Some(selected_joins) = &from.joins {
                let mut i: usize = 0;
                while i < selected_joins.len()
                    invariant
                        i <= selected_joins@.len(),
                        from.joins == Some(*selected_joins),
                        sources == from_sources(*first, from.joins),
                        sources.len() == selected_joins@.len() + 1,
                        whole == resolve_sources(*schema, sources),
                        !(spec_build_select(*schema, *select) is Panics),
                        spec_build_select(*schema, *select) == match whole {
                            Outcome::Done(Ok(idxs)) => if columns_analyzable(
                                columns@,
                                total_schema_columns(*schema, idxs),
                            ) {
                                Outcome::Done(Ok(idxs))
                            } else {
                                Outcome::Panics
                            },
                            other => other,
                        },
                        whole == match resolve_sources(*schema, sources.skip(i + 1)) {
                            Outcome::Done(Ok(rest)) => Outcome::Done(Ok(idxs + rest)),
                            other => other,
                        },
                        joins@.len() == i + 1,
                        idxs.len() == i + 1,
                        forall|t: int|
                            0 <= t < idxs.len() ==> src_table_is(
                                #[trigger] joins@[t],
                                *schema,
                                idxs[t],
                                sources[t],
                            ),
                    decreases selected_joins@.len() - i,
                {
                    let join = &selected_joins[i];
                    let ghost rest = sources.skip(i + 1);
                    assert(rest[0] == sources[i + 1]);
                    assert(sources[i + 1] == (join.table, Some(*join)));
                    assert(rest.drop_first() =~= sources.skip(i + 2));
                    let (table_name, maybe_alias) = match &join.table {
                        SelectTable::Table(..) => table_name_and_alias(&join.table),
                        _ => unreached(),
                    };
                    let table = match schema.get_table(table_name.as_str()) {
                        Some(table) => table,
                        None => {
                            return Err(Error::NoSuchTable(table_name.clone()));
                        },
                    };
                    proof {
                        lemma_first_table_named(schema.tables@, table_name@);
                    }
                    let ghost idx = first_table_named(schema.tables@, table_name@).unwrap();
                    joins.push(
                        SrcTable { table: Table::BTree(table), alias: maybe_alias, join_info: Some(join) },
                    );
                    proof {
                        let old_idxs = idxs;
                        idxs = idxs.push(idx);
                        match resolve_sources(*schema, sources.skip(i + 2)) {
                            Outcome::Done(Ok(r)) => {
                                assert(old_idxs + (seq![idx] + r) =~= idxs + r);
                            },
                            _ => {},
                        }
                    }
                    i = i + 1;
                }
            }
            assert(sources.len() == joins@.len());
            assert(whole == match resolve_sources(*schema, sources.skip(joins@.len() as int)) {
                Outcome::Done(Ok(rest)) => Outcome::Done(Ok(idxs + rest)),
                other => other,
            });
            assert(sources.skip(joins@.len() as int) =~= Seq::empty());
            assert(idxs + Seq::<int>::empty() =~= idxs);
            let ghost final_idxs = idxs;
            assert(whole == Outcome::Done(Ok::<Seq<int>, Error>(final_idxs)));
            proof {
                lemma_total_columns_of_plan(joins@, *schema, final_idxs, sources);
            }
            assert(spec_build_select(*schema, *select) == Outcome::Done(
                Ok::<Seq<int>, Error>(final_idxs),
            ));
            let column_info = analyze_columns(columns, &joins);
            let exist_aggregation = any_aggregation(&column_info);
            let ghost joins_view = joins@;
            let ghost info_view = column_info@;
            let plan = Select {
                columns,
                column_info,
                src_tables: joins,
                limit: &select.limit,
                exist_aggregation,
                where_clause,
                loops: Vec::new(),
            };
            assert(plan.src_tables@ == joins_view);
            assert(plan.column_info@ == info_view);
            assert(info_view.len() == columns@.len());
            assert(forall|i: int|
                0 <= i < final_idxs.len() ==> src_table_is(
                    #[trigger] plan.src_tables@[i],
                    *schema,
                    final_idxs[i],
                    sources[i],
                ));
            assert(forall|i: int|
                0 <= i < columns@.len() ==> spec_column_info(
                    columns@[i],
                    total_schema_columns(*schema, final_idxs),
                ) == Outcome::Done(#[trigger] plan.column_info@[i]@));
            assert(plan.exist_aggregation == exists|i: int|
                0 <= i < columns@.len() && (#[trigger] plan.column_info@[i]@).is_aggregation());
            assert(plan_is(plan, *schema, final_idxs, sources, columns@, *where_clause, select.limit));
            Ok(plan)
        },
        OneSelect::Select { columns, from: None, where_clause } => {
            let joins: Vec<SrcTable<'a>> = Vec::new();
            let column_info = analyze_columns(columns, &joins);
            let exist_aggregation = any_aggregation(&column_info);
            Ok(
                Select {
                    columns,
                    column_info,
                    src_tables: joins,
                    limit: &select.limit,
                    exist_aggregation,
                    where_clause,
                    loops: Vec::new(),
                },
            )
        },
        OneSelect::Values => unreached(),
    }
}

} // verus!
