//! Properties of planning and translation that hold across calls.
use vstd::prelude::*;

use crate::ast::{Expr, FromClause, JoinedSelectTable, Limit, Literal, OneSelect, ResultColumn, SelectTable};
use crate::error::Error;
use crate::expr::{
    called_function, comparison_insn, has_column, is_comparison, lemma_first_column_named,
    spec_coalesce_args, spec_jump_expr, spec_like_args, spec_read_column, spec_resolve_qualified,
    spec_resolve_qualified_from, spec_resolve_table, spec_translate, spec_translate_call,
    spec_translate_literal, spec_apply_affinity, first_column_named, table_identifier, tables_with_column, Outcome, plan_is, resolve_table_panics, aggregate_named, first_aggregate, first_aggregate_in,
    spec_analyze_head, spec_analyze_expr, spec_column_info, total_schema_columns, from_sources,
    plans_to, resolve_sources, spec_build_select, src_table_is,
};
use crate::function::{Func, SingleRowFunc};
use crate::schema::{first_table_named, lemma_first_table_named, Column, Schema, Type};
use crate::select::{ColumnInfoView, Select};
use crate::vdbe::{first_cursor, BranchOffset, InsnView, ProgramState};

verus! {

/// `a` is a prefix of `b`.
pub open spec fn is_prefix<T>(a: Seq<T>, b: Seq<T>) -> bool {
    a.len() <= b.len() && forall|i: int| 0 <= i < a.len() ==> #[trigger] a[i] == b[i]
}

/// `after` is a later state of the program than `before`: nothing emitted
/// or recorded has changed, counters have only moved on, and the cursors
/// are the same.
pub open spec fn extends(after: ProgramState, before: ProgramState) -> bool {
    &&& is_prefix(before.insns, after.insns)
    &&& is_prefix(before.constant_insns, after.constant_insns)
    &&& is_prefix(before.resolved_labels, after.resolved_labels)
    &&& is_prefix(before.label_dependencies, after.label_dependencies)
    &&& after.next_free_register >= before.next_free_register
    &&& after.next_free_label <= before.next_free_label
    &&& after.cursors == before.cursors
}

proof fn lemma_extends_trans(a: ProgramState, b: ProgramState, c: ProgramState)
    requires
        extends(b, a),
        extends(c, b),
    ensures
        extends(c, a),
{
    assert forall|i: int| 0 <= i < a.insns.len() implies #[trigger] a.insns[i] == c.insns[i] by {
        assert(a.insns[i] == b.insns[i]);
    }
    assert forall|i: int| 0 <= i < a.constant_insns.len() implies #[trigger] a.constant_insns[i]
        == c.constant_insns[i] by {
        assert(a.constant_insns[i] == b.constant_insns[i]);
    }
    assert forall|i: int| 0 <= i < a.resolved_labels.len() implies #[trigger] a.resolved_labels[i]
        == c.resolved_labels[i] by {
        assert(a.resolved_labels[i] == b.resolved_labels[i]);
    }
    assert forall|i: int| 0 <= i < a.label_dependencies.len() implies #[trigger] a.label_dependencies[i]
        == c.label_dependencies[i] by {
        assert(a.label_dependencies[i] == b.label_dependencies[i]);
    }
}

proof fn lemma_extends_refl(a: ProgramState)
    ensures
        extends(a, a),
{
}

proof fn lemma_emit_extends(s: ProgramState, insn: InsnView, label: BranchOffset)
    ensures
        extends(s.emit(insn), s),
        extends(s.emit_with_label_dependency(insn, label), s),
        extends(s.preassign_label(label), s),
        s.next_free_register < usize::MAX ==> extends(s.alloc_register().0, s),
        s.next_free_label > i64::MIN ==> extends(s.allocate_label().0, s),
{
    let e = s.emit_with_label_dependency(insn, label);
    assert forall|i: int| 0 <= i < s.label_dependencies.len() implies #[trigger] s.label_dependencies[i]
        == e.label_dependencies[i] by {}
}

proof fn lemma_jump_extends(s: ProgramState, insn: InsnView, target: usize, label: BranchOffset)
    ensures
        extends(spec_jump_expr(s, insn, target, label), s),
{
    let s1 = s.emit(InsnView::Integer { value: 1, dest: target });
    let s2 = s1.emit_with_label_dependency(insn, label);
    let s3 = s2.emit(InsnView::Integer { value: 0, dest: target });
    lemma_emit_extends(s, InsnView::Integer { value: 1, dest: target }, label);
    lemma_emit_extends(s1, insn, label);
    lemma_emit_extends(s2, InsnView::Integer { value: 0, dest: target }, label);
    lemma_emit_extends(s3, insn, label);
    lemma_extends_trans(s, s1, s2);
    lemma_extends_trans(s, s2, s3);
    lemma_extends_trans(s, s3, s3.preassign_label(label));
}

/// Translating a literal appends exactly one instruction.
pub proof fn lemma_literal_emits_one(s: ProgramState, lit: Literal, target: usize)
    ensures
        spec_translate_literal(s, lit, target) matches Outcome::Done((s2, _)) ==> s2.insns.len()
            == s.insns.len() + 1 && is_prefix(s.insns, s2.insns) && extends(s2, s),
{
    lemma_emit_extends(s, InsnView::Null { dest: target }, 0);
    match lit {
        Literal::Numeric(v) => {
            lemma_emit_extends(s, InsnView::Real { literal: v@, negative: false, dest: target }, 0);
            match crate::util::spec_parse_i64(v@) {
                Some(i) => lemma_emit_extends(s, InsnView::Integer { value: i, dest: target }, 0),
                None => {},
            }
        },
        Literal::String(t) => {
            lemma_emit_extends(
                s,
                InsnView::String8 { value: t@.subrange(1, t@.len() - 1), dest: target },
                0,
            );
        },
        _ => {},
    }
}

/// Translation only ever adds to a program: whatever was emitted or
/// recorded before stays as it was, registers and labels are only handed
/// out, and the cursors do not change. This holds whether translation
/// succeeds or stops with an error.
pub proof fn lemma_translate_extends(select: Select, s: ProgramState, expr: Expr, target: usize)
    ensures
        spec_translate(select, s, expr, target) matches Outcome::Done((s2, _)) ==> extends(s2, s),
    decreases expr,
{
    lemma_extends_refl(s);
    match expr {
        Expr::Binary(e1, op, e2) => {
            if s.next_free_register < usize::MAX - 1 {
                let (s1, r1) = s.alloc_register();
                let (s2, r2) = s1.alloc_register();
                lemma_emit_extends(s, InsnView::Null { dest: 0 }, 0);
                lemma_emit_extends(s1, InsnView::Null { dest: 0 }, 0);
                lemma_extends_trans(s, s1, s2);
                lemma_translate_extends(select, s2, *e1, r1);
                match spec_translate(select, s2, *e1, r1) {
                    Outcome::Done((s3, r)) => {
                        lemma_extends_trans(s, s2, s3);
                        if r is Ok {
                            lemma_translate_extends(select, s3, *e2, r2);
                            match spec_translate(select, s3, *e2, r2) {
                                Outcome::Done((s4, r)) => {
                                    lemma_extends_trans(s, s3, s4);
                                    if r is Ok {
                                        lemma_emit_extends(s4, InsnView::Add { lhs: r1, rhs: r2, dest: target }, 0);
                                        lemma_extends_trans(s, s4, s4.emit(InsnView::Add { lhs: r1, rhs: r2, dest: target }));
                                        if is_comparison(op) && s4.next_free_label > i64::MIN {
                                            let (s5, label) = s4.allocate_label();
                                            lemma_emit_extends(s4, InsnView::Null { dest: 0 }, 0);
                                            lemma_jump_extends(s5, comparison_insn(op, r1, r2, label), target, label);
                                            lemma_extends_trans(s, s4, s5);
                                            lemma_extends_trans(s, s5, spec_jump_expr(s5, comparison_insn(op, r1, r2, label), target, label));
                                        }
                                    }
                                },
                                _ => {},
                            }
                        }
                    },
                    _ => {},
                }
            }
        },
        Expr::FunctionCall { name, args } => {
            match args {
                Some(a) => match called_function(name@) {
                    Some(Func::SingleRow(f)) => lemma_call_extends(select, s, f, a@, target),
                    _ => {},
                },
                None => {},
            }
        },
        Expr::Id(ident) => {
            lemma_read_column_extends(select, s, target);
        },
        Expr::Qualified(_, _) => {
            lemma_read_column_extends(select, s, target);
        },
        Expr::Literal(lit) => {
            lemma_literal_emits_one(s, lit, target);
        },
        Expr::Unary(_, e) => {
            match *e {
                Expr::Literal(Literal::Numeric(v)) => {
                    lemma_emit_extends(s, InsnView::Real { literal: v@, negative: true, dest: target }, 0);
                    match crate::util::spec_parse_i64(v@) {
                        Some(i) => lemma_emit_extends(s, InsnView::Integer { value: (-i) as i64, dest: target }, 0),
                        None => {},
                    }
                },
                _ => {},
            }
        },
        _ => {},
    }
}

proof fn lemma_read_column_extends(select: Select, s: ProgramState, target: usize)
    ensures
        forall|col: crate::schema::Column, idx: usize, cursor: usize|
            extends(#[trigger] spec_read_column(s, col, idx, cursor, target), s),
{
    assert forall|col: crate::schema::Column, idx: usize, cursor: usize|
        extends(#[trigger] spec_read_column(s, col, idx, cursor, target), s) by {
        let r1 = s.emit(InsnView::RowId { cursor_id: cursor, dest: target });
        let r2 = s.emit(InsnView::Column { cursor_id: cursor, column: idx, dest: target });
        lemma_emit_extends(s, InsnView::RowId { cursor_id: cursor, dest: target }, 0);
        lemma_emit_extends(s, InsnView::Column { cursor_id: cursor, column: idx, dest: target }, 0);
        lemma_emit_extends(r1, InsnView::RealAffinity { register: target }, 0);
        lemma_emit_extends(r2, InsnView::RealAffinity { register: target }, 0);
        lemma_extends_trans(s, r1, r1.emit(InsnView::RealAffinity { register: target }));
        lemma_extends_trans(s, r2, r2.emit(InsnView::RealAffinity { register: target }));
    }
}

proof fn lemma_call_extends(select: Select, s: ProgramState, f: SingleRowFunc, args: Seq<Expr>, target: usize)
    ensures
        spec_translate_call(select, s, f, args, target) matches Outcome::Done((s2, _)) ==> extends(s2, s),
    decreases args, 1int,
{
    lemma_extends_refl(s);
    match f {
        SingleRowFunc::Coalesce => {
            if args.len() >= 2 && s.next_free_label > i64::MIN {
                let (s1, label) = s.allocate_label();
                lemma_emit_extends(s, InsnView::Null { dest: 0 }, 0);
                lemma_coalesce_extends(select, s1, args, target, label);
                match spec_coalesce_args(select, s1, args, target, label) {
                    Outcome::Done((s2, _)) => {
                        lemma_extends_trans(s, s1, s2);
                        lemma_emit_extends(s2, InsnView::Null { dest: 0 }, label);
                        lemma_extends_trans(s, s2, s2.preassign_label(label));
                    },
                    _ => {},
                }
            }
        },
        SingleRowFunc::Like => {
            if args.len() >= 2 {
                lemma_like_extends(select, s, args);
                match spec_like_args(select, s, args) {
                    Outcome::Done((s2, _)) => {
                        let i = InsnView::Function {
                            start_reg: (target + 1) as usize,
                            dest: target,
                            func: SingleRowFunc::Like,
                        };
                        lemma_emit_extends(s2, i, 0);
                        lemma_extends_trans(s, s2, s2.emit(i));
                    },
                    _ => {},
                }
            }
        },
        SingleRowFunc::Abs => {
            if args.len() == 1 && s.next_free_register < usize::MAX {
                let (s1, reg) = s.alloc_register();
                lemma_emit_extends(s, InsnView::Null { dest: 0 }, 0);
                lemma_translate_extends(select, s1, args[0], reg);
                match spec_translate(select, s1, args[0], reg) {
                    Outcome::Done((s2, _)) => {
                        lemma_extends_trans(s, s1, s2);
                        let i = InsnView::Function {
                            start_reg: reg,
                            dest: target,
                            func: SingleRowFunc::Abs,
                        };
                        lemma_emit_extends(s2, i, 0);
                        lemma_extends_trans(s, s2, s2.emit(i));
                    },
                    _ => {},
                }
            }
        },
    }
}

proof fn lemma_coalesce_extends(
    select: Select,
    s: ProgramState,
    args: Seq<Expr>,
    target: usize,
    label: BranchOffset,
)
    ensures
        spec_coalesce_args(select, s, args, target, label) matches Outcome::Done((s2, _)) ==> extends(s2, s),
    decreases args, 0int,
{
    lemma_extends_refl(s);
    if args.len() > 0 {
        lemma_translate_extends(select, s, args[0], target);
        match spec_translate(select, s, args[0], target) {
            Outcome::Done((s1, Ok(reg))) => {
                let s2 = if args.len() > 1 {
                    s1.emit_with_label_dependency(InsnView::NotNull { reg, target_pc: label }, label)
                } else {
                    s1
                };
                lemma_emit_extends(s1, InsnView::NotNull { reg, target_pc: label }, label);
                lemma_extends_refl(s1);
                lemma_extends_trans(s, s1, s2);
                lemma_coalesce_extends(select, s2, args.drop_first(), target, label);
                match spec_coalesce_args(select, s2, args.drop_first(), target, label) {
                    Outcome::Done((s3, _)) => lemma_extends_trans(s, s2, s3),
                    _ => {},
                }
            },
            _ => {},
        }
    }
}

proof fn lemma_like_extends(select: Select, s: ProgramState, args: Seq<Expr>)
    ensures
        spec_like_args(select, s, args) matches Outcome::Done((s2, _)) ==> extends(s2, s),
    decreases args, 0int,
{
    lemma_extends_refl(s);
    if args.len() > 0 && s.next_free_register < usize::MAX {
        let (s1, reg) = s.alloc_register();
        lemma_emit_extends(s, InsnView::Null { dest: 0 }, 0);
        lemma_translate_extends(select, s1, args[0], reg);
        match spec_translate(select, s1, args[0], reg) {
            Outcome::Done((s2, Ok(_))) => {
                lemma_extends_trans(s, s1, s2);
                if !(args[0] is Literal && s2.insns.len() == 0) {
                    let s3 = if args[0] is Literal {
                        s2.mark_last_insn_constant()
                    } else {
                        s2
                    };
                    if args[0] is Literal {
                        // The literal's load is the one instruction it added;
                        // moving it away leaves the earlier ones in place.
                        lemma_literal_emits_one(s1, args[0]->Literal_0, reg);
                        assert(extends(s3, s1)) by {
                            assert forall|i: int| 0 <= i < s1.constant_insns.len() implies #[trigger] s1.constant_insns[i]
                                == s3.constant_insns[i] by {
                                assert(s1.constant_insns[i] == s2.constant_insns[i]);
                            }
                            assert forall|i: int| 0 <= i < s1.insns.len() implies #[trigger] s1.insns[i]
                                == s3.insns[i] by {
                                assert(s1.insns[i] == s2.insns[i]);
                            }
                        }
                        lemma_extends_trans(s, s1, s3);
                    }
                    lemma_like_extends(select, s3, args.drop_first());
                    match spec_like_args(select, s3, args.drop_first()) {
                        Outcome::Done((s4, _)) => lemma_extends_trans(s, s3, s4),
                        _ => {},
                    }
                }
            },
            Outcome::Done((s2, Err(_))) => lemma_extends_trans(s, s1, s2),
            _ => {},
        }
    }
}


/// A translation that succeeds leaves the expression's value in the
/// register it was asked to use.
pub proof fn lemma_translate_result_register(select: Select, s: ProgramState, expr: Expr, target: usize)
    ensures
        spec_translate(select, s, expr, target) matches Outcome::Done((_, Ok(r))) ==> r == target,
{
    match expr {
        Expr::Binary(e1, op, e2) => {
            if s.next_free_register < usize::MAX - 1 {
                let (s1, r1) = s.alloc_register();
                let (s2, r2) = s1.alloc_register();
                match spec_translate(select, s2, *e1, r1) {
                    Outcome::Done((s3, Ok(_))) => match spec_translate(select, s3, *e2, r2) {
                        Outcome::Done((s4, Ok(_))) => {
                            assert(spec_translate(select, s, expr, target) == crate::expr::spec_binary_op(
                                s4,
                                op,
                                r1,
                                r2,
                                target,
                            ));
                        },
                        _ => {},
                    },
                    _ => {},
                }
            }
        },
        Expr::FunctionCall { name, args } => {
            match args {
                Some(a) => match called_function(name@) {
                    Some(Func::SingleRow(f)) => {
                        assert(spec_translate_call(select, s, f, a@, target) matches Outcome::Done(
                            (_, Ok(r)),
                        ) ==> r == target);
                    },
                    _ => {},
                },
                None => {},
            }
        },
        _ => {},
    }
}

/// The jump of a comparison skips exactly the reset to 0: once the next
/// instruction is emitted, the jump's label stands for the position right
/// after the reset.
pub proof fn lemma_jump_skips_reset(
    s: ProgramState,
    insn: InsnView,
    target: usize,
    label: BranchOffset,
    next: InsnView,
)
    ensures
        ({
            let n = s.insns.len() as int;
            let t = spec_jump_expr(s, insn, target, label).emit(next);
            &&& t.insns.len() == n + 4
            &&& t.insns[n] == InsnView::Integer { value: 1, dest: target }
            &&& t.insns[n + 1] == insn
            &&& t.insns[n + 2] == InsnView::Integer { value: 0, dest: target }
            &&& t.insns[n + 3] == next
            &&& t.label_dependencies.last() == (label, (n + 1) as usize)
            &&& t.resolved_labels.last() == (label, (n + 3) as usize)
            &&& t.next_insn_label is None
        }),
{
}

proof fn lemma_tables_with_column_exact(src: Seq<crate::select::SrcTable>, name: Seq<char>)
    ensures
        forall|j: int|
            0 <= j < src.len() && has_column(src[j], name) ==> tables_with_column(src, name).contains(j),
        forall|a: int, b: int|
            0 <= a < b < tables_with_column(src, name).len() ==> tables_with_column(src, name)[a]
                < tables_with_column(src, name)[b],
        forall|a: int|
            0 <= a < tables_with_column(src, name).len() ==> 0 <= #[trigger] tables_with_column(src, name)[a]
                < src.len() && has_column(src[tables_with_column(src, name)[a]], name),
    decreases src.len(),
{
    if src.len() > 0 {
        let rest = tables_with_column(src.drop_last(), name);
        let all = tables_with_column(src, name);
        lemma_tables_with_column_exact(src.drop_last(), name);
        assert forall|j: int| 0 <= j < src.len() && has_column(src[j], name) implies all.contains(j) by {
            if j < src.len() - 1 {
                assert(src.drop_last()[j] == src[j]);
                assert(has_column(src.drop_last()[j], name));
                assert(0 <= j < src.drop_last().len());
                assert(rest.contains(j));
                let p = choose|p: int| 0 <= p < rest.len() && rest[p] == j;
                if has_column(src.last(), name) {
                    assert(all == rest.push(src.len() - 1));
                    assert(all[p] == j);
                } else {
                    assert(all == rest);
                }
                assert(all.contains(j));
            } else {
                assert(src.last() == src[j]);
                assert(all == rest.push(src.len() - 1));
                assert(all[all.len() - 1] == j);
            }
        }
        assert forall|a: int, b: int| 0 <= a < b < all.len() implies all[a] < all[b] by {
            if has_column(src.last(), name) {
                assert(all == rest.push(src.len() - 1));
                if b < rest.len() {
                    assert(all[a] == rest[a] && all[b] == rest[b]);
                } else {
                    assert(all[a] == rest[a]);
                    assert(0 <= rest[a] < src.drop_last().len());
                }
            } else {
                assert(all == rest);
            }
        }
        assert forall|a: int| 0 <= a < all.len() implies 0 <= #[trigger] all[a] < src.len() && has_column(
            src[all[a]],
            name,
        ) by {
            if a < rest.len() {
                assert(all[a] == rest[a]);
                assert(src.drop_last()[rest[a]] == src[rest[a]]);
            }
        }
    }
}

/// A table's columns are held in a vector, so their count fits in a `usize`.
proof fn lemma_columns_fit(t: crate::select::SrcTable)
    ensures
        t.table.spec_columns().len() <= usize::MAX,
{
    match t.table {
        crate::schema::Table::BTree(b) => assert(b.columns@.len() == b.columns.len()),
        crate::schema::Table::Pseudo(p) => assert(p.columns@.len() == p.columns.len()),
    }
}

/// An unqualified column name resolves to a column of that name in the one
/// source table that has such a column; it is not found when no table has
/// one, and it is ambiguous when two tables do.
pub proof fn lemma_resolve_table_unambiguous(select: Select, s: ProgramState, ident: String)
    ensures
        spec_resolve_table(select, s, ident) matches Outcome::Done(Ok((idx, k, _))) ==> {
            let src = select.src_tables@;
            &&& 0 <= k < src.len()
            &&& 0 <= idx < src[k].table.spec_columns().len()
            &&& src[k].table.spec_columns()[idx as int].name@ == ident@
            &&& forall|j: int| 0 <= j < src.len() && j != k ==> !has_column(#[trigger] src[j], ident@)
        },
        spec_resolve_table(select, s, ident) matches Outcome::Done(Err(Error::ColumnNotFound(_)))
            ==> forall|j: int|
            0 <= j < select.src_tables@.len() ==> !has_column(#[trigger] select.src_tables@[j], ident@),
        spec_resolve_table(select, s, ident) matches Outcome::Done(Err(Error::AmbiguousColumn(_)))
            ==> exists|a: int, b: int|
            0 <= a < b < select.src_tables@.len() && has_column(#[trigger] select.src_tables@[a], ident@)
                && has_column(#[trigger] select.src_tables@[b], ident@),
{
    let src = select.src_tables@;
    let found = tables_with_column(src, ident@);
    lemma_tables_with_column_exact(src, ident@);
    if found.len() == 1 {
        let k = found[0];
        lemma_first_column_named(src[k].table.spec_columns(), ident@);
        lemma_columns_fit(src[k]);
        assert forall|j: int| 0 <= j < src.len() && j != k implies !has_column(#[trigger] src[j], ident@) by {
            if has_column(src[j], ident@) {
                assert(found.contains(j));
            }
        }
    } else if found.len() == 0 {
        assert forall|j: int| 0 <= j < src.len() implies !has_column(#[trigger] src[j], ident@) by {
            if has_column(src[j], ident@) {
                assert(found.contains(j));
            }
        }
    } else {
        assert(found[0] < found[1]);
        assert(has_column(src[found[0]], ident@));
        assert(has_column(src[found[1]], ident@));
    }
}

proof fn lemma_resolve_qualified_from(
    src: Seq<crate::select::SrcTable>,
    cursors: Seq<Option<Seq<char>>>,
    table_name: String,
    ident: String,
    k: int,
)
    requires
        0 <= k,
    ensures
        spec_resolve_qualified_from(src, cursors, table_name, ident, k) matches Outcome::Done(
            Ok((idx, t, _)),
        ) ==> {
            &&& k <= t < src.len()
            &&& table_identifier(src[t]) == table_name@
            &&& 0 <= idx < src[t].table.spec_columns().len()
            &&& src[t].table.spec_columns()[idx as int].name@ == ident@
            &&& forall|j: int|
                k <= j < t ==> !(table_identifier(#[trigger] src[j]) == table_name@ && has_column(
                    src[j],
                    ident@,
                ))
        },
        spec_resolve_qualified_from(src, cursors, table_name, ident, k) matches Outcome::Done(
            Err(_),
        ) ==> forall|j: int|
            k <= j < src.len() ==> !(table_identifier(#[trigger] src[j]) == table_name@ && has_column(
                src[j],
                ident@,
            )),
    decreases src.len() - k,
{
    if k < src.len() {
        lemma_resolve_qualified_from(src, cursors, table_name, ident, k + 1);
        lemma_first_column_named(src[k].table.spec_columns(), ident@);
        lemma_columns_fit(src[k]);
        if !(src[k].table is Pseudo) && !(table_identifier(src[k]) == table_name@ && has_column(
            src[k],
            ident@,
        )) {
            assert(spec_resolve_qualified_from(src, cursors, table_name, ident, k)
                == spec_resolve_qualified_from(src, cursors, table_name, ident, k + 1));
        }
    }
}

/// A qualified column name `table.column` resolves to a column of that
/// name in the first source table that goes by `table` and has one; it is
/// not found only when no source table both goes by `table` and has it.
pub proof fn lemma_resolve_qualified_first_match(
    select: Select,
    s: ProgramState,
    table_name: String,
    ident: String,
)
    ensures
        spec_resolve_qualified(select, s, table_name, ident) matches Outcome::Done(Ok((idx, k, _)))
            ==> {
            let src = select.src_tables@;
            &&& 0 <= k < src.len()
            &&& table_identifier(src[k]) == table_name@
            &&& 0 <= idx < src[k].table.spec_columns().len()
            &&& src[k].table.spec_columns()[idx as int].name@ == ident@
            &&& forall|j: int|
                0 <= j < k ==> !(table_identifier(#[trigger] src[j]) == table_name@ && has_column(
                    src[j],
                    ident@,
                ))
        },
        spec_resolve_qualified(select, s, table_name, ident) matches Outcome::Done(Err(_)) ==> forall|
            j: int,
        |
            0 <= j < select.src_tables@.len() ==> !(table_identifier(#[trigger] select.src_tables@[j])
                == table_name@ && has_column(select.src_tables@[j], ident@)),
{
    lemma_resolve_qualified_from(select.src_tables@, s.cursors, table_name, ident, 0);
}


proof fn lemma_qualified_skips_to(
    src: Seq<crate::select::SrcTable>,
    cursors: Seq<Option<Seq<char>>>,
    table_name: String,
    ident: String,
    j: int,
    k: int,
)
    requires
        0 <= j <= k < src.len(),
        forall|i: int| 0 <= i < k ==> !has_column(#[trigger] src[i], ident@) && !(src[i].table is Pseudo),
    ensures
        spec_resolve_qualified_from(src, cursors, table_name, ident, j) == spec_resolve_qualified_from(
            src,
            cursors,
            table_name,
            ident,
            k,
        ),
    decreases k - j,
{
    if j < k {
        lemma_qualified_skips_to(src, cursors, table_name, ident, j + 1, k);
    }
}

/// A bare column name that resolves names the same column, in the same
/// table and under the same cursor, as the name qualified by the name or
/// alias of the table it resolves to.
pub proof fn lemma_bare_name_as_qualified(select: Select, s: ProgramState, table_name: String, ident: String)
    requires
        spec_resolve_table(select, s, ident) matches Outcome::Done(Ok((_, k, _))) && table_name@
            == table_identifier(select.src_tables@[k]),
    ensures
        spec_resolve_qualified(select, s, table_name, ident) == spec_resolve_table(select, s, ident),
{
    let src = select.src_tables@;
    lemma_resolve_table_unambiguous(select, s, ident);
    lemma_tables_with_column_exact(src, ident@);
    assert(!resolve_table_panics(src, s.cursors, ident@));
    assert(tables_with_column(src, ident@).len() == 1);
    let k = tables_with_column(src, ident@)[0];
    assert(0 <= k < src.len() && has_column(src[k], ident@));
    assert forall|i: int| 0 <= i < k implies !has_column(#[trigger] src[i], ident@) && !(src[i].table is Pseudo) by {
        if src[i].table is Pseudo {
            assert(resolve_table_panics(src, s.cursors, ident@));
        }
    }
    lemma_qualified_skips_to(src, s.cursors, table_name, ident, 0, k);
    if first_cursor(s.cursors, table_identifier(src[k])) is None {
        assert(resolve_table_panics(src, s.cursors, ident@));
    }
}

/// `s2` is `s` with the instructions that read column `idx` of a table,
/// whose description is `col`, through `cursor` into `target`: the row id
/// when the column is the table's primary key, else the column by its
/// index in the table; then, for a `REAL` column only, its real affinity.
pub open spec fn reads_column_into(
    s: ProgramState,
    s2: ProgramState,
    col: Column,
    idx: int,
    cursor: usize,
    target: usize,
) -> bool {
    let n = s.insns.len() as int;
    &&& s2.insns.len() == n + if col.ty == Type::Real { 2int } else { 1int }
    &&& s2.insns.take(n) == s.insns
    &&& s2.insns[n] == if col.primary_key {
        InsnView::RowId { cursor_id: cursor, dest: target }
    } else {
        InsnView::Column { cursor_id: cursor, column: idx as usize, dest: target }
    }
    &&& col.ty == Type::Real ==> s2.insns[n + 1] == InsnView::RealAffinity { register: target }
}

proof fn lemma_read_column(s: ProgramState, col: Column, idx: usize, cursor: usize, target: usize)
    ensures
        reads_column_into(s, spec_read_column(s, col, idx, cursor, target), col, idx as int, cursor, target),
{
    let s1 = spec_read_column(s, col, idx, cursor, target);
    let n = s.insns.len();
    if col.ty == Type::Real {
        assert(s1.insns.take(n as int) =~= s.insns);
    } else {
        assert(s1.insns.take(n as int) =~= s.insns);
    }
}

/// The real affinity of a column is applied exactly when the column is
/// declared `REAL`: then one `RealAffinity` for the register is appended,
/// and otherwise nothing is emitted.
pub proof fn lemma_affinity_only_for_real(s: ProgramState, col: Column, target: usize)
    ensures
        col.ty == Type::Real ==> spec_apply_affinity(s, col, target).insns == s.insns.push(
            InsnView::RealAffinity { register: target },
        ),
        col.ty != Type::Real ==> spec_apply_affinity(s, col, target) == s,
{
}

/// Translating an unqualified column name that resolves reads the column
/// of that name from the one source table that has it, through the cursor
/// opened for that table: the row id when the column is the table's
/// primary key, else the column by its index in its table, followed by a
/// real affinity exactly when the column is `REAL`.
pub proof fn lemma_column_reference_reads(select: Select, s: ProgramState, ident: String, target: usize)
    ensures
        spec_translate(select, s, Expr::Id(ident), target) matches Outcome::Done((s2, Ok(_))) ==> exists|
            k: int,
            idx: int,
        |
            {
                &&& 0 <= k < select.src_tables@.len()
                &&& forall|j: int|
                    0 <= j < select.src_tables@.len() && j != k ==> !has_column(
                        #[trigger] select.src_tables@[j],
                        ident@,
                    )
                &&& 0 <= idx < select.src_tables@[k].table.spec_columns().len()
                &&& select.src_tables@[k].table.spec_columns()[idx].name@ == ident@
                &&& forall|j: int|
                    0 <= j < idx ==> (#[trigger] select.src_tables@[k].table.spec_columns()[j]).name@
                        != ident@
                &&& first_cursor(s.cursors, table_identifier(select.src_tables@[k])) is Some
                &&& reads_column_into(
                    s,
                    s2,
                    select.src_tables@[k].table.spec_columns()[idx],
                    idx,
                    first_cursor(s.cursors, table_identifier(select.src_tables@[k])).unwrap() as usize,
                    target,
                )
            },
{
    lemma_resolve_table_unambiguous(select, s, ident);
    if let Outcome::Done(Ok((idx, k, cursor))) = spec_resolve_table(select, s, ident) {
        let src = select.src_tables@;
        let cols = src[k].table.spec_columns();
        lemma_first_column_named(cols, ident@);
        lemma_columns_fit(src[k]);
        lemma_tables_with_column_exact(src, ident@);
        assert(!resolve_table_panics(src, s.cursors, ident@));
        assert(has_column(src[k], ident@));
        assert(first_cursor(s.cursors, table_identifier(src[k])) is Some);
        lemma_read_column(s, cols[idx as int], idx, cursor, target);
        assert(idx as int == first_column_named(cols, ident@).unwrap());
    }
}

/// Translating a column name qualified by `tbl` reads the column of that
/// name from the first source table that goes by `tbl` and has it, through
/// the cursor opened for that table: the row id when the column is the
/// table's primary key, else the column by its index in its table,
/// followed by a real affinity exactly when the column is `REAL`.
pub proof fn lemma_qualified_reference_reads(
    select: Select,
    s: ProgramState,
    tbl: String,
    ident: String,
    target: usize,
)
    ensures
        spec_translate(select, s, Expr::Qualified(tbl, ident), target) matches Outcome::Done((s2, Ok(_)))
            ==> exists|k: int, idx: int|
            {
                &&& 0 <= k < select.src_tables@.len()
                &&& table_identifier(select.src_tables@[k]) == tbl@
                &&& forall|j: int|
                    0 <= j < k ==> !(table_identifier(#[trigger] select.src_tables@[j]) == tbl@
                        && has_column(select.src_tables@[j], ident@))
                &&& 0 <= idx < select.src_tables@[k].table.spec_columns().len()
                &&& select.src_tables@[k].table.spec_columns()[idx].name@ == ident@
                &&& forall|j: int|
                    0 <= j < idx ==> (#[trigger] select.src_tables@[k].table.spec_columns()[j]).name@
                        != ident@
                &&& first_cursor(s.cursors, tbl@) is Some
                &&& reads_column_into(
                    s,
                    s2,
                    select.src_tables@[k].table.spec_columns()[idx],
                    idx,
                    first_cursor(s.cursors, tbl@).unwrap() as usize,
                    target,
                )
            },
{
    lemma_resolve_qualified_first_match(select, s, tbl, ident);
    lemma_qualified_found(select.src_tables@, s.cursors, tbl, ident, 0);
    if let Outcome::Done(Ok((idx, k, cursor))) = spec_resolve_qualified(select, s, tbl, ident) {
        let src = select.src_tables@;
        let cols = src[k].table.spec_columns();
        lemma_first_column_named(cols, ident@);
        lemma_columns_fit(src[k]);
        lemma_read_column(s, cols[idx as int], idx, cursor, target);
    }
}

/// What a qualified resolution that succeeds gives: the first column of
/// the name in its table, and the cursor of the table's name.
proof fn lemma_qualified_found(
    src: Seq<crate::select::SrcTable>,
    cursors: Seq<Option<Seq<char>>>,
    table_name: String,
    ident: String,
    k: int,
)
    requires
        0 <= k,
    ensures
        spec_resolve_qualified_from(src, cursors, table_name, ident, k) matches Outcome::Done(
            Ok((idx, t, cursor)),
        ) ==> {
            &&& 0 <= t < src.len()
            &&& idx as int == first_column_named(src[t].table.spec_columns(), ident@).unwrap()
            &&& first_cursor(cursors, table_name@) is Some
            &&& cursor == first_cursor(cursors, table_name@).unwrap() as usize
        },
    decreases src.len() - k,
{
    if k < src.len() {
        lemma_qualified_found(src, cursors, table_name, ident, k + 1);
        lemma_first_column_named(src[k].table.spec_columns(), ident@);
        lemma_columns_fit(src[k]);
    }
}

/// A call of `like` that translates ends with the `Function` instruction
/// that computes `like` into the target register from the registers that
/// follow it.
pub proof fn lemma_like_reads_after_target(
    select: Select,
    s: ProgramState,
    name: String,
    args: Vec<Expr>,
    target: usize,
)
    ensures
        called_function(name@) == Some(Func::SingleRow(SingleRowFunc::Like)) ==> (spec_translate(
            select,
            s,
            Expr::FunctionCall { name, args: Some(args) },
            target,
        ) matches Outcome::Done((s2, Ok(_))) ==> {
            &&& target < usize::MAX
            &&& s2.insns.len() > 0
            &&& s2.insns.last() == InsnView::Function {
                start_reg: (target + 1) as usize,
                dest: target,
                func: SingleRowFunc::Like,
            }
        }),
{
    let e = Expr::FunctionCall { name, args: Some(args) };
    if called_function(name@) == Some(Func::SingleRow(SingleRowFunc::Like)) && name@ != seq!['"'] {
        assert(spec_translate(select, s, e, target) == spec_translate_call(
            select,
            s,
            SingleRowFunc::Like,
            args@,
            target,
        ));
    }
}

/// A call of `abs` that translates hands out the next free register,
/// translates its one argument into that register, and then computes
/// `abs` into the target register from it.
pub proof fn lemma_abs_reads_its_argument(
    select: Select,
    s: ProgramState,
    name: String,
    args: Vec<Expr>,
    target: usize,
)
    ensures
        called_function(name@) == Some(Func::SingleRow(SingleRowFunc::Abs)) ==> (spec_translate(
            select,
            s,
            Expr::FunctionCall { name, args: Some(args) },
            target,
        ) matches Outcome::Done((s2, Ok(_))) ==> {
            &&& args@.len() == 1
            &&& s.next_free_register < usize::MAX
            &&& (spec_translate(
                select,
                ProgramState { next_free_register: (s.next_free_register + 1) as usize, ..s },
                args@[0],
                s.next_free_register,
            ) matches Outcome::Done((s3, Ok(r))) && r == s.next_free_register && s2.insns
                == s3.insns.push(
                InsnView::Function { start_reg: s.next_free_register, dest: target, func: SingleRowFunc::Abs },
            ))
        }),
{
    let e = Expr::FunctionCall { name, args: Some(args) };
    if called_function(name@) == Some(Func::SingleRow(SingleRowFunc::Abs)) && name@ != seq!['"'] {
        assert(spec_translate(select, s, e, target) == spec_translate_call(
            select,
            s,
            SingleRowFunc::Abs,
            args@,
            target,
        ));
        if args@.len() == 1 && s.next_free_register < usize::MAX {
            let (s1, reg) = s.alloc_register();
            assert(s1 == ProgramState { next_free_register: (s.next_free_register + 1) as usize, ..s });
            lemma_translate_result_register(select, s1, args@[0], reg);
        }
    }
}

/// Looking the sources up gives, for each source in order, the first
/// schema table of its name.
proof fn lemma_resolve_sources_in_order(schema: Schema, sources: Seq<(SelectTable, Option<JoinedSelectTable>)>)
    ensures
        resolve_sources(schema, sources) matches Outcome::Done(Ok(idxs)) ==> {
            &&& idxs.len() == sources.len()
            &&& forall|i: int|
                0 <= i < sources.len() ==> ((#[trigger] sources[i]).0 matches SelectTable::Table(n, _)
                    && first_table_named(schema.tables@, n@) == Some(idxs[i]))
        },
    decreases sources.len(),
{
    if sources.len() > 0 {
        lemma_resolve_sources_in_order(schema, sources.drop_first());
        if let Outcome::Done(Ok(idxs)) = resolve_sources(schema, sources) {
            if let SelectTable::Table(n, _) = sources[0].0 {
                let i0 = first_table_named(schema.tables@, n@).unwrap();
                let rest = resolve_sources(schema, sources.drop_first());
                if let Outcome::Done(Ok(r)) = rest {
                    assert(idxs == seq![i0] + r);
                    assert forall|i: int| 1 <= i < sources.len() implies ((#[trigger] sources[i]).0 matches SelectTable::Table(
                        m,
                        _,
                    ) && first_table_named(schema.tables@, m@) == Some(idxs[i])) by {
                        assert(sources[i] == sources.drop_first()[i - 1]);
                    }
                }
            }
        }
    }
}

/// A planned source table is the first schema table named as `source`
/// names it, going by the alias written beside it, if any.
pub open spec fn is_named_table(t: crate::select::SrcTable, schema: Schema, source: SelectTable) -> bool {
    &&& source matches SelectTable::Table(n, alias)
    &&& t.table matches crate::schema::Table::BTree(b)
    &&& exists|x: int|
        0 <= x < schema.tables@.len() && #[trigger] schema.tables@[x] == *b && b.name@ == n@ && forall|y: int|
            0 <= y < x ==> (#[trigger] schema.tables@[y]).name@ != n@
    &&& match (t.alias, alias) {
        (Some(a), Some(w)) => *a == w.spec_name(),
        (None, None) => true,
        _ => false,
    }
}

/// The joined tables of a `FROM` clause, in the order they are written.
pub open spec fn joined_tables(f: FromClause) -> Seq<JoinedSelectTable> {
    match f.joins {
        Some(j) => j@,
        None => Seq::empty(),
    }
}

/// A plan reads the table of the `FROM` clause first, then the joined
/// tables in the order they are written, each with the join it comes
/// from; without a `FROM` clause it reads no table.
pub proof fn lemma_plan_sources_in_order(schema: Schema, select: crate::ast::Select, plan: Select)
    requires
        plans_to(schema, select, Ok(plan)),
    ensures
        select.body.select matches OneSelect::Select { from: Some(f), .. } ==> {
            &&& f.select is Some
            &&& plan.src_tables@.len() == 1 + joined_tables(f).len()
            &&& is_named_table(plan.src_tables@[0], schema, f.select.unwrap())
            &&& plan.src_tables@[0].join_info is None
            &&& forall|i: int|
                #![trigger plan.src_tables@[i + 1]]
                0 <= i < joined_tables(f).len() ==> {
                    &&& is_named_table(plan.src_tables@[i + 1], schema, joined_tables(f)[i].table)
                    &&& (plan.src_tables@[i + 1].join_info matches Some(ji) && *ji == joined_tables(f)[i])
                }
        },
        select.body.select matches OneSelect::Select { from: None, .. } ==> plan.src_tables@.len() == 0,
{
    if let OneSelect::Select { columns, from: Some(f), where_clause } = select.body.select {
        let first = f.select.unwrap();
        let sources = from_sources(first, f.joins);
        let idxs = match spec_build_select(schema, select) {
            Outcome::Done(Ok(i)) => i,
            _ => Seq::empty(),
        };
        lemma_resolve_sources_in_order(schema, sources);
        assert(plan_is(plan, schema, idxs, sources, columns@, where_clause, select.limit));
        let src = plan.src_tables@;
        assert forall|i: int| 0 <= i < sources.len() implies is_named_table(#[trigger] src[i], schema, sources[i].0)
            && match (src[i].join_info, sources[i].1) {
                (Some(a), Some(b)) => *a == b,
                (None, None) => true,
                _ => false,
            } by {
            assert(src_table_is(src[i], schema, idxs[i], sources[i]));
            if let SelectTable::Table(n, _) = sources[i].0 {
                lemma_first_table_named(schema.tables@, n@);
                let x = idxs[i];
                assert(schema.tables@[x].name@ == n@);
            }
        }
        assert(src[0].join_info is None);
        if let Some(j) = f.joins {
            assert forall|i: int| 0 <= i < j@.len() implies is_named_table(#[trigger] src[i + 1], schema, j@[i].table)
                && (src[i + 1].join_info matches Some(ji) && *ji == j@[i]) by {
                assert(sources[i + 1] == (j@[i].table, Some(j@[i])));
            }
        }
    }
}

/// The register an instruction writes, if it writes one.
pub open spec fn written_register(insn: InsnView) -> Option<usize> {
    match insn {
        InsnView::Integer { dest, .. } => Some(dest),
        InsnView::Real { dest, .. } => Some(dest),
        InsnView::String8 { dest, .. } => Some(dest),
        InsnView::Null { dest } => Some(dest),
        InsnView::Add { dest, .. } => Some(dest),
        InsnView::Function { dest, .. } => Some(dest),
        InsnView::RowId { dest, .. } => Some(dest),
        InsnView::Column { dest, .. } => Some(dest),
        InsnView::RealAffinity { register } => Some(register),
        _ => None,
    }
}

/// Every instruction of `insns` from position `from` on writes only
/// `target` or a register in `lo..hi`.
pub open spec fn writes_within(insns: Seq<InsnView>, from: int, target: usize, lo: int, hi: int) -> bool {
    forall|i: int|
        from <= i < insns.len() ==> match written_register(#[trigger] insns[i]) {
            Some(r) => r == target || lo <= r < hi,
            None => true,
        }
}

/// The instructions added between states `s` and `s2` write only `target`
/// and registers handed out in between.
pub open spec fn writes_fresh(s: ProgramState, s2: ProgramState, target: usize) -> bool {
    &&& writes_within(s2.insns, s.insns.len() as int, target, s.next_free_register as int, s2.next_free_register as int)
    &&& writes_within(
        s2.constant_insns,
        s.constant_insns.len() as int,
        target,
        s.next_free_register as int,
        s2.next_free_register as int,
    )
}

proof fn lemma_writes_fresh_trans(
    s: ProgramState,
    s1: ProgramState,
    s2: ProgramState,
    t1: usize,
    t2: usize,
    target: usize,
)
    requires
        extends(s1, s),
        extends(s2, s1),
        writes_fresh(s, s1, t1),
        writes_fresh(s1, s2, t2),
        t1 == target || s.next_free_register <= t1 < s2.next_free_register,
        t2 == target || s.next_free_register <= t2 < s2.next_free_register,
    ensures
        writes_fresh(s, s2, target),
{
    assert forall|i: int| s.insns.len() <= i < s2.insns.len() implies match written_register(
        #[trigger] s2.insns[i],
    ) {
        Some(r) => r == target || s.next_free_register <= r < s2.next_free_register,
        None => true,
    } by {
        if i < s1.insns.len() {
            assert(s1.insns[i] == s2.insns[i]);
        }
    }
    assert forall|i: int| s.constant_insns.len() <= i < s2.constant_insns.len() implies match written_register(
        #[trigger] s2.constant_insns[i],
    ) {
        Some(r) => r == target || s.next_free_register <= r < s2.next_free_register,
        None => true,
    } by {
        if i < s1.constant_insns.len() {
            assert(s1.constant_insns[i] == s2.constant_insns[i]);
        }
    }
}

proof fn lemma_writes_fresh_refl(s: ProgramState, target: usize)
    ensures
        writes_fresh(s, s, target),
{
}

proof fn lemma_emit_writes(s: ProgramState, insn: InsnView, target: usize, label: BranchOffset)
    requires
        match written_register(insn) {
            Some(r) => r == target,
            None => true,
        },
    ensures
        writes_fresh(s, s.emit(insn), target),
        writes_fresh(s, s.emit_with_label_dependency(insn, label), target),
{
}

proof fn lemma_jump_writes(s: ProgramState, insn: InsnView, target: usize, label: BranchOffset)
    requires
        written_register(insn) is None,
    ensures
        writes_fresh(s, spec_jump_expr(s, insn, target, label), target),
{
    let s1 = s.emit(InsnView::Integer { value: 1, dest: target });
    let s2 = s1.emit_with_label_dependency(insn, label);
    let s3 = s2.emit(InsnView::Integer { value: 0, dest: target });
    let s4 = s3.preassign_label(label);
    assert forall|i: int| s.insns.len() <= i < s4.insns.len() implies match written_register(
        #[trigger] s4.insns[i],
    ) {
        Some(r) => r == target || s.next_free_register <= r < s4.next_free_register,
        None => true,
    } by {
        assert(s4.insns == s.insns.push(InsnView::Integer { value: 1, dest: target }).push(insn).push(
            InsnView::Integer { value: 0, dest: target },
        ));
    }
}

/// Translation writes only its target register and the registers it hands
/// out itself: registers handed out before it, other than the target, keep
/// their values. This holds whether translation succeeds or stops with an
/// error.
pub proof fn lemma_translate_writes_fresh(select: Select, s: ProgramState, expr: Expr, target: usize)
    ensures
        spec_translate(select, s, expr, target) matches Outcome::Done((s2, _)) ==> writes_fresh(
            s,
            s2,
            target,
        ),
    decreases expr,
{
    lemma_translate_extends(select, s, expr, target);
    match expr {
        Expr::Binary(e1, op, e2) => {
            if s.next_free_register < usize::MAX - 1 {
                let (s1, r1) = s.alloc_register();
                let (s2, r2) = s1.alloc_register();
                lemma_emit_extends(s, InsnView::Null { dest: 0 }, 0);
                lemma_emit_extends(s1, InsnView::Null { dest: 0 }, 0);
                lemma_extends_trans(s, s1, s2);
                lemma_writes_fresh_refl(s, target);
                assert(writes_fresh(s, s2, target));
                lemma_translate_extends(select, s2, *e1, r1);
                lemma_translate_writes_fresh(select, s2, *e1, r1);
                match spec_translate(select, s2, *e1, r1) {
                    Outcome::Done((s3, r)) => {
                        lemma_writes_fresh_trans(s, s2, s3, target, r1, target);
                        lemma_extends_trans(s, s2, s3);
                        if r is Ok {
                            lemma_translate_extends(select, s3, *e2, r2);
                            lemma_translate_writes_fresh(select, s3, *e2, r2);
                            match spec_translate(select, s3, *e2, r2) {
                                Outcome::Done((s4, r)) => {
                                    lemma_writes_fresh_trans(s, s3, s4, target, r2, target);
                                    lemma_extends_trans(s, s3, s4);
                                    if r is Ok {
                                        let add = InsnView::Add { lhs: r1, rhs: r2, dest: target };
                                        lemma_emit_extends(s4, add, 0);
                                        lemma_emit_writes(s4, add, target, 0);
                                        lemma_writes_fresh_trans(s, s4, s4.emit(add), target, target, target);
                                        if is_comparison(op) && s4.next_free_label > i64::MIN {
                                            let (s5, label) = s4.allocate_label();
                                            let jump = comparison_insn(op, r1, r2, label);
                                            lemma_emit_extends(s4, InsnView::Null { dest: 0 }, 0);
                                            lemma_writes_fresh_refl(s4, target);
                                            assert(writes_fresh(s4, s5, target));
                                            lemma_writes_fresh_trans(s, s4, s5, target, target, target);
                                            lemma_extends_trans(s, s4, s5);
                                            lemma_jump_extends(s5, jump, target, label);
                                            lemma_jump_writes(s5, jump, target, label);
                                            lemma_writes_fresh_trans(
                                                s,
                                                s5,
                                                spec_jump_expr(s5, jump, target, label),
                                                target,
                                                target,
                                                target,
                                            );
                                        }
                                    }
                                },
                                _ => {},
                            }
                        }
                    },
                    _ => {},
                }
            }
        },
        Expr::FunctionCall { name, args } => {
            match args {
                Some(a) => match called_function(name@) {
                    Some(Func::SingleRow(f)) => lemma_call_writes_fresh(select, s, f, a@, target),
                    _ => {},
                },
                None => {},
            }
        },
        Expr::Id(_) => {
            lemma_read_column_writes(s, target);
        },
        Expr::Qualified(_, _) => {
            lemma_read_column_writes(s, target);
        },
        Expr::Literal(lit) => {
            lemma_literal_emits_one(s, lit, target);
        },
        _ => {},
    }
}

proof fn lemma_read_column_writes(s: ProgramState, target: usize)
    ensures
        forall|col: crate::schema::Column, idx: usize, cursor: usize|
            writes_fresh(s, #[trigger] spec_read_column(s, col, idx, cursor, target), target),
{
    assert forall|col: crate::schema::Column, idx: usize, cursor: usize|
        writes_fresh(s, #[trigger] spec_read_column(s, col, idx, cursor, target), target) by {
        let i1 = InsnView::RowId { cursor_id: cursor, dest: target };
        let i2 = InsnView::Column { cursor_id: cursor, column: idx, dest: target };
        let aff = InsnView::RealAffinity { register: target };
        let r1 = s.emit(i1);
        let r2 = s.emit(i2);
        lemma_emit_extends(s, i1, 0);
        lemma_emit_extends(s, i2, 0);
        lemma_emit_extends(r1, aff, 0);
        lemma_emit_extends(r2, aff, 0);
        lemma_emit_writes(s, i1, target, 0);
        lemma_emit_writes(s, i2, target, 0);
        lemma_emit_writes(r1, aff, target, 0);
        lemma_emit_writes(r2, aff, target, 0);
        lemma_writes_fresh_trans(s, r1, r1.emit(aff), target, target, target);
        lemma_writes_fresh_trans(s, r2, r2.emit(aff), target, target, target);
    }
}

proof fn lemma_call_writes_fresh(select: Select, s: ProgramState, f: SingleRowFunc, args: Seq<Expr>, target: usize)
    ensures
        spec_translate_call(select, s, f, args, target) matches Outcome::Done((s2, _)) ==> writes_fresh(
            s,
            s2,
            target,
        ),
    decreases args, 1int,
{
    lemma_call_extends(select, s, f, args, target);
    match f {
        SingleRowFunc::Coalesce => {
            if args.len() >= 2 && s.next_free_label > i64::MIN {
                let (s1, label) = s.allocate_label();
                lemma_emit_extends(s, InsnView::Null { dest: 0 }, 0);
                lemma_coalesce_extends(select, s1, args, target, label);
                lemma_coalesce_writes_fresh(select, s1, args, target, label);
                match spec_coalesce_args(select, s1, args, target, label) {
                    Outcome::Done((s2, _)) => {
                        lemma_writes_fresh_refl(s, target);
                        assert(writes_fresh(s, s1, target));
                        lemma_writes_fresh_trans(s, s1, s2, target, target, target);
                        lemma_extends_trans(s, s1, s2);
                        lemma_emit_extends(s2, InsnView::Null { dest: 0 }, label);
                        assert(writes_fresh(s2, s2.preassign_label(label), target));
                        lemma_writes_fresh_trans(s, s2, s2.preassign_label(label), target, target, target);
                    },
                    _ => {},
                }
            }
        },
        SingleRowFunc::Like => {
            if args.len() >= 2 {
                lemma_like_extends(select, s, args);
                lemma_like_writes_fresh(select, s, args, target);
                match spec_like_args(select, s, args) {
                    Outcome::Done((s2, _)) => {
                        let i = InsnView::Function {
                            start_reg: (target + 1) as usize,
                            dest: target,
                            func: SingleRowFunc::Like,
                        };
                        lemma_emit_extends(s2, i, 0);
                        lemma_emit_writes(s2, i, target, 0);
                        lemma_writes_fresh_trans(s, s2, s2.emit(i), target, target, target);
                    },
                    _ => {},
                }
            }
        },
        SingleRowFunc::Abs => {
            if args.len() == 1 && s.next_free_register < usize::MAX {
                let (s1, reg) = s.alloc_register();
                lemma_emit_extends(s, InsnView::Null { dest: 0 }, 0);
                lemma_translate_extends(select, s1, args[0], reg);
                lemma_translate_writes_fresh(select, s1, args[0], reg);
                match spec_translate(select, s1, args[0], reg) {
                    Outcome::Done((s2, _)) => {
                        lemma_writes_fresh_refl(s, target);
                        assert(writes_fresh(s, s1, target));
                        lemma_writes_fresh_trans(s, s1, s2, target, reg, target);
                        lemma_extends_trans(s, s1, s2);
                        let i = InsnView::Function {
                            start_reg: reg,
                            dest: target,
                            func: SingleRowFunc::Abs,
                        };
                        lemma_emit_extends(s2, i, 0);
                        lemma_emit_writes(s2, i, target, 0);
                        lemma_writes_fresh_trans(s, s2, s2.emit(i), target, target, target);
                    },
                    _ => {},
                }
            }
        },
    }
}

proof fn lemma_coalesce_writes_fresh(
    select: Select,
    s: ProgramState,
    args: Seq<Expr>,
    target: usize,
    label: BranchOffset,
)
    ensures
        spec_coalesce_args(select, s, args, target, label) matches Outcome::Done((s2, _))
            ==> writes_fresh(s, s2, target),
    decreases args, 0int,
{
    lemma_coalesce_extends(select, s, args, target, label);
    if args.len() > 0 {
        lemma_translate_extends(select, s, args[0], target);
        lemma_translate_writes_fresh(select, s, args[0], target);
        match spec_translate(select, s, args[0], target) {
            Outcome::Done((s1, Ok(reg))) => {
                let nn = InsnView::NotNull { reg, target_pc: label };
                let s2 = if args.len() > 1 {
                    s1.emit_with_label_dependency(nn, label)
                } else {
                    s1
                };
                lemma_emit_extends(s1, nn, label);
                lemma_emit_writes(s1, nn, target, label);
                lemma_extends_refl(s1);
                lemma_writes_fresh_refl(s1, target);
                lemma_writes_fresh_trans(s, s1, s2, target, target, target);
                lemma_extends_trans(s, s1, s2);
                lemma_coalesce_extends(select, s2, args.drop_first(), target, label);
                lemma_coalesce_writes_fresh(select, s2, args.drop_first(), target, label);
                match spec_coalesce_args(select, s2, args.drop_first(), target, label) {
                    Outcome::Done((s3, _)) => {
                        lemma_writes_fresh_trans(s, s2, s3, target, target, target);
                    },
                    _ => {},
                }
            },
            _ => {},
        }
    }
}

proof fn lemma_like_writes_fresh(select: Select, s: ProgramState, args: Seq<Expr>, target: usize)
    ensures
        spec_like_args(select, s, args) matches Outcome::Done((s2, _)) ==> writes_fresh(s, s2, target),
    decreases args, 0int,
{
    lemma_like_extends(select, s, args);
    if args.len() > 0 && s.next_free_register < usize::MAX {
        let (s1, reg) = s.alloc_register();
        lemma_emit_extends(s, InsnView::Null { dest: 0 }, 0);
        lemma_writes_fresh_refl(s, target);
        assert(writes_fresh(s, s1, target));
        lemma_translate_extends(select, s1, args[0], reg);
        lemma_translate_writes_fresh(select, s1, args[0], reg);
        match spec_translate(select, s1, args[0], reg) {
            Outcome::Done((s2, r)) => {
                lemma_writes_fresh_trans(s, s1, s2, target, reg, target);
                lemma_extends_trans(s, s1, s2);
                if r is Ok && !(args[0] is Literal && s2.insns.len() == 0) {
                    let s3 = if args[0] is Literal {
                        s2.mark_last_insn_constant()
                    } else {
                        s2
                    };
                    if args[0] is Literal {
                        lemma_literal_emits_one(s1, args[0]->Literal_0, reg);
                        assert(extends(s3, s1)) by {
                            assert forall|i: int| 0 <= i < s1.constant_insns.len() implies #[trigger] s1.constant_insns[i]
                                == s3.constant_insns[i] by {
                                assert(s1.constant_insns[i] == s2.constant_insns[i]);
                            }
                            assert forall|i: int| 0 <= i < s1.insns.len() implies #[trigger] s1.insns[i]
                                == s3.insns[i] by {
                                assert(s1.insns[i] == s2.insns[i]);
                            }
                        }
                        // The moved load writes the argument's register.
                        assert(writes_fresh(s, s3, target)) by {
                            let moved = s2.insns.last();
                            assert(s2.insns[s2.insns.len() - 1] == moved);
                            assert forall|i: int| s.constant_insns.len() <= i < s3.constant_insns.len() implies match written_register(
                                #[trigger] s3.constant_insns[i],
                            ) {
                                Some(x) => x == target || s.next_free_register <= x < s3.next_free_register,
                                None => true,
                            } by {
                                if i < s2.constant_insns.len() {
                                    assert(s3.constant_insns[i] == s2.constant_insns[i]);
                                } else {
                                    assert(s3.constant_insns[i] == moved);
                                }
                            }
                            assert forall|i: int| s.insns.len() <= i < s3.insns.len() implies match written_register(
                                #[trigger] s3.insns[i],
                            ) {
                                Some(x) => x == target || s.next_free_register <= x < s3.next_free_register,
                                None => true,
                            } by {
                                assert(s3.insns[i] == s2.insns[i]);
                            }
                        }
                        lemma_extends_trans(s, s1, s3);
                    }
                    lemma_like_extends(select, s3, args.drop_first());
                    lemma_like_writes_fresh(select, s3, args.drop_first(), target);
                    match spec_like_args(select, s3, args.drop_first()) {
                        Outcome::Done((s4, _)) => {
                            lemma_writes_fresh_trans(s, s3, s4, target, target, target);
                        },
                        _ => {},
                    }
                }
            },
            _ => {},
        }
    }
}

/// Some call in the expression, as an operand or an argument at any depth,
/// is of an aggregate function.
pub open spec fn contains_aggregate(expr: Expr) -> bool
    decreases expr,
{
    match expr {
        Expr::FunctionCall { name, args } => aggregate_named(name@) is Some || match args {
            Some(a) => args_contain_aggregate(a@),
            None => false,
        },
        Expr::FunctionCallStar { name } => aggregate_named(name@) is Some,
        Expr::Binary(l, _, r) => contains_aggregate(*l) || contains_aggregate(*r),
        Expr::Unary(_, e) => contains_aggregate(*e),
        _ => false,
    }
}

/// Some expression of the list contains a call of an aggregate function.
pub open spec fn args_contain_aggregate(args: Seq<Expr>) -> bool
    decreases args, 0int,
{
    args.len() > 0 && (contains_aggregate(args[0]) || args_contain_aggregate(args.drop_first()))
}

/// The first aggregate call of an expression is found exactly when it
/// calls an aggregate function somewhere, and it is one.
pub proof fn lemma_first_aggregate(expr: Expr)
    ensures
        (first_aggregate(expr) is Some) == contains_aggregate(expr),
        first_aggregate(expr) matches Some((f, _)) ==> f is Agg,
    decreases expr,
{
    match expr {
        Expr::FunctionCall { name, args } => if let Some(a) = args {
            lemma_first_aggregate_in(a@);
        },
        Expr::Binary(l, _, r) => {
            lemma_first_aggregate(*l);
            lemma_first_aggregate(*r);
        },
        Expr::Unary(_, e) => lemma_first_aggregate(*e),
        _ => {},
    }
}

/// The first aggregate call of a list is found exactly when one of its
/// expressions calls an aggregate function, and it is one.
pub proof fn lemma_first_aggregate_in(args: Seq<Expr>)
    ensures
        (first_aggregate_in(args) is Some) == args_contain_aggregate(args),
        first_aggregate_in(args) matches Some((f, _)) ==> f is Agg,
    decreases args, 0int,
{
    if args.len() > 0 {
        lemma_first_aggregate(args[0]);
        lemma_first_aggregate_in(args.drop_first());
    }
}

/// The call at the head of an expression records an aggregation only by
/// recording an aggregate call of the expression; otherwise what it
/// records is no aggregation, or what was there before.
proof fn lemma_head_aggregation(expr: Expr, info: ColumnInfoView)
    ensures
        spec_analyze_head(expr, info) matches Outcome::Done(i1) ==> i1 == info || (i1.is_aggregation()
            ==> contains_aggregate(expr)),
    decreases expr,
{
    if let Expr::FunctionCall { name, args } = expr {
        if name@ != seq!['"'] && called_function(name@) is None {
            if let Some(a) = args {
                if a@.len() > 0 {
                    lemma_head_aggregation(a@[0], info);
                    if contains_aggregate(a@[0]) {
                        assert(args_contain_aggregate(a@));
                    }
                }
            }
        }
    }
}

/// Analysis finds an aggregation wherever the expression calls an
/// aggregate function, at any depth, and records the first such call; it
/// finds one otherwise only where one was recorded before and is left as
/// it was.
pub proof fn lemma_analysis_finds_aggregates(expr: Expr, info: ColumnInfoView)
    ensures
        match spec_analyze_expr(expr, info) {
            Outcome::Done(found) => {
                &&& contains_aggregate(expr) ==> found.is_aggregation() && found.func == Some(
                    first_aggregate(expr).unwrap().0,
                )
                &&& found.is_aggregation() ==> contains_aggregate(expr) || found == info
            },
            Outcome::Panics => true,
        },
{
    lemma_first_aggregate(expr);
    lemma_head_aggregation(expr, info);
}

/// A result column whose expression calls an aggregate function somewhere.
pub open spec fn column_calls_aggregate(column: ResultColumn) -> bool {
    column matches ResultColumn::Expr(e, _) && contains_aggregate(e)
}

/// A result column is analyzed as an aggregation exactly when its
/// expression calls an aggregate function somewhere; `*` and `table.*`
/// never are.
pub proof fn lemma_column_aggregation(column: ResultColumn, total: int)
    ensures
        match spec_column_info(column, total) {
            Outcome::Done(found) => found.is_aggregation() == column_calls_aggregate(column),
            Outcome::Panics => true,
        },
{
    if let ResultColumn::Expr(e, _) = column {
        lemma_analysis_finds_aggregates(e, ColumnInfoView::initial());
    }
}

/// A plan aggregates exactly when one of its result columns calls an
/// aggregate function somewhere in its expression.
pub proof fn lemma_plan_aggregation(
    plan: Select,
    schema: Schema,
    idxs: Seq<int>,
    sources: Seq<(SelectTable, Option<JoinedSelectTable>)>,
    columns: Seq<ResultColumn>,
    where_clause: Option<Expr>,
    limit: Option<Limit>,
)
    requires
        plan_is(plan, schema, idxs, sources, columns, where_clause, limit),
    ensures
        plan.exist_aggregation == exists|i: int|
            0 <= i < columns.len() && column_calls_aggregate(#[trigger] columns[i]),
{
    let total = total_schema_columns(schema, idxs);
    assert forall|i: int| 0 <= i < columns.len() implies
        (#[trigger] plan.column_info@[i]@).is_aggregation() == column_calls_aggregate(columns[i]) by {
        lemma_column_aggregation(columns[i], total);
        assert(spec_column_info(columns[i], total) == Outcome::Done(plan.column_info@[i]@));
    }
    if plan.exist_aggregation {
        let i = choose|i: int| 0 <= i < columns.len() && (#[trigger] plan.column_info@[i]@).is_aggregation();
        assert(column_calls_aggregate(columns[i]));
    }
    if exists|i: int| 0 <= i < columns.len() && column_calls_aggregate(#[trigger] columns[i]) {
        let i = choose|i: int| 0 <= i < columns.len() && column_calls_aggregate(#[trigger] columns[i]);
        assert(plan.column_info@[i]@.is_aggregation());
    }
}

/// `perm` and `inv` are inverse orderings of `n` positions.
pub open spec fn is_permutation(perm: Seq<int>, inv: Seq<int>, n: int) -> bool {
    &&& perm.len() == n
    &&& inv.len() == n
    &&& forall|i: int| 0 <= i < n ==> 0 <= #[trigger] perm[i] < n && inv[perm[i]] == i
    &&& forall|i: int| 0 <= i < n ==> 0 <= #[trigger] inv[i] < n && perm[inv[i]] == i
}

/// The order of the source tables plays no part in resolving an
/// unqualified column name: when the tables of `select2` are those of
/// `select` reordered by `perm` (with `inv` its inverse), both resolve the
/// name to the same column of the same table under the same cursor, fail
/// with the same error, or both panic.
pub proof fn lemma_resolve_table_order_free(
    select: Select,
    select2: Select,
    s: ProgramState,
    ident: String,
    perm: Seq<int>,
    inv: Seq<int>,
)
    requires
        is_permutation(perm, inv, select.src_tables@.len() as int),
        select2.src_tables@.len() == select.src_tables@.len(),
        forall|i: int|
            0 <= i < select2.src_tables@.len() ==> #[trigger] select2.src_tables@[i]
                == select.src_tables@[perm[i]],
    ensures
        match (spec_resolve_table(select, s, ident), spec_resolve_table(select2, s, ident)) {
            (Outcome::Panics, Outcome::Panics) => true,
            (Outcome::Done(Err(e)), Outcome::Done(Err(e2))) => e2 == e,
            (Outcome::Done(Ok((c, k, cur))), Outcome::Done(Ok((c2, k2, cur2)))) => {
                &&& c2 == c
                &&& cur2 == cur
                &&& perm[k2] == k
            },
            _ => false,
        },
{
    let src = select.src_tables@;
    let src2 = select2.src_tables@;
    let n = src.len() as int;
    let name = ident@;
    let cursors = s.cursors;
    assert forall|k: int| 0 <= k < n implies #[trigger] src2[inv[k]] == src[k] by {
        assert(src2[inv[k]] == src[perm[inv[k]]]);
    }
    if resolve_table_panics(src, cursors, name) {
        let k = choose|k: int|
            0 <= k < src.len() && (#[trigger] src[k].table is Pseudo || (has_column(src[k], name)
                && first_cursor(cursors, table_identifier(src[k])) is None));
        assert(src2[inv[k]] == src[k]);
        assert(resolve_table_panics(src2, cursors, name));
    } else {
        if resolve_table_panics(src2, cursors, name) {
            let k2 = choose|k2: int|
                0 <= k2 < src2.len() && (#[trigger] src2[k2].table is Pseudo || (has_column(src2[k2], name)
                    && first_cursor(cursors, table_identifier(src2[k2])) is None));
            assert(src2[k2] == src[perm[k2]]);
            assert(false);
        }
        lemma_resolve_table_unambiguous(select, s, ident);
        lemma_resolve_table_unambiguous(select2, s, ident);
        let found = tables_with_column(src, name);
        let found2 = tables_with_column(src2, name);
        lemma_tables_with_column_exact(src, name);
        lemma_tables_with_column_exact(src2, name);
        if found.len() == 1 {
            let k = found[0];
            assert(src2[inv[k]] == src[k]);
            assert(has_column(src2[inv[k]], name));
            assert forall|j2: int| 0 <= j2 < n && j2 != inv[k] implies !has_column(#[trigger] src2[j2], name) by {
                assert(src2[j2] == src[perm[j2]]);
                assert(perm[j2] != k);
            }
            if found2.len() != 1 {
                if found2.len() >= 2 {
                    let (a, b) = choose|a: int, b: int|
                        0 <= a < b < n && has_column(#[trigger] src2[a], name) && has_column(#[trigger] src2[b], name);
                    assert(a == inv[k] && b == inv[k]);
                }
                assert(false);
            }
            assert(found2[0] == inv[k]);
        } else if found.len() == 0 {
            if found2.len() != 0 {
                if found2.len() == 1 {
                    let k2 = found2[0];
                    assert(src2[k2] == src[perm[k2]]);
                    assert(found.contains(perm[k2]));
                } else {
                    let (a, b) = choose|a: int, b: int|
                        0 <= a < b < n && has_column(#[trigger] src2[a], name) && has_column(#[trigger] src2[b], name);
                    assert(src2[a] == src[perm[a]]);
                    assert(found.contains(perm[a]));
                }
                assert(false);
            }
        } else {
            let (a, b) = choose|a: int, b: int|
                0 <= a < b < n && has_column(#[trigger] src[a], name) && has_column(#[trigger] src[b], name);
            assert(src2[inv[a]] == src[a]);
            assert(src2[inv[b]] == src[b]);
            assert(inv[a] != inv[b]);
            if found2.len() <= 1 {
                if found2.len() == 1 {
                    let k2 = found2[0];
                    assert(inv[a] == k2 || !has_column(src2[inv[a]], name));
                } else {
                    assert(!has_column(src2[inv[a]], name));
                }
                assert(false);
            }
        }
    }
}

} // verus!
