use limbo_core::ast::{
    As, Expr, FromClause, JoinedSelectTable, Literal, OneSelect, Operator, ResultColumn, Select as SelectStmt,
    SelectBody, SelectTable, UnaryOperator,
};
use limbo_core::error::Error;
use limbo_core::expr::{
    analyze_columns, analyze_expr, build_select, maybe_apply_affinity, resolve_ident_qualified, resolve_ident_table,
    translate_expr,
};
use limbo_core::function::{AggFunc, Func, SingleRowFunc};
use limbo_core::schema::{BTreeTable, Column, Schema, Table, Type};
use limbo_core::select::{ColumnInfo, Select, SrcTable};
use limbo_core::vdbe::{Insn, ProgramBuilder};

fn col(name: &str, ty: Type, primary_key: bool) -> Column {
    Column { name: name.to_string(), ty, primary_key }
}

fn schema() -> Schema {
    let mut s = Schema::new();
    s.add_table(BTreeTable {
        name: "users".to_string(),
        columns: vec![
            col("id", Type::Integer, true),
            col("name", Type::Text, false),
            col("score", Type::Real, false),
        ],
    });
    s.add_table(BTreeTable {
        name: "orders".to_string(),
        columns: vec![col("oid", Type::Integer, true), col("name", Type::Text, false), col("total", Type::Real, false)],
    });
    s
}

fn num(s: &str) -> Expr {
    Expr::Literal(Literal::Numeric(s.to_string()))
}

fn text(s: &str) -> Expr {
    Expr::Literal(Literal::String(s.to_string()))
}

fn id(s: &str) -> Expr {
    Expr::Id(s.to_string())
}

fn call(name: &str, args: Option<Vec<Expr>>) -> Expr {
    Expr::FunctionCall { name: name.to_string(), args }
}

fn select_stmt(columns: Vec<ResultColumn>, from: Option<FromClause>) -> SelectStmt {
    SelectStmt { body: SelectBody { select: OneSelect::Select { columns, from, where_clause: None } }, limit: None }
}

fn from_users(joins: Option<Vec<JoinedSelectTable>>) -> FromClause {
    FromClause { select: Some(SelectTable::Table("users".to_string(), None)), joins }
}

fn join(name: &str, alias: Option<As>) -> JoinedSelectTable {
    JoinedSelectTable { table: SelectTable::Table(name.to_string(), alias), constraint: None }
}

fn empty_select() -> SelectStmt {
    select_stmt(vec![], None)
}

#[test]
fn integer_literal_loads_into_target() {
    let stmt = empty_select();
    let s = schema();
    let plan = build_select(&s, &stmt).unwrap();
    let mut p = ProgramBuilder::new();
    assert_eq!(translate_expr(&mut p, &plan, &num("42"), 5), Ok(5));
    assert_eq!(p.insns(), &vec![Insn::Integer { value: 42, dest: 5 }]);
}

#[test]
fn real_literal_keeps_its_text() {
    let stmt = empty_select();
    let s = schema();
    let plan = build_select(&s, &stmt).unwrap();
    let mut p = ProgramBuilder::new();
    assert_eq!(translate_expr(&mut p, &plan, &num("1.5"), 0), Ok(0));
    assert_eq!(p.insns(), &vec![Insn::Real { literal: "1.5".to_string(), negative: false, dest: 0 }]);
}

#[test]
fn negative_literals() {
    let stmt = empty_select();
    let s = schema();
    let plan = build_select(&s, &stmt).unwrap();
    let mut p = ProgramBuilder::new();
    let neg = |v: &str| Expr::Unary(UnaryOperator::Negative, Box::new(num(v)));
    assert_eq!(translate_expr(&mut p, &plan, &neg("7"), 1), Ok(1));
    assert_eq!(translate_expr(&mut p, &plan, &neg("2.5"), 2), Ok(2));
    assert_eq!(translate_expr(&mut p, &plan, &neg("0x1F"), 3), Err(Error::InvalidNumber("0x1F".to_string())));
    assert_eq!(
        p.insns(),
        &vec![
            Insn::Integer { value: -7, dest: 1 },
            Insn::Real { literal: "2.5".to_string(), negative: true, dest: 2 },
        ]
    );
}

#[test]
fn string_and_null_literals() {
    let stmt = empty_select();
    let s = schema();
    let plan = build_select(&s, &stmt).unwrap();
    let mut p = ProgramBuilder::new();
    assert_eq!(translate_expr(&mut p, &plan, &text("'héllo'"), 0), Ok(0));
    assert_eq!(translate_expr(&mut p, &plan, &text("''"), 1), Ok(1));
    assert_eq!(translate_expr(&mut p, &plan, &Expr::Literal(Literal::Null), 2), Ok(2));
    assert_eq!(
        p.insns(),
        &vec![
            Insn::String8 { value: "héllo".to_string(), dest: 0 },
            Insn::String8 { value: "".to_string(), dest: 1 },
            Insn::Null { dest: 2 },
        ]
    );
}

#[test]
fn comparison_becomes_zero_or_one() {
    let stmt = empty_select();
    let s = schema();
    let plan = build_select(&s, &stmt).unwrap();
    let mut p = ProgramBuilder::new();
    let e = Expr::Binary(Box::new(num("1")), Operator::Equals, Box::new(num("2")));
    assert_eq!(translate_expr(&mut p, &plan, &e, 10), Ok(10));
    assert_eq!(
        p.insns(),
        &vec![
            Insn::Integer { value: 1, dest: 0 },
            Insn::Integer { value: 2, dest: 1 },
            Insn::Integer { value: 1, dest: 10 },
            Insn::Eq { lhs: 0, rhs: 1, target_pc: -1 },
            Insn::Integer { value: 0, dest: 10 },
        ]
    );
    assert_eq!(p.label_dependencies(), &vec![(-1, 3)]);
    assert_eq!(p.next_insn_label(), Some(-1));
    assert_eq!(p.next_free_register(), 2);
}

#[test]
fn every_comparison_operator() {
    let ops = [
        (Operator::NotEquals, Insn::Ne { lhs: 0, rhs: 1, target_pc: -1 }),
        (Operator::Less, Insn::Lt { lhs: 0, rhs: 1, target_pc: -1 }),
        (Operator::LessEquals, Insn::Le { lhs: 0, rhs: 1, target_pc: -1 }),
        (Operator::Greater, Insn::Gt { lhs: 0, rhs: 1, target_pc: -1 }),
        (Operator::GreaterEquals, Insn::Ge { lhs: 0, rhs: 1, target_pc: -1 }),
    ];
    let stmt = empty_select();
    let s = schema();
    let plan = build_select(&s, &stmt).unwrap();
    for (op, jump) in ops {
        let mut p = ProgramBuilder::new();
        let e = Expr::Binary(Box::new(num("3")), op, Box::new(num("4")));
        assert_eq!(translate_expr(&mut p, &plan, &e, 7), Ok(7));
        assert_eq!(p.insns()[3], jump);
    }
}

#[test]
fn jump_lands_after_the_reset() {
    let stmt = empty_select();
    let s = schema();
    let plan = build_select(&s, &stmt).unwrap();
    let mut p = ProgramBuilder::new();
    let e = Expr::Binary(Box::new(num("1")), Operator::Less, Box::new(num("2")));
    translate_expr(&mut p, &plan, &e, 9).unwrap();
    p.emit_insn(Insn::Null { dest: 3 });
    // The jump is at 3, the reset at 4, and the label now stands for 5.
    assert_eq!(p.insns()[4], Insn::Integer { value: 0, dest: 9 });
    assert_eq!(p.resolved_labels(), &vec![(-1, 5)]);
    assert_eq!(p.next_insn_label(), None);
}

#[test]
fn addition() {
    let stmt = empty_select();
    let s = schema();
    let plan = build_select(&s, &stmt).unwrap();
    let mut p = ProgramBuilder::new();
    let e = Expr::Binary(Box::new(num("1")), Operator::Add, Box::new(num("2")));
    assert_eq!(translate_expr(&mut p, &plan, &e, 4), Ok(4));
    assert_eq!(p.insns()[2], Insn::Add { lhs: 0, rhs: 1, dest: 4 });
    assert_eq!(p.insns().len(), 3);
}

#[test]
fn operand_error_stops_translation() {
    let stmt = empty_select();
    let s = schema();
    let plan = build_select(&s, &stmt).unwrap();
    let mut p = ProgramBuilder::new();
    // The unknown function is reported before the unsupported operator is reached.
    let e = Expr::Binary(Box::new(call("nope", None)), Operator::Multiply, Box::new(num("2")));
    assert_eq!(translate_expr(&mut p, &plan, &e, 4), Err(Error::UnknownFunction("nope".to_string())));
    assert_eq!(p.next_free_register(), 2);
    assert!(p.insns().is_empty());
}

#[test]
fn function_call_errors() {
    let stmt = empty_select();
    let s = schema();
    let plan = build_select(&s, &stmt).unwrap();
    let mut p = ProgramBuilder::new();
    assert_eq!(translate_expr(&mut p, &plan, &call("foo", Some(vec![])), 0), Err(Error::UnknownFunction("foo".to_string())));
    assert_eq!(translate_expr(&mut p, &plan, &call("SUM", Some(vec![num("1")])), 0), Err(Error::AggregateInNonAggregateContext));
    assert_eq!(translate_expr(&mut p, &plan, &call("coalesce", None), 0), Err(Error::NoArguments(SingleRowFunc::Coalesce)));
    assert_eq!(
        translate_expr(&mut p, &plan, &call("coalesce", Some(vec![num("1")])), 0),
        Err(Error::WrongArgumentCount(SingleRowFunc::Coalesce))
    );
    assert_eq!(translate_expr(&mut p, &plan, &call("like", None), 0), Err(Error::NoArguments(SingleRowFunc::Like)));
    assert_eq!(
        translate_expr(&mut p, &plan, &call("like", Some(vec![text("'a'")])), 0),
        Err(Error::WrongArgumentCount(SingleRowFunc::Like))
    );
    assert_eq!(translate_expr(&mut p, &plan, &call("abs", None), 0), Err(Error::NoArguments(SingleRowFunc::Abs)));
    assert_eq!(
        translate_expr(&mut p, &plan, &call("abs", Some(vec![num("1"), num("2")])), 0),
        Err(Error::WrongArgumentCount(SingleRowFunc::Abs))
    );
    assert!(p.insns().is_empty());
}

#[test]
fn coalesce_checks_each_but_the_last() {
    let stmt = empty_select();
    let s = schema();
    let plan = build_select(&s, &stmt).unwrap();
    let mut p = ProgramBuilder::new();
    let e = call("\"COALESCE\"", Some(vec![Expr::Literal(Literal::Null), num("2"), num("3")]));
    assert_eq!(translate_expr(&mut p, &plan, &e, 6), Ok(6));
    assert_eq!(
        p.insns(),
        &vec![
            Insn::Null { dest: 6 },
            Insn::NotNull { reg: 6, target_pc: -1 },
            Insn::Integer { value: 2, dest: 6 },
            Insn::NotNull { reg: 6, target_pc: -1 },
            Insn::Integer { value: 3, dest: 6 },
        ]
    );
    assert_eq!(p.label_dependencies(), &vec![(-1, 1), (-1, 3)]);
    assert_eq!(p.next_insn_label(), Some(-1));
}

#[test]
fn like_moves_literal_loads_to_constants() {
    let u = schema();
    let stmt = select_stmt(vec![], Some(from_users(None)));
    let plan = build_select(&u, &stmt).unwrap();
    let mut p = ProgramBuilder::new();
    p.alloc_cursor_id(Some("users".to_string()));
    let e = call("like", Some(vec![text("'a%'"), id("name")]));
    assert_eq!(translate_expr(&mut p, &plan, &e, 0), Ok(0));
    assert_eq!(p.constant_insns(), &vec![Insn::String8 { value: "a%".to_string(), dest: 0 }]);
    assert_eq!(
        p.insns(),
        &vec![
            Insn::Column { cursor_id: 0, column: 1, dest: 1 },
            Insn::Function { start_reg: 1, dest: 0, func: SingleRowFunc::Like },
        ]
    );
}

#[test]
fn abs_reads_its_argument_into_a_fresh_register() {
    let stmt = empty_select();
    let s = schema();
    let plan = build_select(&s, &stmt).unwrap();
    let mut p = ProgramBuilder::new();
    p.alloc_register();
    let e = call("Abs", Some(vec![Expr::Unary(UnaryOperator::Negative, Box::new(num("3")))]));
    assert_eq!(translate_expr(&mut p, &plan, &e, 0), Ok(0));
    assert_eq!(
        p.insns(),
        &vec![Insn::Integer { value: -3, dest: 1 }, Insn::Function { start_reg: 1, dest: 0, func: SingleRowFunc::Abs }]
    );
}

#[test]
fn columns_resolve_to_reads() {
    let u = schema();
    let stmt = select_stmt(vec![], Some(from_users(None)));
    let plan = build_select(&u, &stmt).unwrap();
    let mut p = ProgramBuilder::new();
    p.alloc_cursor_id(None);
    p.alloc_cursor_id(Some("users".to_string()));
    assert_eq!(translate_expr(&mut p, &plan, &id("name"), 0), Ok(0));
    assert_eq!(translate_expr(&mut p, &plan, &id("id"), 1), Ok(1));
    assert_eq!(translate_expr(&mut p, &plan, &id("score"), 2), Ok(2));
    assert_eq!(
        p.insns(),
        &vec![
            Insn::Column { cursor_id: 1, column: 1, dest: 0 },
            Insn::RowId { cursor_id: 1, dest: 1 },
            Insn::Column { cursor_id: 1, column: 2, dest: 2 },
            Insn::RealAffinity { register: 2 },
        ]
    );
    assert_eq!(translate_expr(&mut p, &plan, &id("nope"), 3), Err(Error::ColumnNotFound("nope".to_string())));
}

#[test]
fn ambiguous_and_qualified_columns() {
    let u = schema();
    let stmt = select_stmt(vec![], Some(from_users(Some(vec![join("orders", Some(As::Elided("o".to_string())))]))));
    let plan = build_select(&u, &stmt).unwrap();
    let mut p = ProgramBuilder::new();
    p.alloc_cursor_id(Some("users".to_string()));
    p.alloc_cursor_id(Some("o".to_string()));
    assert_eq!(translate_expr(&mut p, &plan, &id("name"), 0), Err(Error::AmbiguousColumn("name".to_string())));
    assert_eq!(translate_expr(&mut p, &plan, &id("total"), 0), Ok(0));
    let q = Expr::Qualified("o".to_string(), "name".to_string());
    assert_eq!(translate_expr(&mut p, &plan, &q, 1), Ok(1));
    let q = Expr::Qualified("users".to_string(), "name".to_string());
    assert_eq!(translate_expr(&mut p, &plan, &q, 2), Ok(2));
    let q = Expr::Qualified("orders".to_string(), "name".to_string());
    assert_eq!(
        translate_expr(&mut p, &plan, &q, 3),
        Err(Error::QualifiedColumnNotFound("orders".to_string(), "name".to_string()))
    );
    assert_eq!(
        p.insns(),
        &vec![
            Insn::Column { cursor_id: 1, column: 2, dest: 0 },
            Insn::RealAffinity { register: 0 },
            Insn::Column { cursor_id: 1, column: 1, dest: 1 },
            Insn::Column { cursor_id: 0, column: 1, dest: 2 },
        ]
    );
}

#[test]
fn resolve_functions_directly() {
    let u = schema();
    let stmt = select_stmt(vec![], Some(from_users(Some(vec![join("orders", None)]))));
    let plan = build_select(&u, &stmt).unwrap();
    let mut p = ProgramBuilder::new();
    p.alloc_cursor_id(Some("orders".to_string()));
    p.alloc_cursor_id(Some("users".to_string()));
    let (idx, c, cursor) = resolve_ident_table(&p, &"oid".to_string(), &plan).unwrap();
    assert_eq!((idx, c.name.as_str(), cursor), (0, "oid", 0));
    let (idx, c, cursor) = resolve_ident_qualified(&p, &"users".to_string(), &"score".to_string(), &plan).unwrap();
    assert_eq!((idx, c.ty, cursor), (2, Type::Real, 1));
    assert_eq!(resolve_ident_table(&p, &"name".to_string(), &plan).err(), Some(Error::AmbiguousColumn("name".to_string())));
}

#[test]
fn affinity_only_for_real_columns() {
    let mut p = ProgramBuilder::new();
    maybe_apply_affinity(&col("a", Type::Text, false), 3, &mut p);
    assert!(p.insns().is_empty());
    maybe_apply_affinity(&col("b", Type::Real, false), 3, &mut p);
    assert_eq!(p.insns(), &vec![Insn::RealAffinity { register: 3 }]);
}

#[test]
fn build_select_missing_tables() {
    let u = schema();
    let stmt = select_stmt(vec![], Some(FromClause { select: Some(SelectTable::Table("nope".to_string(), None)), joins: None }));
    assert_eq!(build_select(&u, &stmt).err(), Some(Error::NoSuchTable("nope".to_string())));
    let stmt = select_stmt(vec![], Some(from_users(Some(vec![join("orders", None), join("gone", None)]))));
    assert_eq!(build_select(&u, &stmt).err(), Some(Error::NoSuchTable("gone".to_string())));
}

#[test]
fn build_select_sources_and_aliases() {
    let u = schema();
    let stmt = select_stmt(
        vec![],
        Some(FromClause {
            select: Some(SelectTable::Table("users".to_string(), Some(As::As("u".to_string())))),
            joins: Some(vec![join("orders", None)]),
        }),
    );
    let plan = build_select(&u, &stmt).unwrap();
    assert_eq!(plan.src_tables.len(), 2);
    match &plan.src_tables[0].table {
        Table::BTree(t) => assert_eq!(t.name, "users"),
        _ => panic!(),
    }
    assert_eq!(plan.src_tables[0].alias, Some(&"u".to_string()));
    assert!(plan.src_tables[0].join_info.is_none());
    assert_eq!(plan.src_tables[1].alias, None);
    assert!(plan.src_tables[1].join_info.is_some());
}

#[test]
fn build_select_analyzes_columns() {
    let u = schema();
    let columns = vec![
        ResultColumn::Star,
        ResultColumn::Expr(call("count", Some(vec![id("id")])), None),
        ResultColumn::Expr(call("nope", Some(vec![call("max", Some(vec![id("score")]))])), None),
        ResultColumn::Expr(id("name"), Some(As::As("n".to_string()))),
        ResultColumn::TableStar("users".to_string()),
    ];
    let stmt = select_stmt(columns, Some(from_users(Some(vec![join("orders", None)]))));
    let plan = build_select(&u, &stmt).unwrap();
    assert_eq!(plan.column_info.len(), 5);
    assert_eq!(plan.column_info[0].columns_to_allocate, 6);
    assert_eq!(plan.column_info[0].func, None);
    assert_eq!(plan.column_info[1].func, Some(Func::Agg(AggFunc::Count)));
    assert_eq!(plan.column_info[1].args.map(|a| a.len()), Some(1));
    assert_eq!(plan.column_info[2].func, Some(Func::Agg(AggFunc::Max)));
    assert_eq!(plan.column_info[3].func, None);
    assert_eq!(plan.column_info[3].columns_to_allocate, 1);
    assert_eq!(plan.column_info[4].columns_to_allocate, 1);
    assert!(plan.exist_aggregation);
    assert!(plan.column_info[1].is_aggregation_function());
}

#[test]
fn build_select_without_from() {
    let u = schema();
    let stmt = select_stmt(vec![ResultColumn::Star, ResultColumn::Expr(call("abs", Some(vec![num("1")])), None)], None);
    let plan = build_select(&u, &stmt).unwrap();
    assert!(plan.src_tables.is_empty());
    assert_eq!(plan.column_info[0].columns_to_allocate, 0);
    assert_eq!(plan.column_info[1].func, Some(Func::SingleRow(SingleRowFunc::Abs)));
    assert!(!plan.exist_aggregation);
}

#[test]
fn analyze_expr_looks_through_unknown_functions() {
    let e = call("wrap", Some(vec![call("sum", Some(vec![num("1")]))]));
    let mut info = ColumnInfo::new();
    analyze_expr(&e, &mut info);
    assert_eq!(info.func, Some(Func::Agg(AggFunc::Sum)));
    let e = call("wrap", Some(vec![]));
    let mut info = ColumnInfo::new();
    analyze_expr(&e, &mut info);
    assert_eq!(info.func, None);
    let three = num("3");
    let mut info = ColumnInfo::new();
    analyze_expr(&three, &mut info);
    assert_eq!(info.func, None);
    assert_eq!(info.columns_to_allocate, 1);
}

#[test]
fn analyze_columns_counts_star_registers() {
    let u = schema();
    let users = &u.tables[0];
    let orders = &u.tables[1];
    let joins = vec![
        SrcTable { table: Table::BTree(users), alias: None, join_info: None },
        SrcTable { table: Table::BTree(orders), alias: None, join_info: None },
    ];
    let columns = vec![ResultColumn::Star, ResultColumn::Expr(num("1"), None)];
    let infos = analyze_columns(&columns, &joins);
    assert_eq!(infos[0].columns_to_allocate, 6);
    assert_eq!(infos[1].columns_to_allocate, 1);
}

#[test]
fn translation_keeps_earlier_instructions() {
    let u = schema();
    let stmt = select_stmt(vec![], Some(from_users(None)));
    let plan: Select = build_select(&u, &stmt).unwrap();
    let mut p = ProgramBuilder::new();
    p.alloc_cursor_id(Some("users".to_string()));
    p.emit_insn(Insn::Null { dest: 0 });
    let before = p.insns().clone();
    let e = call("like", Some(vec![text("'x'"), id("name")]));
    translate_expr(&mut p, &plan, &e, 2).unwrap();
    assert_eq!(&p.insns()[..before.len()], &before[..]);
    let e = call("nope", None);
    let before = p.insns().clone();
    let _ = translate_expr(&mut p, &plan, &e, 2);
    assert_eq!(p.insns(), &before);
}

fn written(insn: &Insn) -> Option<usize> {
    match insn {
        Insn::Integer { dest, .. }
        | Insn::Real { dest, .. }
        | Insn::String8 { dest, .. }
        | Insn::Null { dest }
        | Insn::Add { dest, .. }
        | Insn::Function { dest, .. }
        | Insn::RowId { dest, .. }
        | Insn::Column { dest, .. } => Some(*dest),
        Insn::RealAffinity { register } => Some(*register),
        _ => None,
    }
}

#[test]
fn translation_writes_only_target_and_fresh_registers() {
    let u = schema();
    let stmt = select_stmt(vec![], Some(from_users(None)));
    let plan = build_select(&u, &stmt).unwrap();
    let mut p = ProgramBuilder::new();
    p.alloc_cursor_id(Some("users".to_string()));
    for _ in 0..4 {
        p.alloc_register();
    }
    let before = p.next_free_register();
    let e = Expr::Binary(
        Box::new(call("like", Some(vec![text("'a'"), id("name")]))),
        Operator::Less,
        Box::new(call("coalesce", Some(vec![id("score"), call("abs", Some(vec![num("-2")]))]))),
    );
    assert_eq!(translate_expr(&mut p, &plan, &e, 1), Ok(1));
    let after = p.next_free_register();
    for insn in p.insns().iter().chain(p.constant_insns().iter()) {
        if let Some(r) = written(insn) {
            assert!(r == 1 || (before <= r && r < after), "{insn:?}");
        }
    }
}

fn bin(l: Expr, op: Operator, r: Expr) -> Expr {
    Expr::Binary(Box::new(l), op, Box::new(r))
}

fn analyzed(e: &Expr) -> (Option<Func>, Option<usize>) {
    let mut info = ColumnInfo::new();
    analyze_expr(e, &mut info);
    (info.func, info.args.map(|a| a.len()))
}

#[test]
fn analyze_expr_finds_aggregates_at_any_depth() {
    let sum = |e: Expr| call("sum", Some(vec![e]));
    assert_eq!(analyzed(&bin(num("1"), Operator::Add, sum(id("x")))), (Some(Func::Agg(AggFunc::Sum)), Some(1)));
    assert_eq!(analyzed(&Expr::Unary(UnaryOperator::Negative, Box::new(sum(id("x"))))).0, Some(Func::Agg(AggFunc::Sum)));
    assert_eq!(analyzed(&call("abs", Some(vec![call("count", Some(vec![id("x"), id("y")]))]))), (Some(Func::Agg(AggFunc::Count)), Some(2)));
    assert_eq!(analyzed(&call("wrap", Some(vec![num("1"), sum(id("y"))]))).0, Some(Func::Agg(AggFunc::Sum)));
}

#[test]
fn analyze_expr_keeps_the_first_aggregate() {
    let abs = call("abs", Some(vec![id("y")]));
    let sum = call("sum", Some(vec![id("x")]));
    let max = call("max", Some(vec![id("z"), id("w")]));
    assert_eq!(analyzed(&bin(sum, Operator::Add, abs)).0, Some(Func::Agg(AggFunc::Sum)));
    let abs = call("abs", Some(vec![id("y")]));
    assert_eq!(analyzed(&bin(abs, Operator::Multiply, max)), (Some(Func::Agg(AggFunc::Max)), Some(2)));
    let sum = call("sum", Some(vec![id("x")]));
    let max = call("max", Some(vec![id("z"), id("w")]));
    assert_eq!(analyzed(&bin(sum, Operator::Subtract, max)), (Some(Func::Agg(AggFunc::Sum)), Some(1)));
}

#[test]
fn analyze_expr_single_row_functions() {
    assert_eq!(analyzed(&call("abs", Some(vec![id("x")]))), (Some(Func::SingleRow(SingleRowFunc::Abs)), Some(1)));
    assert_eq!(analyzed(&call("like", Some(vec![id("a"), text("'b'")]))), (Some(Func::SingleRow(SingleRowFunc::Like)), Some(2)));
    assert_eq!(analyzed(&bin(id("a"), Operator::Add, num("2"))), (None, None));
}

#[test]
fn analyze_expr_records_only_the_head_call_without_aggregates() {
    // Below an operator, single-row functions are not recorded.
    let e = bin(call("abs", Some(vec![id("x")])), Operator::Add, call("coalesce", Some(vec![id("a"), id("b")])));
    assert_eq!(analyzed(&e), (None, None));
    let e = bin(Expr::Literal(Literal::Null), Operator::Add, call("abs", Some(vec![])));
    assert_eq!(analyzed(&e), (None, None));
    // Only the first argument of an unknown function is looked at.
    assert_eq!(analyzed(&call("wrap", Some(vec![Expr::Literal(Literal::Null), call("abs", Some(vec![]))]))), (None, None));
    assert_eq!(analyzed(&call("wrap", Some(vec![call("abs", Some(vec![id("x")])), num("1")]))), (Some(Func::SingleRow(SingleRowFunc::Abs)), Some(1)));
    // Forms that are not analyzed at the head are passed over elsewhere.
    assert_eq!(analyzed(&bin(num("1"), Operator::Add, call("foo", None))), (None, None));
    assert_eq!(analyzed(&call("wrap", Some(vec![num("1"), call("foo", None)]))), (None, None));
}

#[test]
fn analyze_expr_head_call_replaces_what_was_recorded() {
    let abs = call("abs", Some(vec![id("x")]));
    let like = call("like", Some(vec![id("a"), id("b")]));
    let sum = call("sum", Some(vec![id("x")]));
    let one = num("1");
    let mut info = ColumnInfo::new();
    analyze_expr(&abs, &mut info);
    analyze_expr(&like, &mut info);
    assert_eq!(info.func, Some(Func::SingleRow(SingleRowFunc::Like)));
    assert_eq!(info.args.map(|a| a.len()), Some(2));
    let mut info = ColumnInfo::new();
    analyze_expr(&sum, &mut info);
    analyze_expr(&abs, &mut info);
    assert_eq!(info.func, Some(Func::SingleRow(SingleRowFunc::Abs)));
    let mut info = ColumnInfo::new();
    analyze_expr(&sum, &mut info);
    analyze_expr(&one, &mut info);
    assert_eq!(info.func, Some(Func::Agg(AggFunc::Sum)));
}

#[test]
fn analyze_expr_star_calls_below_the_head() {
    let count_star = || Expr::FunctionCallStar { name: "count".to_string() };
    assert_eq!(analyzed(&bin(count_star(), Operator::Add, num("1"))), (Some(Func::Agg(AggFunc::Count)), None));
    assert_eq!(analyzed(&call("abs", Some(vec![count_star()]))), (Some(Func::Agg(AggFunc::Count)), None));
    let e = bin(call("sum", Some(vec![id("x")])), Operator::Add, count_star());
    assert_eq!(analyzed(&e), (Some(Func::Agg(AggFunc::Sum)), Some(1)));
}

#[test]
fn build_select_nested_aggregate_column() {
    let u = schema();
    let columns = vec![
        ResultColumn::Expr(id("name"), None),
        ResultColumn::Expr(bin(num("1"), Operator::Add, call("sum", Some(vec![id("score")]))), None),
    ];
    let stmt = select_stmt(columns, Some(from_users(None)));
    let plan = build_select(&u, &stmt).unwrap();
    assert_eq!(plan.column_info[0].func, None);
    assert_eq!(plan.column_info[1].func, Some(Func::Agg(AggFunc::Sum)));
    assert!(plan.column_info[1].is_aggregation_function());
    assert!(plan.exist_aggregation);
    assert!(plan.loops.is_empty());
    assert!(plan.limit.is_none());
    assert!(plan.where_clause.is_none());
    assert_eq!(plan.columns.len(), 2);
}

#[test]
fn plans_start_without_loops() {
    let u = schema();
    let st = empty_select();
    let plan = build_select(&u, &st).unwrap();
    assert!(plan.loops.is_empty());
    let stmt = select_stmt(vec![ResultColumn::Star], Some(from_users(Some(vec![join("orders", None)]))));
    let plan = build_select(&u, &stmt).unwrap();
    assert!(plan.loops.is_empty());
}

#[test]
fn table_order_does_not_change_resolution() {
    let u = schema();
    let a = select_stmt(vec![], Some(from_users(Some(vec![join("orders", None)]))));
    let b = select_stmt(
        vec![],
        Some(FromClause {
            select: Some(SelectTable::Table("orders".to_string(), None)),
            joins: Some(vec![join("users", None)]),
        }),
    );
    let pa = build_select(&u, &a).unwrap();
    let pb = build_select(&u, &b).unwrap();
    let mut p = ProgramBuilder::new();
    p.alloc_cursor_id(Some("users".to_string()));
    p.alloc_cursor_id(Some("orders".to_string()));
    for name in ["id", "oid", "score", "total"] {
        let ra = resolve_ident_table(&p, &name.to_string(), &pa).unwrap();
        let rb = resolve_ident_table(&p, &name.to_string(), &pb).unwrap();
        assert_eq!((ra.0, ra.1.name.clone(), ra.2), (rb.0, rb.1.name.clone(), rb.2));
    }
    for name in ["name", "zz"] {
        assert_eq!(
            resolve_ident_table(&p, &name.to_string(), &pa).err(),
            resolve_ident_table(&p, &name.to_string(), &pb).err()
        );
    }
    assert_eq!(resolve_ident_table(&p, &"zz".to_string(), &pa).err(), Some(Error::ColumnNotFound("zz".to_string())));
}

#[test]
fn build_select_nested_forms_the_head_does_not_reach() {
    let u = schema();
    let columns = vec![
        ResultColumn::Expr(bin(num("1"), Operator::Add, call("foo", None)), None),
        ResultColumn::Expr(bin(Expr::FunctionCallStar { name: "count".to_string() }, Operator::Add, num("1")), None),
        ResultColumn::Expr(bin(num("1"), Operator::Add, call("abs", Some(vec![id("score")]))), None),
    ];
    let stmt = select_stmt(columns, Some(from_users(None)));
    let plan = build_select(&u, &stmt).unwrap();
    assert_eq!(plan.column_info[0].func, None);
    assert_eq!(plan.column_info[1].func, Some(Func::Agg(AggFunc::Count)));
    assert!(plan.column_info[1].args.is_none());
    assert_eq!(plan.column_info[2].func, None);
    assert!(plan.exist_aggregation);
}

#[test]
fn bare_name_resolves_as_its_qualified_form() {
    let u = schema();
    let stmt = select_stmt(
        vec![],
        Some(FromClause {
            select: Some(SelectTable::Table("users".to_string(), Some(As::As("u".to_string())))),
            joins: Some(vec![join("orders", None)]),
        }),
    );
    let plan = build_select(&u, &stmt).unwrap();
    let mut p = ProgramBuilder::new();
    p.alloc_cursor_id(Some("u".to_string()));
    p.alloc_cursor_id(Some("orders".to_string()));
    for (table, name) in [("u", "score"), ("orders", "total"), ("orders", "oid")] {
        let bare = resolve_ident_table(&p, &name.to_string(), &plan).unwrap();
        let qualified = resolve_ident_qualified(&p, &table.to_string(), &name.to_string(), &plan).unwrap();
        assert_eq!((bare.0, bare.1.name.clone(), bare.2), (qualified.0, qualified.1.name.clone(), qualified.2));
    }
}
