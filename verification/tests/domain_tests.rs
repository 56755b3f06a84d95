use limbo_core::ast::{
    Expr, FromClause, Literal, OneSelect, Operator, ResultColumn, Select as SelectStmt, SelectBody, SelectTable,
    UnaryOperator,
};
use limbo_core::domain::{
    analysis_is_defined, select_is_plannable, translation_is_defined, try_analyze_columns, try_analyze_expr,
    try_build_select, try_translate_expr,
};
use limbo_core::error::Error;
use limbo_core::function::{AggFunc, Func};
use limbo_core::select::{ColumnInfo, SrcTable};
use limbo_core::schema::Table;
use limbo_core::vdbe::Insn;
use limbo_core::expr::build_select;
use limbo_core::schema::{BTreeTable, Column, Schema, Type};
use limbo_core::vdbe::ProgramBuilder;

fn schema() -> Schema {
    let mut s = Schema::new();
    s.add_table(BTreeTable {
        name: "t".to_string(),
        columns: vec![Column { name: "a".to_string(), ty: Type::Integer, primary_key: false }],
    });
    s
}

fn stmt(columns: Vec<ResultColumn>, from: Option<FromClause>) -> SelectStmt {
    SelectStmt { body: SelectBody { select: OneSelect::Select { columns, from, where_clause: None } }, limit: None }
}

fn from(name: &str) -> Option<FromClause> {
    Some(FromClause { select: Some(SelectTable::Table(name.to_string(), None)), joins: None })
}

fn num(s: &str) -> Expr {
    Expr::Literal(Literal::Numeric(s.to_string()))
}

#[test]
fn translation_domain() {
    let s = schema();
    let st = stmt(vec![], from("t"));
    let plan = build_select(&s, &st).unwrap();
    let mut p = ProgramBuilder::new();
    assert!(translation_is_defined(&p, &plan, &num("1"), 0));
    assert!(!translation_is_defined(&p, &plan, &Expr::Between, 0));
    assert!(!translation_is_defined(&p, &plan, &num("0x1"), 0));
    // An error comes before the operator that is not translated.
    let e = Expr::Binary(Box::new(Expr::Id("zz".to_string())), Operator::Multiply, Box::new(num("1")));
    assert!(translation_is_defined(&p, &plan, &e, 0));
    let e = Expr::Binary(Box::new(num("2")), Operator::Multiply, Box::new(num("1")));
    assert!(!translation_is_defined(&p, &plan, &e, 0));
    // The column exists but its table has no cursor yet.
    assert!(!translation_is_defined(&p, &plan, &Expr::Id("a".to_string()), 0));
    p.alloc_cursor_id(Some("t".to_string()));
    assert!(translation_is_defined(&p, &plan, &Expr::Id("a".to_string()), 0));
    let neg_min = Expr::Unary(UnaryOperator::Negative, Box::new(num("-9223372036854775808")));
    assert!(!translation_is_defined(&p, &plan, &neg_min, 0));
    let like = Expr::FunctionCall { name: "like".to_string(), args: Some(vec![num("1"), num("2")]) };
    assert!(translation_is_defined(&p, &plan, &like, 0));
    assert!(!translation_is_defined(&p, &plan, &like, usize::MAX));
    let quote = Expr::FunctionCall { name: "\"".to_string(), args: None };
    assert!(!translation_is_defined(&p, &plan, &quote, 0));
}

#[test]
fn planning_domain() {
    let s = schema();
    let values = SelectStmt { body: SelectBody { select: OneSelect::Values }, limit: None };
    assert!(!select_is_plannable(&s, &values));
    assert!(select_is_plannable(&s, &stmt(vec![ResultColumn::Star], from("t"))));
    // A missing table is an error, which is defined.
    assert!(select_is_plannable(&s, &stmt(vec![], from("nope"))));
    let sub = stmt(vec![], Some(FromClause { select: Some(SelectTable::Sub), joins: None }));
    assert!(!select_is_plannable(&s, &sub));
    let no_first = stmt(vec![], Some(FromClause { select: None, joins: None }));
    assert!(!select_is_plannable(&s, &no_first));
    let star_call = ResultColumn::Expr(Expr::FunctionCallStar { name: "count".to_string() }, None);
    assert!(!select_is_plannable(&s, &stmt(vec![star_call], from("t"))));
    let unknown_no_args = ResultColumn::Expr(Expr::FunctionCall { name: "f".to_string(), args: None }, None);
    assert!(!select_is_plannable(&s, &stmt(vec![unknown_no_args], None)));
}

fn call(name: &str, args: Option<Vec<Expr>>) -> Expr {
    Expr::FunctionCall { name: name.to_string(), args }
}

#[test]
fn analysis_domain() {
    let star = Expr::FunctionCallStar { name: "count".to_string() };
    assert!(analysis_is_defined(&num("1")));
    assert!(!analysis_is_defined(&star));
    let nested = Expr::Binary(Box::new(num("1")), Operator::Add, Box::new(Expr::FunctionCallStar { name: "count".to_string() }));
    assert!(analysis_is_defined(&nested));
    assert!(analysis_is_defined(&call("sum", Some(vec![Expr::FunctionCallStar { name: "count".to_string() }]))));
    // A known function's arguments are not looked at; an unknown one's first is.
    assert!(analysis_is_defined(&call("abs", Some(vec![call("f", None)]))));
    assert!(!analysis_is_defined(&call("wrap", Some(vec![call("f", None)]))));
    assert!(!analysis_is_defined(&call("wrap", Some(vec![Expr::FunctionCallStar { name: "count".to_string() }]))));
    assert!(analysis_is_defined(&call("wrap", Some(vec![num("1"), call("f", None)]))));
    assert!(analysis_is_defined(&call("f", Some(vec![]))));
    assert!(!analysis_is_defined(&call("f", None)));
    assert!(analysis_is_defined(&call("abs", None)));
    assert!(!analysis_is_defined(&call("\"", None)));
}

#[test]
fn checked_translation() {
    let s = schema();
    let st = stmt(vec![], from("t"));
    let plan = build_select(&s, &st).unwrap();
    let mut p = ProgramBuilder::new();
    assert_eq!(try_translate_expr(&mut p, &plan, &num("7"), 2), Some(Ok(2)));
    assert_eq!(p.insns(), &vec![Insn::Integer { value: 7, dest: 2 }]);
    assert_eq!(try_translate_expr(&mut p, &plan, &Expr::Between, 3), None);
    assert_eq!(p.insns().len(), 1);
    assert_eq!(
        try_translate_expr(&mut p, &plan, &Expr::Id("zz".to_string()), 3),
        Some(Err(Error::ColumnNotFound("zz".to_string())))
    );
}

#[test]
fn checked_analysis() {
    let mut info = ColumnInfo::new();
    let e = Expr::Binary(Box::new(num("1")), Operator::Add, Box::new(call("sum", Some(vec![num("2")]))));
    assert!(try_analyze_expr(&e, &mut info));
    assert_eq!(info.func, Some(Func::Agg(AggFunc::Sum)));
    let bad = call("wrap", Some(vec![call("g", None)]));
    let mut info = ColumnInfo::new();
    assert!(!try_analyze_expr(&bad, &mut info));
    assert_eq!(info.func, None);
    assert_eq!(info.columns_to_allocate, 1);
}

#[test]
fn checked_column_analysis() {
    let s = schema();
    let joins = vec![SrcTable { table: Table::BTree(&s.tables[0]), alias: None, join_info: None }];
    let columns = vec![ResultColumn::Star, ResultColumn::Expr(call("count", Some(vec![num("1")])), None)];
    let infos = try_analyze_columns(&columns, &joins).unwrap();
    assert_eq!(infos.len(), 2);
    assert_eq!(infos[0].columns_to_allocate, 1);
    assert_eq!(infos[1].func, Some(Func::Agg(AggFunc::Count)));
    let columns = vec![ResultColumn::Expr(Expr::FunctionCallStar { name: "count".to_string() }, None)];
    assert!(try_analyze_columns(&columns, &joins).is_none());
}

#[test]
fn checked_planning() {
    let s = schema();
    let st = stmt(vec![ResultColumn::Star], from("t"));
    let plan = try_build_select(&s, &st).unwrap().unwrap();
    assert_eq!(plan.column_info[0].columns_to_allocate, 1);
    assert!(plan.loops.is_empty());
    assert_eq!(try_build_select(&s, &stmt(vec![], from("nope"))).map(|r| r.err()), Some(Some(Error::NoSuchTable("nope".to_string()))));
    let values = SelectStmt { body: SelectBody { select: OneSelect::Values }, limit: None };
    assert!(try_build_select(&s, &values).is_none());
}
