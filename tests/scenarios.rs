use serde_json::Value;
use sql_builder::{pre_trim, sql_placeholder_transfer, sql_trim, sql_trim_string, suf_trim, PlaceholderMode, SqlBuilder, B};

fn ints(v: &[i64]) -> Vec<Value> {
    v.iter().map(|x| Value::from(*x)).collect()
}

fn where_fragment<'a>(mode: PlaceholderMode) -> SqlBuilder<'a> {
    let mut w = B::new_where().set_mode(mode);
    w.eq("a", Value::from(1))
        .eq("b", Value::from("x"))
        .lt("c", Value::from(3))
        .in_("d", ints(&[1, 2, 3]));
    w
}

fn count_tokens(s: &str) -> usize {
    let b: Vec<char> = s.chars().collect();
    let mut n = 0;
    for i in 0..b.len() {
        if b[i] == '?' || (b[i] == '$' && i + 1 < b.len() && b[i + 1].is_ascii_digit()) {
            n += 1;
        }
    }
    n
}

#[test]
fn where_fragment_implicit() {
    let (sql, args) = where_fragment(PlaceholderMode::Default).build();
    assert_eq!(sql, "where a=? and b=? and c<? and d in (? , ? , ?)");
    assert_eq!(
        args,
        vec![Value::from(1), Value::from("x"), Value::from(3), Value::from(1), Value::from(2), Value::from(3)]
    );
}

#[test]
fn where_fragment_positional() {
    let (sql, args) = where_fragment(PlaceholderMode::PgSql).build();
    assert_eq!(sql, "where a=$1 and b=$2 and c<$3 and d in ($4 , $5 , $6)");
    assert_eq!(
        args,
        vec![Value::from(1), Value::from("x"), Value::from(3), Value::from(1), Value::from(2), Value::from(3)]
    );
}

#[test]
fn literal_to_positional_and_back() {
    let mysql_sql = "select id,name,email,age from tb_foo where id in (? , ? , ?) and name in (? , ?) and (name=? or email=?) and age=? and age>=? and age<?  limit ? offset ?";
    let pg_sql = "select id,name,email,age from tb_foo where id in ($1 , $2 , $3) and name in ($4 , $5) and (name=$6 or email=$7) and age=$8 and age>=$9 and age<$10  limit $11 offset $12";
    assert_eq!(sql_placeholder_transfer(mysql_sql.to_owned(), PlaceholderMode::PgSql), pg_sql);
    assert_eq!(sql_placeholder_transfer(mysql_sql.to_owned(), PlaceholderMode::Default), mysql_sql);
    assert_eq!(sql_placeholder_transfer(pg_sql.to_owned(), PlaceholderMode::Default), mysql_sql);
}

#[test]
fn empty_where_is_reported_empty() {
    let mut w = B::new_where();
    assert!(w.is_empty());
    let (sql, args) = w.build();
    assert_eq!(sql, "");
    assert!(args.is_empty());
    let mut w2 = B::new_where();
    w2.eq("id", Value::from(1));
    assert!(!w2.is_empty());
}

#[test]
fn rendered_tokens_match_values() {
    let mut top = B::new_sql("select * from t");
    let mut or = B::new_or();
    or.eq("name", Value::from("n")).like("email", Value::from("%e%"));
    let mut w = where_fragment(PlaceholderMode::Default);
    w.wrap(&mut or);
    top.push_build(&mut w).limit(Value::from(10)).offset(Value::from(20));
    let mut top = top.set_mode(PlaceholderMode::PgSql);
    let (sql, args) = top.build();
    assert_eq!(count_tokens(&sql), args.len());
    assert_eq!(args.len(), 10);
    assert!(sql.ends_with("limit $9 offset $10"));
}

#[test]
fn compose_and_wrap_render_alike() {
    let mut a1 = B::new_sql("select * from t where");
    let mut b1 = B::new();
    b1.push("x=?", Value::from(1)).push("and y=?", Value::from(2));
    a1.push_build(&mut b1);
    assert!(b1.is_empty());
    let mut a2 = B::new_sql("select * from t where");
    let mut b2 = B::new();
    b2.push("x=?", Value::from(1)).push("and y=?", Value::from(2));
    a2.wrap(&mut b2);
    assert!(!b2.is_empty());
    let r1 = a1.build();
    let r2 = a2.build();
    assert_eq!(r1, r2);
    assert_eq!(r1.0, "select * from t where x=? and y=?");
}

#[test]
fn trim_keeps_clean_text() {
    assert_eq!(sql_trim_string("and", "and", "a=1 or b=2"), "a=1 or b=2");
    assert_eq!(sql_trim_string("", "", "x"), "x");
    assert_eq!(sql_trim_string(",", ",", ""), "");
}

#[test]
fn transfer_keeps_own_style() {
    assert_eq!(sql_placeholder_transfer("a=? and b=?".to_string(), PlaceholderMode::Default), "a=? and b=?");
    assert_eq!(sql_placeholder_transfer("a=$7 and b=$3".to_string(), PlaceholderMode::PgSql), "a=$7 and b=$3");
    assert_eq!(sql_placeholder_transfer("no tokens $x".to_string(), PlaceholderMode::PgSql), "no tokens $x");
}

#[test]
fn transfer_numbers_implicit_tokens() {
    assert_eq!(sql_placeholder_transfer("x?y?z".to_string(), PlaceholderMode::PgSql), "x$1y$2z");
    assert_eq!(sql_placeholder_transfer("???".to_string(), PlaceholderMode::PgSql), "$1$2$3");
    let many = "?,".repeat(12);
    let out = sql_placeholder_transfer(many, PlaceholderMode::PgSql);
    assert_eq!(out, "$1,$2,$3,$4,$5,$6,$7,$8,$9,$10,$11,$12,");
}

#[test]
fn transfer_mixed_and_malformed() {
    assert_eq!(sql_placeholder_transfer("$ a ?".to_string(), PlaceholderMode::PgSql), "$ a $1");
    assert_eq!(sql_placeholder_transfer("$12?".to_string(), PlaceholderMode::Default), "??");
    assert_eq!(sql_placeholder_transfer("$12?".to_string(), PlaceholderMode::PgSql), "$1$2");
    assert_eq!(sql_placeholder_transfer("$ only".to_string(), PlaceholderMode::Default), "$ only");
    assert_eq!(sql_placeholder_transfer(String::new(), PlaceholderMode::PgSql), "");
}

#[test]
fn trim_positions() {
    assert_eq!(sql_trim("and", "", " and a=1 "), (4, 8));
    assert_eq!(sql_trim("and", "and", "   "), (0, 3));
    assert_eq!(sql_trim("OR", "or", "or x OR"), (2, 5));
    assert_eq!(sql_trim_string(",", ",", ","), "");
    assert_eq!(sql_trim_string("where", "where", "ab"), "ab");
    assert_eq!(sql_trim_string("", "", "\u{3000}x\u{a0}"), "x");
}

#[test]
fn trim_positions_are_byte_offsets() {
    assert_eq!(pre_trim("and", "\u{a0}and"), 5);
    assert_eq!(pre_trim("and", "\u{a0}x"), 2);
    assert_eq!(suf_trim("and", "\u{a0}and"), 2);
    assert_eq!(suf_trim("", "\u{a0}x"), 3);
    assert_eq!(sql_trim("", "", "\u{3000}"), (0, 3));
    let v = "\u{3000}and \u{e9}t\u{e9} ";
    let (s, e) = sql_trim("and", "", v);
    assert_eq!(&v[s..e], " \u{e9}t\u{e9}");
    assert_eq!(sql_trim_string("and", "", v), " \u{e9}t\u{e9}");
}

#[test]
fn values_without_segments_are_not_handed_out() {
    let mut b = B::new();
    b.push_arg(Value::from(1));
    let (sql, args) = b.build();
    assert_eq!(sql, "");
    assert!(args.is_empty());
    let mut top = B::new_sql("select 1");
    let mut empty = B::new_where();
    empty.push_arg(Value::from(2));
    top.wrap(&mut empty);
    let (sql, args) = top.build();
    assert_eq!(sql, "select 1");
    assert!(args.is_empty());
}

#[test]
fn rendered_pieces_are_appended() {
    let mut b = B::new_sql("select * from t");
    b.push_rendered("where a=?".to_string(), vec![Value::from(4)]);
    let (sql, args) = b.build();
    assert_eq!(sql, "select * from t where a=?");
    assert_eq!(args, ints(&[4]));
}

#[test]
fn paging_and_order() {
    let mut q = B::new();
    q.push_sql("select * from t").order_by("id", true).limit(Value::from(10)).offset(Value::from(5));
    let (sql, args) = q.build();
    assert_eq!(sql, "select * from t  order by  id  desc  limit ? offset ?");
    assert_eq!(args, ints(&[10, 5]));
    let mut q2 = B::new();
    q2.order_by("name", false);
    assert_eq!(q2.build().0, "order by  name");
}

#[test]
fn comparison_helpers() {
    let mut g = B::new_or();
    g.ne("a", Value::from(1))
        .le("b", Value::from(2))
        .gt("c", Value::from(3))
        .ge("d", Value::from(4))
        .like("e", Value::from("%x"))
        .not_like("f", Value::from("y%"));
    let (sql, args) = g.build();
    assert_eq!(sql, "(a<>? or b<=? or c>? or d>=? or e like ? or f not like ?)");
    assert_eq!(args.len(), 6);
    assert_eq!(args[4], Value::from("%x"));
}

#[test]
fn membership_and_groups() {
    let mut g = B::new_and();
    g.not_in("x", ints(&[1, 2])).eq("y", Value::from(3));
    let (sql, args) = g.build();
    assert_eq!(sql, "(x not in (? , ?) and y=?)");
    assert_eq!(args, ints(&[1, 2, 3]));
    let mut c = B::new_comma();
    c.push_sql("a").push_sql("b");
    assert_eq!(c.build().0, " a , b ");
    let mut p = B::new_paren();
    p.push_sql("a").push_sql("b");
    assert_eq!(p.build().0, "(a b)");
    let mut cp = B::new_comma_paren();
    cp.push_sql("a").push_sql("b");
    assert_eq!(cp.build().0, "(a , b)");
    let mut custom = B::new_builder(" ; ", ";", "[", "]");
    custom.push_sql("; a").push_sql("b ;");
    assert_eq!(custom.build().0, "[ a ; b ]");
}

#[test]
fn where_drops_leading_keyword() {
    let mut w = B::new_where();
    w.push_sql("WHERE a=1");
    assert_eq!(w.build().0, "where  a=1");
}

#[test]
fn owned_segments_and_late_values() {
    let mut b = B::new();
    b.push_string("a in (?, ?)".to_string()).push_arg(Value::from(1)).push_arg(Value::from(2));
    let (sql, args) = B::b(&mut b);
    assert_eq!(sql, "a in (?, ?)");
    assert_eq!(args, ints(&[1, 2]));
}

#[test]
fn render_drains_values() {
    let mut b = B::new_sql_arg("id=?", Value::from(7));
    let first = b.build();
    let second = b.build();
    assert_eq!(first.0, "id=?");
    assert_eq!(first.1, ints(&[7]));
    assert_eq!(second.0, "id=?");
    assert!(second.1.is_empty());
}

#[test]
fn compose_helpers() {
    let mut w = B::new_where();
    w.eq("id", Value::from(1));
    let mut top = B::real_top(&mut w);
    assert_eq!(top.build().0, "where id=?");

    let mut a = B::new_sql("select 1");
    a.push_fn(|| B::new_sql_arg("id=?", Value::from(2)));
    let (sql, args) = a.build();
    assert_eq!(sql, "select 1 id=?");
    assert_eq!(args, ints(&[2]));

    let mut c = B::new_sql("select 2");
    let mut inner = B::new_where();
    inner.eq("k", Value::from(3));
    c.push_ibuild(&mut inner);
    let (sql, args) = B::prepare(&mut c);
    assert_eq!(sql, "select 2 where k=?");
    assert_eq!(args, ints(&[3]));
}
