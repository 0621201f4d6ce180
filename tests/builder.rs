use serde_json::Value;
use sql_builder::{sql_placeholder_transfer, PlaceholderMode, SqlBuilder, B};

#[test]
fn test_sql() {
    let mut w = SqlBuilder::new();
    w.push_sql("select * from tb_foo");
    w.push("where id= ?", Value::from(1)).push(" and name = ?", Value::from("test"));
    println!("w:{:?}", w);
    let (sql, args) = w.build();
    println!("build result:{:?}", (&sql, &args));
    assert_eq!(sql, "select * from tb_foo where id= ?  and name = ?");
    assert_eq!(args, vec![Value::from(1), Value::from("test")]);
}

#[test]
fn test_wrapper() {
    let mut w = SqlBuilder::new();
    w.push_sql("select * from tb_foo");
    let mut w1 = SqlBuilder::new_sql_arg("where id= ?", Value::from(1));
    let mut w2 = SqlBuilder::new_sql_arg(" and name = ?", Value::from("test"));
    w.wrap(&mut w1);
    w.wrap(&mut w2);
    println!("w:{:?}", w);
    let (sql, args) = w.build();
    println!("build result:{:?}", (&sql, &args));
    assert_eq!(sql, "select * from tb_foo where id= ? and name = ?");
    assert_eq!(args, vec![Value::from(1), Value::from("test")]);
}

#[test]
fn test_push_build() {
    let mut b = B::new();
    let v = b
        .push_sql("select * from tb_foo")
        .push_build(
            B::new_where()
                .eq("a", Value::from(1))
                .eq("b", Value::from("a"))
                .lt("c", Value::from(3))
                .in_("d", vec![Value::from(1), Value::from(2), Value::from(3)]),
        )
        .build();
    println!("{:?}", &v);
    assert_eq!(v.0, "select * from tb_foo where a=? and b=? and c<? and d in (? , ? , ?)");
    assert_eq!(
        v.1,
        vec![Value::from(1), Value::from("a"), Value::from(3), Value::from(1), Value::from(2), Value::from(3)]
    );
}

#[test]
fn test_sql_args() {
    let (sql, args) = B::prepare(
        B::new_sql("select * from tb_foo").push_build(
            B::new_where()
                .eq("a", Value::from(1))
                .eq("b", Value::from("a"))
                .lt("c", Value::from(3))
                .in_("d", vec![Value::from(1), Value::from(2), Value::from(3)]),
        ),
    );
    println!("{},{:?}", &sql, &args);
    assert_eq!(sql, "select * from tb_foo where a=? and b=? and c<? and d in (? , ? , ?)");
    assert_eq!(args.len(), 6);
}

#[test]
fn test_default_to_pg_style() {
    let sql = "select id,name,email,age from tb_foo where id in ($1 , $2 , $3) and name in ($4 , $5) and (name=$6 or email=$7) and age=$8 and age>=$9 and age<$10  limit ? offset ?";
    let mysql_sql = "select id,name,email,age from tb_foo where id in (? , ? , ?) and name in (? , ?) and (name=? or email=?) and age=? and age>=? and age<?  limit ? offset ?";
    let pg_sql = "select id,name,email,age from tb_foo where id in ($1 , $2 , $3) and name in ($4 , $5) and (name=$6 or email=$7) and age=$8 and age>=$9 and age<$10  limit $11 offset $12";
    let o_mysql_sql = sql_placeholder_transfer(sql.to_owned(), PlaceholderMode::Default);
    let o_pg_sql = sql_placeholder_transfer(sql.to_owned(), PlaceholderMode::PgSql);
    println!("{}", &o_mysql_sql);
    println!("{}", &o_pg_sql);
    assert_eq!(mysql_sql, &o_mysql_sql);
    assert_eq!(pg_sql, &o_pg_sql);
}
