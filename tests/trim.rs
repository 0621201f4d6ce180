use sql_builder::{pre_trim, sql_trim, sql_trim_string, suf_trim};

#[test]
fn test_sql_trim() {
    println!("1:'{}'", &sql_trim_string("Where", "", " WHERE a=1 "));
    println!("2:'{}'", &sql_trim_string("and", "", " and a=1 and b=2 "));
    println!("3:'{}'", &sql_trim_string("and", "", "  and a=1 and b=2  "));
    println!("4:'{}'", &sql_trim_string(",", ",", "  a=1 , b=2 , "));
    println!("5:'{}'", &sql_trim_string(",", ",", " , a=1 , b=2 "));
    assert_eq!(sql_trim_string("Where", "", " WHERE a=1 "), " a=1");
    assert_eq!(sql_trim_string("and", "", " and a=1 and b=2 "), " a=1 and b=2");
    assert_eq!(sql_trim_string("and", "", "  and a=1 and b=2  "), " a=1 and b=2");
    assert_eq!(sql_trim_string(",", ",", "  a=1 , b=2 , "), "a=1 , b=2 ");
    assert_eq!(sql_trim_string(",", ",", " , a=1 , b=2 "), " a=1 , b=2");
}
