use safe_fluent::sql::{EmptyQuery, Query};

#[test]
fn select_from() {
    let q = Query::builder().select("a").from("t").build();
    assert_eq!("SELECT a\nFROM t", q.to_string());
}

#[test]
fn several_selections_tables_and_predicates() {
    let q = Query::builder()
        .select("a")
        .select("b")
        .from("t1")
        .from("t2")
        .where_("x > 1")
        .where_("y < 2")
        .build();
    assert_eq!("SELECT a, b\nFROM t1 t2\nWHERE x > 1\nWHERE y < 2", q.to_string());
}

#[test]
fn empty_query_new_then_where() {
    let q = EmptyQuery::new().select("*").from("Students").where_("age >= 18").build();
    assert_eq!("SELECT *\nFROM Students\nWHERE age >= 18", q.to_string());
}
