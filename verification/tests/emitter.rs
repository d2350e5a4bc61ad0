use kql_converter::sql::ast::{SelectList, SelectStatement, TableReference};
use kql_converter::sql::{emit, Printer};

#[test]
fn test_simple() {
    let query = SelectStatement {
        modifier: None,
        select: SelectList { wildcard: true, columns: vec![] },
        from: TableReference::TableName { name: String::from("users") },
        where_: None,
        order_by: None,
        limit: None,
    };

    let mut printer = Printer::default();
    assert!(printer.print_query(&query).is_ok());
    assert_eq!(String::from("SELECT *\nFROM users\n"), String::from(printer));
}

#[test]
fn emit_twice_gives_the_same_text() {
    let inner = SelectStatement::simple(String::from("Users"));
    let mut outer = SelectStatement::simple_wrapping(inner);
    outer.limit = Some(-3);
    let first = emit(&outer).unwrap();
    let second = emit(&outer).unwrap();
    assert_eq!(first, second);
    assert_eq!(first, "SELECT *\nFROM (\n    SELECT *\n    FROM Users\n)\nLIMIT -3\n");
}

#[test]
fn printer_keeps_what_it_printed() {
    let mut printer = Printer::default();
    assert!(printer.print_query(&SelectStatement::simple(String::from("a"))).is_ok());
    assert!(printer.print_query(&SelectStatement::simple(String::from("b"))).is_ok());
    assert_eq!(printer.into_string(), "SELECT *\nFROM a\nSELECT *\nFROM b\n");
}
