use linq_rs::from_row::{resolve_by_name, FromRow, Layout, LoadField, RowError, RowSource, SqlValueRef};
use linq_rs::provider::{count_sql, ValueRow};
use linq_rs::sql_types::{Boolean, Integer, Nullable, Text};
use linq_rs::value::SqlValue;

fn cols(names: &[&str]) -> Vec<String> {
    names.iter().map(|s| s.to_string()).collect()
}

const WANT: &[&str] = &["id", "name", "dept"];

#[test]
fn resolves_by_name_regardless_of_position() {
    let l: Layout<()> = resolve_by_name(&cols(&["dept", "id", "name"]), WANT).unwrap();
    assert_eq!((l.position(0), l.position(1), l.position(2)), (1, 2, 0), "id, name, dept live at 1, 2, 0");
    assert!(!l.is_identity());
}

#[test]
fn an_already_ordered_result_set_is_the_identity() {
    let l: Layout<()> = resolve_by_name(&cols(&["id", "name", "dept"]), WANT).unwrap();
    assert!(l.is_identity());
    assert_eq!(l.len(), 3);
    assert!(!l.is_empty());
}

#[test]
fn extra_columns_are_ignored() {
    let l: Layout<()> = resolve_by_name(&cols(&["x", "id", "y", "name", "dept", "z"]), WANT).unwrap();
    assert_eq!((l.position(0), l.position(1), l.position(2)), (1, 3, 4));
}

#[test]
fn a_missing_column_names_itself_and_what_was_available() {
    let e = resolve_by_name::<(), _>(&cols(&["id", "name"]), WANT).unwrap_err();
    assert!(matches!(e, RowError::NoSuchColumn { column: "dept", .. }));
    assert_eq!(e.message(), "no column `dept` in the result set (it has: id, name)");
}

#[test]
fn resolution_does_not_depend_on_there_being_rows() {
    let empty = resolve_by_name::<(), _>(&cols(&["id", "name"]), WANT).unwrap_err();
    assert_eq!(empty.message(), {
        let same = resolve_by_name::<(), _>(&cols(&["id", "name"]), WANT).unwrap_err();
        same.message()
    });
}

#[test]
fn a_duplicated_name_is_ambiguous_not_first_wins() {
    let e = resolve_by_name::<(), _>(&cols(&["id", "name", "dept", "id"]), WANT).unwrap_err();
    assert!(matches!(e, RowError::AmbiguousColumn { column: "id", at: (0, 3) }));
    assert!(e.message().contains("appears more than once"));
    assert_eq!(
        e.message(),
        "column `id` appears more than once in the result set (positions 0 and 3); name it explicitly or alias it"
    );
}

#[test]
fn name_matching_is_case_sensitive_and_owned_by_this_crate() {
    let e = resolve_by_name::<(), _>(&cols(&["ID", "NAME", "DEPT"]), WANT).unwrap_err();
    assert!(matches!(e, RowError::NoSuchColumn { column: "id", .. }));
}

#[test]
fn a_column_without_a_name_is_listed_as_a_question_mark() {
    let names: Vec<Option<String>> = vec![Some("id".to_string()), None];
    let e = resolve_by_name::<(), _>(&names, WANT).unwrap_err();
    assert_eq!(e.message(), "no column `name` in the result set (it has: id, ?)");
}

#[test]
fn null_into_a_non_nullable_column_is_an_error_naming_it() {
    let e = <Integer as LoadField<'_, i64>>::load_field(SqlValueRef::Null, "id").unwrap_err();
    assert_eq!(e.message(), "column `id` is NULL but is not declared Nullable<_>");
}

#[test]
fn null_into_a_nullable_column_is_none() {
    let got = <Nullable<Text> as LoadField<'_, Option<String>>>::load_field(SqlValueRef::Null, "nick").unwrap();
    assert_eq!(got, None);
}

#[test]
fn a_present_nullable_value_is_some() {
    let got =
        <Nullable<Text> as LoadField<'_, Option<String>>>::load_field(SqlValueRef::Text("ann"), "nick").unwrap();
    assert_eq!(got.as_deref(), Some("ann"));
}

#[test]
fn a_wrong_shape_names_the_column_the_declared_type_and_what_arrived() {
    let e = <Integer as LoadField<'_, i64>>::load_field(SqlValueRef::Text("nope"), "n").unwrap_err();
    assert_eq!(e.message(), "column `n` is declared INTEGER but the driver returned Text");
}

#[test]
fn narrowing_is_checked_never_cast() {
    assert_eq!(<Integer as LoadField<'_, i64>>::load_field(SqlValueRef::Integer(i64::MAX), "n").unwrap(), i64::MAX);
    let e = <Integer as LoadField<'_, i32>>::load_field(SqlValueRef::Integer(5_000_000_000), "n").unwrap_err();
    assert_eq!(e.message(), "column `n`: Integer(5000000000) does not fit `i32`");
    assert_eq!(<Integer as LoadField<'_, i32>>::load_field(SqlValueRef::Integer(-7), "n").unwrap(), -7);
}

#[test]
fn bool_accepts_only_zero_and_one() {
    assert!(!<Boolean as LoadField<'_, bool>>::load_field(SqlValueRef::Integer(0), "a").unwrap());
    assert!(<Boolean as LoadField<'_, bool>>::load_field(SqlValueRef::Integer(1), "a").unwrap());
    for bad in [-1i64, 2, i64::MAX] {
        let e = <Boolean as LoadField<'_, bool>>::load_field(SqlValueRef::Integer(bad), "a").unwrap_err();
        assert!(matches!(e, RowError::OutOfRange { target: "bool", .. }), "{bad} must not become a bool");
    }
}

#[test]
fn text_can_borrow_from_the_row_buffer() {
    let owned = String::from("borrowed");
    let got = <Text as LoadField<'_, &str>>::load_field(SqlValueRef::Text(&owned), "s").unwrap();
    assert_eq!(got, "borrowed");
    assert!(std::ptr::eq(got.as_ptr(), owned.as_ptr()), "no copy");
}

#[test]
fn a_row_ordinal_can_be_attached_and_is_not_overwritten() {
    let e = <Integer as LoadField<'_, i64>>::load_field(SqlValueRef::Null, "id").unwrap_err().at_row(99);
    assert_eq!(e.message(), "column `id` is NULL but is not declared Nullable<_> (row 99)");
    let again = e.at_row(1);
    assert!(again.message().contains("(row 99)"), "first wins");
}

#[test]
fn every_naming_variant_reports_its_column() {
    let cases: Vec<RowError> = vec![
        resolve_by_name::<(), _>(&cols(&[]), &["id"]).unwrap_err(),
        <Integer as LoadField<'_, i64>>::load_field(SqlValueRef::Null, "id").unwrap_err(),
        <Integer as LoadField<'_, i64>>::load_field(SqlValueRef::Text("x"), "id").unwrap_err(),
        RowError::driver("id", "disk I/O error".to_string()),
    ];
    for e in cases {
        assert_eq!(e.column(), Some("id"), "{}", e.message());
    }
}

#[test]
fn driver_errors_say_which_column_they_were_reading() {
    let e = RowError::driver("salary", "disk I/O error".to_string());
    assert_eq!(e.message(), "driver error reading column `salary`: disk I/O error");
}

#[test]
fn owned_values_copy_text_and_render_blobs() {
    assert_eq!(SqlValueRef::Null.to_owned_value(), SqlValue::Null);
    assert_eq!(SqlValueRef::Integer(7).to_owned_value(), SqlValue::Integer(7));
    assert_eq!(SqlValueRef::Text("hi").to_owned_value(), SqlValue::Text("hi".to_string()));
    assert_eq!(SqlValueRef::Blob(&[1, 2, 3]).to_owned_value(), SqlValue::Text("<3 bytes>".to_string()));
    assert_eq!(SqlValueRef::Blob(&[]).to_owned_value(), SqlValue::Text("<0 bytes>".to_string()));
}

#[test]
fn variant_names_are_the_enum_variants() {
    assert_eq!(SqlValueRef::Null.variant_name(), "Null");
    assert_eq!(SqlValueRef::Integer(1).variant_name(), "Integer");
    assert_eq!(SqlValueRef::Text("").variant_name(), "Text");
    assert_eq!(SqlValueRef::Blob(&[]).variant_name(), "Blob");
}

#[test]
fn count_wraps_the_query_rather_than_rewriting_it() {
    assert_eq!(
        count_sql("SELECT id FROM emp ORDER BY id LIMIT 2"),
        "SELECT COUNT(*) FROM (SELECT id FROM emp ORDER BY id LIMIT 2)"
    );
}

#[test]
fn a_value_row_hands_out_values_and_driver_failures_by_column() {
    let names: Vec<Option<String>> = vec![Some("id".to_string()), Some("name".to_string())];
    let row = ValueRow::new(
        &names,
        vec![Ok(SqlValueRef::Integer(4)), Err("invalid utf-8".to_string())],
        "Invalid column index: ",
    );
    assert_eq!(row.value_at(0, "id").unwrap(), SqlValueRef::Integer(4));
    let e = row.value_at(1, "name").unwrap_err();
    assert_eq!(e.message(), "driver error reading column `name`: invalid utf-8");
    let e = row.value_at(5, "x").unwrap_err();
    assert_eq!(e.message(), "driver error reading column `x`: Invalid column index: 5");
}

struct Person {
    id: i64,
    name: String,
    nick: Option<String>,
}

impl FromRow for Person {
    const COLUMNS: &'static [&'static str] = &["id", "name", "nick"];

    fn from_row<'a, R: RowSource<'a> + ?Sized>(row: &R, layout: &Layout<Self>) -> Result<Self, RowError> {
        Ok(Person {
            id: <Integer as LoadField<'a, i64>>::load_field(row.value_at(layout.position(0), "id")?, "id")?,
            name: <Text as LoadField<'a, String>>::load_field(row.value_at(layout.position(1), "name")?, "name")?,
            nick: <Nullable<Text> as LoadField<'a, Option<String>>>::load_field(
                row.value_at(layout.position(2), "nick")?,
                "nick",
            )?,
        })
    }
}

#[test]
fn a_shape_resolves_once_and_reads_rows_by_name() {
    let names: Vec<Option<String>> =
        vec![Some("nick".to_string()), Some("id".to_string()), Some("extra".to_string()), Some("name".to_string())];
    let layout = Person::resolve(&names).unwrap();
    assert_eq!((layout.position(0), layout.position(1), layout.position(2)), (1, 3, 0));
    let row = ValueRow::new(
        &names,
        vec![Ok(SqlValueRef::Null), Ok(SqlValueRef::Integer(9)), Ok(SqlValueRef::Blob(&[0])), Ok(SqlValueRef::Text("Ann"))],
        "Invalid column index: ",
    );
    let p = Person::from_row(&row, &layout).unwrap();
    assert_eq!((p.id, p.name.as_str(), p.nick), (9, "Ann", None));
    let missing: Vec<Option<String>> = vec![Some("id".to_string())];
    assert!(matches!(Person::resolve(&missing), Err(RowError::NoSuchColumn { column: "name", .. })));
}

#[test]
fn value_debug_text_quotes_and_escapes_text() {
    assert_eq!(SqlValue::Text("a\"b".into()).debug_text(), "Text(\"a\\\"b\")");
    assert_eq!(SqlValue::Text("x".into()).debug_text(), format!("Text({:?})", "x"));
    assert_eq!(SqlValue::Integer(-42).debug_text(), "Integer(-42)");
    assert_eq!(SqlValue::Integer(0).debug_text(), "Integer(0)");
    assert_eq!(SqlValue::Boolean(true).debug_text(), "Boolean(true)");
    assert_eq!(SqlValue::Null.debug_text(), "Null");
}

#[test]
fn a_fetch_keeps_rows_until_the_first_failure_which_names_its_row() {
    let mut fetched: linq_rs::provider::Fetched<i64> = linq_rs::provider::Fetched::new();
    assert!(fetched.accept(Ok(1)).is_ok());
    assert!(fetched.accept(Ok(2)).is_ok());
    let e = fetched.accept(Err(RowError::UnexpectedNull { column: "id", row: None })).unwrap_err();
    assert_eq!(e.message(), "column `id` is NULL but is not declared Nullable<_> (row 2)");
    assert_eq!(fetched.into_rows(), vec![1, 2]);
}
