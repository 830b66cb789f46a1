use rusqlite::types::ValueRef;
use rusqlite::Connection;
use sqlvec::{ExtractError, SqlVec, StoredValue, DELIMITER};

fn strings(items: &[&str]) -> Vec<String> {
    items.iter().map(|s| s.to_string()).collect()
}

fn stored(value: ValueRef<'_>) -> StoredValue {
    match value {
        ValueRef::Null => StoredValue::Null,
        ValueRef::Integer(i) => StoredValue::Integer(i),
        ValueRef::Real(f) => StoredValue::Real(f.to_bits()),
        ValueRef::Text(t) => StoredValue::Text(t.to_vec()),
        ValueRef::Blob(b) => StoredValue::Blob(b.to_vec()),
    }
}

#[test]
fn encode_two_strings() {
    let v = SqlVec::new(strings(&["one", "two"]));
    assert_eq!(v.to_string(), "one\u{F1}two");
}

#[test]
fn decode_two_strings() {
    let v = SqlVec::<String>::from_str("one\u{F1}two").unwrap();
    assert_eq!(v.into_inner(), strings(&["one", "two"]));
}

#[test]
fn decode_integers_drops_unparseable() {
    let v = SqlVec::<i64>::decode("1\u{F1}x\u{F1}3");
    assert_eq!(v.into_inner(), vec![1, 3]);
}

#[test]
fn store_and_read_back_through_database() {
    let conn = Connection::open_in_memory().unwrap();
    conn.execute_batch("CREATE TABLE test (id INTEGER PRIMARY KEY, data TEXT);")
        .unwrap();
    let values = SqlVec::new(strings(&["a", "b"]));
    let text = values.to_sql();
    conn.execute("INSERT INTO test (data) VALUES (?1)", [text.as_str()])
        .unwrap();
    let read = conn
        .query_row("SELECT data FROM test WHERE id = ?1", [1i64], |row| {
            Ok(stored(row.get_ref(0)?))
        })
        .unwrap();
    let back = SqlVec::<String>::column_result(&read).unwrap();
    assert_eq!(back, values);
    assert_eq!(back.inner(), &strings(&["a", "b"]));
}

#[test]
fn empty_sequence_encodes_to_empty_text() {
    let v: SqlVec<String> = SqlVec::default();
    assert_eq!(v.to_string(), "");
    let n: SqlVec<i64> = SqlVec::new(Vec::new());
    assert_eq!(n.to_sql(), "");
}

#[test]
fn empty_text_is_one_empty_piece() {
    assert_eq!(
        SqlVec::<String>::from_str("").unwrap().into_inner(),
        strings(&[""])
    );
    assert_eq!(SqlVec::<String>::decode("").into_inner(), strings(&[""]));
    assert_eq!(SqlVec::<i64>::decode("").into_inner(), Vec::<i64>::new());
}

#[test]
fn round_trip_strings() {
    let items = strings(&["alpha", "beta", "", "gamma"]);
    let text = SqlVec::new(items.clone()).to_string();
    assert_eq!(SqlVec::<String>::decode(&text).into_inner(), items);
    assert_eq!(SqlVec::<String>::from_str(&text).unwrap().into_inner(), items);
}

#[test]
fn round_trip_integers() {
    let items: Vec<i64> = vec![0, -5, 42, i64::MIN, i64::MAX, 7];
    let text = SqlVec::new(items.clone()).to_string();
    assert_eq!(SqlVec::<i64>::decode(&text).into_inner(), items);
    let unsigned: Vec<u64> = vec![u64::MAX, 0, 10];
    let text = SqlVec::new(unsigned.clone()).to_string();
    assert_eq!(SqlVec::<u64>::decode(&text).into_inner(), unsigned);
}

#[test]
fn order_is_kept() {
    let items: Vec<u64> = vec![3, 1, 2, 1];
    let text = SqlVec::new(items.clone()).to_string();
    assert_eq!(text, "3\u{F1}1\u{F1}2\u{F1}1");
    assert_eq!(SqlVec::<u64>::decode(&text).into_inner(), items);
}

#[test]
fn unparseable_pieces_are_dropped_in_order() {
    let v = SqlVec::<u64>::decode("x\u{F1}4\u{F1}-1\u{F1}\u{F1}9\u{F1}+8\u{F1} 2");
    assert_eq!(v.into_inner(), vec![4, 9, 8]);
}

#[test]
fn integer_out_of_range_is_dropped() {
    let v = SqlVec::<u64>::decode("18446744073709551615\u{F1}18446744073709551616");
    assert_eq!(v.into_inner(), vec![u64::MAX]);
    let w = SqlVec::<i64>::decode("-9223372036854775808\u{F1}-9223372036854775809\u{F1}-\u{F1}+");
    assert_eq!(w.into_inner(), vec![i64::MIN]);
}

#[test]
fn negative_integers_display_with_sign() {
    let v = SqlVec::new(vec![-12i64, 0, 5]);
    assert_eq!(v.to_string(), "-12\u{F1}0\u{F1}5");
}

#[test]
fn signed_parse_accepts_signs() {
    let v = SqlVec::<i64>::decode("+7\u{F1}-0\u{F1}-31");
    assert_eq!(v.into_inner(), vec![7, 0, -31]);
}

#[test]
fn trimming_only_when_reading_strings_from_text() {
    let text = " a \u{F1}\tb\n";
    assert_eq!(
        SqlVec::<String>::from_str(text).unwrap().into_inner(),
        strings(&["a", "b"])
    );
    assert_eq!(
        SqlVec::<String>::decode(text).into_inner(),
        strings(&[" a ", "\tb\n"])
    );
    let u = "\u{3000}c\u{A0}";
    assert_eq!(
        SqlVec::<String>::from_str(u).unwrap().into_inner(),
        strings(&["c"])
    );
}

#[test]
fn delimiter_inside_an_element_splits_it() {
    let item = format!("a{}b", DELIMITER);
    let text = SqlVec::new(vec![item]).to_string();
    assert_eq!(SqlVec::<String>::decode(&text).into_inner(), strings(&["a", "b"]));
}

#[test]
fn non_text_values_are_refused() {
    let cases = vec![
        StoredValue::Null,
        StoredValue::Integer(3),
        StoredValue::Real(1.5f64.to_bits()),
        StoredValue::Blob(vec![0x61, 0x62]),
    ];
    for value in cases {
        assert_eq!(
            SqlVec::<String>::column_result(&value),
            Err(ExtractError::InvalidType)
        );
        assert_eq!(
            SqlVec::<i64>::column_result(&value),
            Err(ExtractError::InvalidType)
        );
    }
}

#[test]
fn invalid_utf8_text_is_refused() {
    let value = StoredValue::Text(vec![0x61, 0xFF, 0x62]);
    assert_eq!(
        SqlVec::<String>::column_result(&value),
        Err(ExtractError::InvalidUtf8)
    );
}

#[test]
fn text_value_is_decoded_without_trimming() {
    let value = StoredValue::Text("1\u{F1}x\u{F1}3".as_bytes().to_vec());
    assert_eq!(
        SqlVec::<i64>::column_result(&value).unwrap().into_inner(),
        vec![1, 3]
    );
    let value = StoredValue::Text(" a \u{F1}b".as_bytes().to_vec());
    assert_eq!(
        SqlVec::<String>::column_result(&value).unwrap().into_inner(),
        strings(&[" a ", "b"])
    );
}

#[test]
fn accessors_give_the_items() {
    let v = SqlVec::new(vec![1u64, 2]);
    assert_eq!(v.inner(), &vec![1, 2]);
    assert_eq!(v.into_inner(), vec![1, 2]);
}
