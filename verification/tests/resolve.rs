use biodome::resolve;
use biodome::table::EnvTable;

#[test]
fn absent_yields_default() {
    assert_eq!(resolve(None, 10_i32), Ok(10));
    assert_eq!(resolve(None, String::from("info")), Ok(String::from("info")));
    assert_eq!(resolve(None, true), Ok(true));
    assert_eq!(resolve(None, vec![9_i64]), Ok(vec![9]));
}

#[test]
fn absent_table_yields_default() {
    let mut default_table: EnvTable<i32> = EnvTable::new();
    default_table.insert(String::from("root"), 1);
    let got = resolve(None, default_table).unwrap();
    assert_eq!(got.len(), 1);
    assert_eq!(got.get("root"), Some(&1));
}

#[test]
fn present_scalars_parse_as_their_type() {
    assert_eq!(resolve(Some("123"), 0_i8), Ok(123));
    assert_eq!(resolve(Some("123"), 0_i16), Ok(123));
    assert_eq!(resolve(Some("123"), 0_i32), Ok(123));
    assert_eq!(resolve(Some("123"), 0_i64), Ok(123));
    assert_eq!(resolve(Some("123"), 0_u8), Ok(123));
    assert_eq!(resolve(Some("123"), 0_u16), Ok(123));
    assert_eq!(resolve(Some("123"), 0_u32), Ok(123));
    assert_eq!(resolve(Some("123"), 0_u64), Ok(123));
    assert_eq!(resolve(Some("123"), 0_usize), Ok(123));
    assert_eq!(
        resolve(Some("xyz"), String::new()),
        Ok(String::from("xyz"))
    );
}

#[test]
fn present_empty_string_is_converted_not_defaulted() {
    // an empty string is present: it converts (to itself, or to false),
    // and for numbers it fails rather than falling back
    assert_eq!(resolve(Some(""), String::from("dflt")), Ok(String::new()));
    assert_eq!(resolve(Some(""), true), Ok(false));
    assert!(resolve(Some(""), 7_i32).is_err());
}

#[test]
fn boolean_truthiness_through_resolve() {
    for raw in ["true", "TRUE", "Yes", "1", "on", "enabled"] {
        assert_eq!(resolve(Some(raw), false), Ok(true), "{raw}");
    }
    for raw in ["0", "false", "nope", ""] {
        assert_eq!(resolve(Some(raw), true), Ok(false), "{raw}");
    }
}

#[test]
fn sequence_round_trip() {
    assert_eq!(resolve(Some("[1, 2, 3]"), vec![9]), Ok(vec![1, 2, 3]));
    assert_eq!(resolve(None, vec![9]), Ok(vec![9]));
}

#[test]
fn mapping_round_trip() {
    let empty: EnvTable<i64> = EnvTable::new();
    let got = resolve(Some("{a = 1, b = 2}"), empty).unwrap();
    assert_eq!(got.len(), 2);
    assert_eq!(got.get("a"), Some(&1));
    assert_eq!(got.get("b"), Some(&2));

    let mut default_table: EnvTable<i64> = EnvTable::new();
    default_table.insert(String::from("k"), 9);
    let missed = resolve(None, default_table).unwrap();
    assert_eq!(missed.len(), 1);
    assert_eq!(missed.get("k"), Some(&9));
}

#[test]
fn malformed_present_value_is_an_error() {
    assert_eq!(resolve(Some("not_a_number"), 5_i64), Err("parse error"));
    assert!(resolve(Some("12x"), 5_u32).is_err());
    assert!(resolve(Some("[1, oops]"), vec![0_i32]).is_err());
    let empty: EnvTable<i32> = EnvTable::new();
    assert!(resolve(Some("{a = oops}"), empty).is_err());
}

#[test]
fn repeated_resolution_is_stable() {
    let first = resolve(None, 42_u16);
    let second = resolve(None, 42_u16);
    assert_eq!(first, second);
    let third: Result<bool, _> = resolve(Some("yes"), false);
    let fourth: Result<bool, _> = resolve(Some("yes"), false);
    assert_eq!(third, fourth);
}

#[test]
fn table_insert_overwrites() {
    let mut t: EnvTable<u8> = EnvTable::new();
    t.insert(String::from("n"), 1);
    t.insert(String::from("m"), 2);
    t.insert(String::from("n"), 3);
    assert_eq!(t.len(), 2);
    assert_eq!(t.get("n"), Some(&3));
    assert_eq!(t.get("m"), Some(&2));
}
