use std::str::FromStr;

use biodome::rawconv::to_bool;
use biodome::rawconv::to_datetime;
use biodome::rawconv::to_prim;
use biodome::rawconv::to_table;
use biodome::rawconv::to_vec;
use toml::value::Datetime;

#[test]
fn prim() -> Result<(), &'static str> {
    let x: i32 = to_prim("1")?;
    assert_eq!(x, 1);
    let x: i64 = to_prim("1")?;
    assert_eq!(x, 1);
    Ok(())
}

#[test]
fn boo() -> Result<(), &'static str> {
    let x = to_bool("1");
    assert_eq!(x, true);
    let x = to_bool("0");
    assert_eq!(x, false);
    let x = to_bool("true");
    assert_eq!(x, true);
    let x = to_bool("TRUE");
    assert_eq!(x, true);
    Ok(())
}

#[test]
fn vecc() -> Result<(), &'static str> {
    let x: Vec<i32> = to_vec("[1, 2, 3]")?;
    assert_eq!(x, vec![1, 2, 3]);
    let x: Vec<i64> = to_vec("[1, 2, 3]")?;
    assert_eq!(x, vec![1, 2, 3]);
    Ok(())
}

#[test]
fn dt() -> Result<(), &'static str> {
    let x = to_datetime("1979-05-27T07:32:00-08:00")?;
    let dt = Datetime::from_str("1979-05-27T07:32:00-08:00").unwrap();
    assert_eq!(x, dt);
    Ok(())
}

#[test]
fn dt_malformed() {
    assert!(to_datetime("yesterday at noon").is_err());
}

#[test]
fn prim_all_widths() {
    assert_eq!(to_prim::<i8>("123"), Ok(123));
    assert_eq!(to_prim::<i16>("123"), Ok(123));
    assert_eq!(to_prim::<i32>("123"), Ok(123));
    assert_eq!(to_prim::<i64>("123"), Ok(123));
    assert_eq!(to_prim::<u8>("123"), Ok(123));
    assert_eq!(to_prim::<u16>("123"), Ok(123));
    assert_eq!(to_prim::<u32>("123"), Ok(123));
    assert_eq!(to_prim::<u64>("123"), Ok(123));
    assert_eq!(to_prim::<usize>("123"), Ok(123));
    assert_eq!(to_prim::<String>("abc"), Ok(String::from("abc")));
}

#[test]
fn prim_signs_and_bounds() {
    assert_eq!(to_prim::<i32>("+5"), Ok(5));
    assert_eq!(to_prim::<i32>("-0"), Ok(0));
    assert_eq!(to_prim::<i32>("-2147483648"), Ok(i32::MIN));
    assert_eq!(to_prim::<i64>("-9223372036854775808"), Ok(i64::MIN));
    assert_eq!(to_prim::<i64>("9223372036854775807"), Ok(i64::MAX));
    assert_eq!(to_prim::<u64>("18446744073709551615"), Ok(u64::MAX));
    assert_eq!(to_prim::<u8>("007"), Ok(7));
    assert!(to_prim::<u8>("300").is_err());
    assert!(to_prim::<u64>("18446744073709551616").is_err());
    assert!(to_prim::<i64>("-9223372036854775809").is_err());
    assert!(to_prim::<u32>("-1").is_err());
    assert!(to_prim::<i32>("").is_err());
    assert!(to_prim::<i32>("+").is_err());
    assert!(to_prim::<i32>("12 3").is_err());
    assert!(to_prim::<i32>(" 12").is_err());
}

#[test]
fn truthy_set_is_exact() {
    for word in [
        "true", "t", "1", "yes", "y", "ok", "enable", "enabled", "active", "on",
    ] {
        assert!(to_bool(word), "{word} should be truthy");
        assert!(to_bool(&word.to_uppercase()));
    }
    for word in ["0", "false", "nope", "", "  ", "offish", "yess"] {
        assert!(!to_bool(word), "{word} should be falsy");
    }
    assert!(to_bool("  YeS\t"));
    assert!(to_prim::<bool>("on").unwrap());
}

#[test]
fn truthy_trims_all_whitespace_and_folds_kelvin() {
    // every character str::trim removes counts as blank space
    assert!(to_bool("\u{000C}true"));
    assert!(to_bool("\u{000B}on"));
    assert!(to_bool("\u{00A0}yes\u{3000}"));
    assert!(to_bool("\u{2003}1\u{2028}"));
    // the Kelvin sign lower-cases to a plain k
    assert!(to_bool("o\u{212A}"));
    assert!(to_bool("O\u{212A}"));
    assert!(!to_bool("\u{212A}"));
}

#[test]
fn conversion_error_is_the_parse_error() {
    assert_eq!(to_prim::<i32>("x"), Err("parse error"));
    assert_eq!(to_vec::<i32>("[1,"), Err("parse error"));
    assert_eq!(to_table::<i32>("{a}").err(), Some("parse error"));
}

#[test]
fn vec_shapes() {
    assert_eq!(to_vec::<i32>("[]"), Ok(vec![]));
    assert_eq!(to_vec::<i32>("[ ]"), Ok(vec![]));
    assert_eq!(to_vec::<i32>("[7]"), Ok(vec![7]));
    assert_eq!(to_vec::<i32>("[1, 2,]"), Ok(vec![1, 2]));
    assert_eq!(to_vec::<i32>("  [ 1 ,2 , 3 ]  "), Ok(vec![1, 2, 3]));
    assert_eq!(to_vec::<bool>("[yes, no]"), Ok(vec![true, false]));
    assert_eq!(
        to_vec::<String>("[a, b]"),
        Ok(vec![String::from("a"), String::from("b")])
    );
}

#[test]
fn vec_nested_and_quoted_elements_keep_their_text() {
    // elements are handed out as their literal text
    assert_eq!(
        to_vec::<String>("[[1, 2], [3]]"),
        Ok(vec![String::from("[1, 2]"), String::from("[3]")])
    );
    assert_eq!(
        to_vec::<String>("[\"a,b\", \"c\"]"),
        Ok(vec![String::from("\"a,b\""), String::from("\"c\"")])
    );
}

#[test]
fn vec_malformed() {
    assert!(to_vec::<i32>("[1,,2]").is_err());
    assert!(to_vec::<i32>("[1, 2").is_err());
    assert!(to_vec::<i32>("1, 2]").is_err());
    assert!(to_vec::<i32>("[1]]").is_err());
    assert!(to_vec::<i32>("[1, \"open]").is_err());
    assert!(to_vec::<i32>("[1, x]").is_err());
    assert!(to_vec::<i32>("").is_err());
    assert!(to_vec::<i32>("[,]").is_err());
}

#[test]
fn table_shapes() {
    let t = to_table::<i64>("{a = 1, b = 2}").unwrap();
    assert_eq!(t.len(), 2);
    assert_eq!(t.get("a"), Some(&1));
    assert_eq!(t.get("b"), Some(&2));
    assert_eq!(t.get("c"), None);

    let empty = to_table::<i64>("{}").unwrap();
    assert_eq!(empty.len(), 0);

    let spaced = to_table::<u8>("  { one = 1 ,two=2 }  ").unwrap();
    assert_eq!(spaced.get("one"), Some(&1));
    assert_eq!(spaced.get("two"), Some(&2));
}

#[test]
fn table_quoted_keys_and_string_values() {
    let t = to_table::<String>("{\"log level\" = warn, 'x' = y}").unwrap();
    assert_eq!(t.get("log level"), Some(&String::from("warn")));
    assert_eq!(t.get("x"), Some(&String::from("y")));
}

#[test]
fn table_duplicate_key_last_wins() {
    let t = to_table::<i32>("{a = 1, a = 2}").unwrap();
    assert_eq!(t.len(), 1);
    assert_eq!(t.get("a"), Some(&2));
}

#[test]
fn table_malformed() {
    assert!(to_table::<i32>("{a = 1,}").is_err());
    assert!(to_table::<i32>("{a b = 1}").is_err());
    assert!(to_table::<i32>("{a = }").is_err());
    assert!(to_table::<i32>("{= 1}").is_err());
    assert!(to_table::<i32>("{a = x}").is_err());
    assert!(to_table::<i32>("{a = 1").is_err());
    assert!(to_table::<i32>("a = 1}").is_err());
}
