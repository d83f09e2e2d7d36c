use shape_collide::text::{chars_of, parse_i32, split_fields};

fn chars(s: &str) -> Vec<char> {
    s.chars().collect()
}

#[test]
fn parse_i32_exact_values() {
    assert_eq!(parse_i32(&chars("0")), Some(0));
    assert_eq!(parse_i32(&chars("42")), Some(42));
    assert_eq!(parse_i32(&chars("+42")), Some(42));
    assert_eq!(parse_i32(&chars("-42")), Some(-42));
    assert_eq!(parse_i32(&chars("2147483647")), Some(i32::MAX));
    assert_eq!(parse_i32(&chars("-2147483648")), Some(i32::MIN));
    assert_eq!(parse_i32(&chars("00000000000000000000019")), Some(19));
}

#[test]
fn parse_i32_rejects() {
    for s in ["", "+", "-", "2147483648", "-2147483649", "99999999999999999999", "1.5", "1e3", " 1", "1 ", "--1", "x"] {
        assert_eq!(parse_i32(&chars(s)), None, "{s}");
    }
}

#[test]
fn split_fields_keeps_empty_fields() {
    assert_eq!(split_fields(&chars("a  b")), vec![chars("a"), vec![], chars("b")]);
    assert_eq!(split_fields(&chars("")), vec![Vec::<char>::new()]);
    assert_eq!(split_fields(&chars(" ")), vec![Vec::<char>::new(), Vec::new()]);
    assert_eq!(split_fields(&chars("rect 1 2")), vec![chars("rect"), chars("1"), chars("2")]);
}

#[test]
fn chars_of_keeps_every_char() {
    assert_eq!(chars_of("héllo"), vec!['h', 'é', 'l', 'l', 'o']);
}
