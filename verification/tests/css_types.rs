use russ::values::{CSSString, Integer, Ratio, Url};
use russ::writer::{render_to_string, render_to_vec, WriteValue};

fn render<T: WriteValue>(value: T) -> String {
    render_to_string(&value)
}

#[test]
fn css_types_string() {
    assert_eq!(render(CSSString::new("hello world")), "\"hello world\"");
    assert_eq!(render(CSSString::new(r#" "'" "#)), r#"" \"'\" ""#);
}

#[test]
fn integer() {
    assert_eq!(render(Integer::from(5)), "5");
    assert_eq!(render(Integer::from(0)), "0");
    assert_eq!(render(Integer::from(-100)), "-100");
    assert_eq!(render(Integer::from(i32::MIN)), "-2147483648");
    assert_eq!(render(Integer::from(i32::MAX)), "2147483647");
}

#[test]
fn ratio() {
    assert_eq!(render(Ratio(Integer::from(16), Integer::from(9))), "16/9");
}

#[test]
fn url() {
    assert_eq!(
        render(Url(CSSString::new("http://www.example.com/pinkish.gif"))),
        "url(\"http://www.example.com/pinkish.gif\")"
    );
}

#[test]
fn rendering_to_bytes_matches_text() {
    let v = CSSString::new("abc");
    assert_eq!(render_to_vec(&v), b"\"abc\"".to_vec());
}
