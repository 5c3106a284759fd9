use parcli::translate::{parse_mymemory, MyMemoryResponse, ResponseStatus, TranslateError};
use serde_json::Value;

/// The response that a JSON body holds.
fn response(body: &str) -> Option<MyMemoryResponse> {
    let v: Value = serde_json::from_str(body).ok()?;
    let text = |v: &Value, key: &str| v.get(key).and_then(|x| x.as_str()).unwrap_or_default().to_string();
    Some(MyMemoryResponse {
        translated_text: v.get("responseData").map(|d| text(d, "translatedText")),
        status: match v.get("responseStatus") {
            Some(Value::Number(n)) => ResponseStatus::Number(n.as_i64()),
            Some(Value::String(s)) => ResponseStatus::Text(s.clone()),
            _ => ResponseStatus::Other,
        },
        details: text(&v, "responseDetails"),
    })
}

fn parse(body: &str) -> Result<Option<String>, TranslateError> {
    parse_mymemory(&response(body).unwrap())
}

#[test]
fn parses_translation() {
    let body = r#"{"responseData":{"translatedText":"Packages being prepared at the sender","match":0.85},"quotaFinished":false,"responseDetails":"","responseStatus":200,"matches":[]}"#;
    assert_eq!(parse(body).unwrap(), Some("Packages being prepared at the sender".to_string()));
}

#[test]
fn same_language_means_no_translation_needed() {
    let body = r#"{"responseData":{"translatedText":"PLEASE SELECT TWO DISTINCT LANGUAGES"},"responseDetails":"PLEASE SELECT TWO DISTINCT LANGUAGES","responseStatus":403}"#;
    assert_eq!(parse(body).unwrap(), None);
}

#[test]
fn other_errors_are_errors() {
    let body = r#"{"responseData":{"translatedText":"MYMEMORY WARNING: YOU USED ALL AVAILABLE FREE TRANSLATIONS FOR TODAY"},"responseDetails":"MYMEMORY WARNING: YOU USED ALL AVAILABLE FREE TRANSLATIONS FOR TODAY","responseStatus":429}"#;
    let err = parse(body).unwrap_err().text();
    assert!(err.contains("FREE TRANSLATIONS"), "{err}");
    assert_eq!(err, "translation failed (429): MYMEMORY WARNING: YOU USED ALL AVAILABLE FREE TRANSLATIONS FOR TODAY");
}

#[test]
fn empty_translation_is_none() {
    let body = r#"{"responseData":{"translatedText":""},"responseStatus":200}"#;
    assert_eq!(parse(body).unwrap(), None);
}

#[test]
fn the_status_may_be_a_text() {
    assert_eq!(
        parse(r#"{"responseData":{"translatedText":" Parcel "},"responseStatus":"200"}"#).unwrap(),
        Some("Parcel".to_string())
    );
    assert_eq!(parse(r#"{"responseData":{"translatedText":"x"},"responseStatus":"+200"}"#).unwrap(), Some("x".to_string()));
    let err = parse(r#"{"responseData":{"translatedText":"x"},"responseStatus":"-7","responseDetails":"d"}"#).unwrap_err();
    assert_eq!(err, TranslateError { status: -7, details: "d".to_string() });
    assert_eq!(err.text(), "translation failed (-7): d");
}

#[test]
fn a_status_that_is_no_number_counts_as_zero() {
    for body in [
        r#"{"responseStatus":"two hundred"}"#,
        r#"{"responseStatus":200.5}"#,
        r#"{"responseStatus":null}"#,
        r#"{"responseStatus":"9223372036854775808"}"#,
        r#"{}"#,
    ] {
        assert_eq!(parse(body).unwrap_err().text(), "translation failed (0): ", "{body}");
    }
    assert_eq!(parse(r#"{"responseStatus":200}"#).unwrap(), None, "no data at all");
}
