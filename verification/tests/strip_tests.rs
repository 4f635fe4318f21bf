use json_comments::{StripComments, StripError};

fn strip_bytes(input: &[u8]) -> Result<Vec<u8>, StripError> {
    let mut filter = StripComments::new(input);
    let mut buf: Vec<u8> = input.to_vec();
    let n: usize = buf.len();
    filter.strip_chunk(&mut buf, n)?;
    filter.finish()?;
    Ok(buf)
}

fn strip_string(input: &str) -> String {
    let out = strip_bytes(input.as_bytes()).unwrap();
    assert_eq!(out.len(), input.len());
    String::from_utf8(out).unwrap()
}

#[test]
fn block_comments() {
    let json = r#"{/* Comment */"hi": /** abc */ "bye"}"#;
    let stripped = strip_string(json);
    assert_eq!(stripped, r#"{             "hi":            "bye"}"#);
}

#[test]
fn line_comments() {
    let json = "{\n            // line comment\n            \"a\": 4,\n            # another\n        }";

    let expected =
        "{\n                           \n            \"a\": 4,\n                     \n        }";

    assert_eq!(strip_string(json), expected);
}

#[test]
fn incomplete_string() {
    let json = r#""foo"#;
    let err = strip_bytes(json.as_bytes()).unwrap_err();
    assert_eq!(err, StripError::IncompleteString);
}

#[test]
fn incomplete_comment() {
    let json = r#"/* foo "#;
    let err = strip_bytes(json.as_bytes()).unwrap_err();
    assert_eq!(err, StripError::IncompleteComment);
}

#[test]
fn incomplete_comment2() {
    let json = r#"/* foo *"#;
    let err = strip_bytes(json.as_bytes()).unwrap_err();
    assert_eq!(err, StripError::IncompleteComment);
}
