use json_comments::{State, StripComments, StripError};

fn strip_bytes(input: &[u8]) -> Result<Vec<u8>, StripError> {
    let mut filter = StripComments::new(input);
    let mut buf: Vec<u8> = input.to_vec();
    let n: usize = buf.len();
    filter.strip_chunk(&mut buf, n)?;
    filter.finish()?;
    Ok(buf)
}

#[test]
fn unexpected_forward_slash() {
    let input = b"a/b";
    let mut filter = StripComments::new(());
    let mut buf: Vec<u8> = input.to_vec();
    let err = filter.strip_chunk(&mut buf, 3).unwrap_err();
    assert_eq!(err, StripError::UnexpectedForwardSlash);
    // The accepted prefix is filtered (the `/` is blanked); the offending
    // byte and everything after it are left as they were.
    assert_eq!(buf, b"a b".to_vec());
}

#[test]
fn poisoned_after_error() {
    let mut filter = StripComments::new(());
    let mut buf: Vec<u8> = b"a/b".to_vec();
    assert_eq!(
        filter.strip_chunk(&mut buf, 3).unwrap_err(),
        StripError::UnexpectedForwardSlash
    );
    // Once failed, the filter reports the same error again and no longer
    // touches the bytes handed to it.
    let mut later: Vec<u8> = b"{}".to_vec();
    assert_eq!(
        filter.strip_chunk(&mut later, 2).unwrap_err(),
        StripError::UnexpectedForwardSlash
    );
    assert_eq!(later, b"{}".to_vec());
    assert_eq!(
        filter.finish().unwrap_err(),
        StripError::UnexpectedForwardSlash
    );
}

#[test]
fn shell_line_comment() {
    let out = strip_bytes(b"{# hi\n}").unwrap();
    assert_eq!(out, b"{    \n}".to_vec());
}

#[test]
fn string_opacity() {
    // Comment syntax strictly inside a string literal is ordinary content.
    let input = br#""/* a */ // b # c""#;
    let out = strip_bytes(input).unwrap();
    assert_eq!(out, input.to_vec());
}

#[test]
fn escape_transparency() {
    // A backslash-escaped quote does not terminate the string.
    let input = br#""a\"b""#;
    let out = strip_bytes(input).unwrap();
    assert_eq!(out, input.to_vec());
    // Without the escape the second quote closes the string, and the third
    // quote opens a new string that never closes.
    let err = strip_bytes(br#""a"b" /"#).unwrap_err();
    assert_eq!(err, StripError::IncompleteString);
}

#[test]
fn chunk_independence() {
    let input: &[u8] = br#"{/* Comment */"hi": /** abc */ "bye"}"#;
    let whole = strip_bytes(input).unwrap();
    // Splitting the input at every position and concatenating the two
    // chunk outputs yields the same bytes as one pass over the whole.
    for split in 0..=input.len() {
        let mut filter = StripComments::new(());
        let mut first: Vec<u8> = input[..split].to_vec();
        let n1: usize = first.len();
        filter.strip_chunk(&mut first, n1).unwrap();
        let mut second: Vec<u8> = input[split..].to_vec();
        let n2: usize = second.len();
        filter.strip_chunk(&mut second, n2).unwrap();
        filter.finish().unwrap();
        first.extend_from_slice(&second);
        assert_eq!(first, whole);
    }
    // Byte-at-a-time chunks give the same result as well.
    let mut filter = StripComments::new(());
    let mut trickled: Vec<u8> = Vec::new();
    for &byte in input {
        let mut one: Vec<u8> = vec![byte];
        filter.strip_chunk(&mut one, 1).unwrap();
        trickled.push(one[0]);
    }
    filter.finish().unwrap();
    assert_eq!(trickled, whole);
}

#[test]
fn length_preserved() {
    let inputs: [&[u8]; 4] = [b"", b"{}", b"{/* c */}", b"// x\n# y\n"];
    for input in inputs {
        let out = strip_bytes(input).unwrap();
        assert_eq!(out.len(), input.len());
    }
}

#[test]
fn line_comment_open_at_end_of_input() {
    // A line comment is closed by the input ending as well as by a newline.
    let out = strip_bytes(b"// hi").unwrap();
    assert_eq!(out, b"     ".to_vec());
    let out2 = strip_bytes(b"{} # x").unwrap();
    assert_eq!(out2, b"{}    ".to_vec());
}

#[test]
fn newline_inside_block_comment_is_blanked() {
    let out = strip_bytes(b"{/*\n*/}").unwrap();
    assert_eq!(out, b"{     }".to_vec());
}

#[test]
fn star_after_comment_end_candidate() {
    // A `*` right after a closing candidate falls back to the comment
    // body, so `**/` does not close the comment that `/*` opened.
    let err = strip_bytes(b"/*a**/").unwrap_err();
    assert_eq!(err, StripError::IncompleteComment);
    let out = strip_bytes(b"/**/").unwrap();
    assert_eq!(out, b"    ".to_vec());
}

#[test]
fn empty_input() {
    let out = strip_bytes(b"").unwrap();
    assert_eq!(out, Vec::new());
}

#[test]
fn finish_is_repeatable() {
    let mut filter = StripComments::new(());
    let mut buf: Vec<u8> = b"{}".to_vec();
    filter.strip_chunk(&mut buf, 2).unwrap();
    assert!(filter.finish().is_ok());
    assert!(filter.finish().is_ok());
}

#[test]
fn incomplete_string_in_escape() {
    // Input ending right after the backslash is still an open string.
    let err = strip_bytes(br#""foo\"#).unwrap_err();
    assert_eq!(err, StripError::IncompleteString);
}

#[test]
fn transducer_top_byte() {
    let mut c: u8 = b'/';
    assert_eq!(json_comments::transducer::top(&mut c), State::InComment);
    assert_eq!(c, b' ');
    let mut c2: u8 = b'#';
    assert_eq!(json_comments::transducer::top(&mut c2), State::InLineComment);
    assert_eq!(c2, b' ');
    let mut c3: u8 = b'"';
    assert_eq!(json_comments::transducer::top(&mut c3), State::InString);
    assert_eq!(c3, b'"');
    let mut c4: u8 = b'x';
    assert_eq!(json_comments::transducer::top(&mut c4), State::Top);
    assert_eq!(c4, b'x');
}

#[test]
fn transducer_string_bytes() {
    assert_eq!(json_comments::transducer::in_string(b'"'), State::Top);
    assert_eq!(
        json_comments::transducer::in_string(b'\\'),
        State::StringEscape
    );
    assert_eq!(json_comments::transducer::in_string(b'/'), State::InString);
}

#[test]
fn transducer_comment_bytes() {
    let mut c: u8 = b'*';
    assert_eq!(
        json_comments::transducer::in_comment(&mut c),
        Ok(State::InBlockComment)
    );
    assert_eq!(c, b' ');
    let mut c2: u8 = b'/';
    assert_eq!(
        json_comments::transducer::in_comment(&mut c2),
        Ok(State::InLineComment)
    );
    assert_eq!(c2, b' ');
    let mut c3: u8 = b'x';
    assert_eq!(
        json_comments::transducer::in_comment(&mut c3),
        Err(StripError::UnexpectedForwardSlash)
    );
    assert_eq!(c3, b'x');
}

#[test]
fn transducer_block_comment_bytes() {
    let mut c: u8 = b'*';
    assert_eq!(
        json_comments::transducer::in_block_comment(&mut c),
        State::MaybeCommentEnd
    );
    assert_eq!(c, b' ');
    let mut c2: u8 = b'/';
    assert_eq!(
        json_comments::transducer::maybe_comment_end(&mut c2),
        State::Top
    );
    assert_eq!(c2, b' ');
    let mut c3: u8 = b'x';
    assert_eq!(
        json_comments::transducer::maybe_comment_end(&mut c3),
        State::InBlockComment
    );
    assert_eq!(c3, b' ');
}

#[test]
fn transducer_line_comment_bytes() {
    let mut c: u8 = b'\n';
    assert_eq!(
        json_comments::transducer::in_line_comment(&mut c),
        State::Top
    );
    assert_eq!(c, b'\n');
    let mut c2: u8 = b'x';
    assert_eq!(
        json_comments::transducer::in_line_comment(&mut c2),
        State::InLineComment
    );
    assert_eq!(c2, b' ');
}
