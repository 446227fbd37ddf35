//! Byte-level decoding, boundary slicing, values and error rendering.

use std::str::FromStr;

use lexopt::first_codepoint;
use lexopt::Arg;
use lexopt::Error;
use lexopt::RawString;
use lexopt::ValueExt;

fn rs(text: &str) -> RawString {
    RawString::from_vec(text.as_bytes().to_vec())
}

/// Transform @ characters into invalid unicode.
fn bad_string(text: &str) -> RawString {
    let mut bytes = text.as_bytes().to_vec();
    for b in bytes.iter_mut() {
        if *b == b'@' {
            *b = 0xFF;
        }
    }
    RawString::from_vec(bytes)
}

#[test]
fn test_first_codepoint() {
    assert_eq!(first_codepoint(b"foo").unwrap(), Some('f'));
    assert_eq!(first_codepoint(b"").unwrap(), None);
    assert_eq!(first_codepoint(b"f\xFF\xFF").unwrap(), Some('f'));
    assert_eq!(first_codepoint(b"\xC2\xB5bar").unwrap(), Some('\u{b5}'));
    assert_eq!(first_codepoint(b"foo\xC2\xB5").unwrap(), Some('f'));
    assert_eq!(
        first_codepoint(b"\xFF\xFF").unwrap_err().error_len(),
        Some(1)
    );
    assert_eq!(first_codepoint(b"\xC2").unwrap_err().error_len(), None);
    assert_eq!(first_codepoint(b"\xC2a").unwrap_err().error_len(), Some(1));
    assert_eq!(first_codepoint(b"\xF0").unwrap_err().error_len(), None);
    assert_eq!(
        first_codepoint(b"\xF0\x9D\x84").unwrap_err().error_len(),
        None
    );
    assert_eq!(
        first_codepoint(b"\xF0\x9Da").unwrap_err().error_len(),
        Some(2)
    );
    assert_eq!(
        first_codepoint(b"\xF0\x9D\x84a").unwrap_err().error_len(),
        Some(3)
    );
    assert_eq!(first_codepoint(b"\xF0\x9D\x84\x9E").unwrap(), Some('\u{1d11e}'));
}

#[test]
fn test_value_ext_invalid() -> Result<(), Error> {
    let s = bad_string("foo@");
    let message = r#"argument is invalid unicode: "foo\xFF""#;
    assert_eq!(
        s.parse_with(|t| i32::from_str(t).map_err(|e| e.to_string()))
            .unwrap_err()
            .message(),
        message
    );
    assert_eq!(
        s.parse_with(|t| f32::from_str(t).map_err(|e| e.to_string()))
            .unwrap_err()
            .message(),
        message
    );
    assert_eq!(s.clone().string().unwrap_err().message(), message);
    assert_eq!(Error::from(s).message(), message);
    Ok(())
}

#[test]
fn value_parsing() -> Result<(), Error> {
    let s = rs("-10");
    assert_eq!(
        s.parse_with(|t| i32::from_str(t).map_err(|e| e.to_string()))?,
        -10
    );
    assert_eq!(
        s.parse_with(|t| match t {
            "-10" => Ok(0),
            _ => Err("bad".to_string()),
        })?,
        0
    );
    assert_eq!(
        s.parse_with(|t| u32::from_str(t).map_err(|e| e.to_string()))
            .unwrap_err()
            .message(),
        r#"cannot parse argument "-10": invalid digit found in string"#
    );
    assert_eq!(
        s.parse_with(|t| match t {
            "11" => Ok(0_i32),
            _ => Err("bad".to_string()),
        })
        .unwrap_err()
        .message(),
        r#"cannot parse argument "-10": bad"#
    );
    assert_eq!(s.string()?, "-10");
    Ok(())
}

#[test]
fn error_messages() {
    assert_eq!(Arg::Short('o').unexpected().message(), "invalid option '-o'");
    assert_eq!(
        Arg::Long("opt".to_string()).unexpected().message(),
        "invalid option '--opt'"
    );
    assert_eq!(
        Arg::Value(rs("foo")).unexpected().message(),
        r#"unexpected argument "foo""#
    );
    assert_eq!(
        Error::from("this is an error message").message(),
        "this is an error message"
    );
    assert_eq!(
        Error::from("this is an error message".to_owned()).message(),
        "this is an error message"
    );
    assert_eq!(
        Error::MissingValue { option: None }.message(),
        "missing argument"
    );
    assert_eq!(
        Error::MissingValue {
            option: Some("--out".to_string())
        }
        .message(),
        "missing argument for option '--out'"
    );
    assert_eq!(
        Error::UnexpectedValue {
            option: "--name".to_string(),
            value: rs("Alice"),
        }
        .message(),
        r#"unexpected argument for option '--name': "Alice""#
    );
    assert_eq!(
        Error::ParsingFailed {
            value: "ten".to_string(),
            error: "not a number".to_string(),
        }
        .message(),
        r#"cannot parse argument "ten": not a number"#
    );
    assert_eq!(
        Error::NonUnicodeValue(bad_string("a@b")).message(),
        r#"argument is invalid unicode: "a\xFFb""#
    );
    assert_eq!(
        Error::UnexpectedArgument(rs("x\ty\"z\\w")).message(),
        "unexpected argument \"x\\ty\\\"z\\\\w\""
    );
}

#[test]
fn boundary_checks() {
    // every offset of a pure ASCII string is a boundary
    let s = rs("foo=bar");
    for i in 0..=s.len() {
        assert!(s.is_valid_boundary(i));
    }
    assert!(!s.is_valid_boundary(s.len() + 1));

    // a two-byte character may not be split
    let s = rs("a\u{b5}b");
    assert!(s.is_valid_boundary(0));
    assert!(s.is_valid_boundary(1));
    assert!(!s.is_valid_boundary(2));
    assert!(s.is_valid_boundary(3));
    assert!(s.is_valid_boundary(4));

    // the end of a one-byte malformed unit is a safe cut point
    let s = bad_string("@@");
    assert!(s.is_valid_boundary(0));
    assert!(s.is_valid_boundary(1));
    assert!(s.is_valid_boundary(2));

    // but the inside of a truncated four-byte encoding is not: no
    // malformed unit ends there when scanning from its start
    let t = RawString::from_vec(vec![0xF0, 0x90, 0x80]);
    assert!(t.is_valid_boundary(0));
    assert!(!t.is_valid_boundary(1));
    assert!(t.is_valid_boundary(3));
}

#[test]
fn boundary_slicing() {
    let s = rs("foo=bar");
    let key = s.slice(0, 3);
    let sep = s.slice(3, 4);
    let val = s.slice(4, 7);
    assert_eq!(key, rs("foo"));
    assert_eq!(sep, rs("="));
    assert_eq!(val, rs("bar"));

    // slicing at two valid boundaries and concatenating the pieces
    // reproduces the substring between the outer offsets
    let mut joined = key.into_vec();
    joined.extend(sep.into_vec());
    joined.extend(val.into_vec());
    assert_eq!(RawString::from_vec(joined), s.slice(0, 7));
    assert_eq!(s.slice(0, 7), s);
}

#[test]
fn raw_string_accessors() {
    let s = bad_string("a@");
    assert_eq!(s.as_bytes(), &[b'a', 0xFF]);
    assert_eq!(s.len(), 2);
    assert!(!s.is_empty());
    assert!(rs("").is_empty());
    assert_eq!(s.clone(), s);
    assert_eq!(s.clone().into_vec(), vec![b'a', 0xFF]);
    assert!(rs("ab") != rs("ac"));
}
