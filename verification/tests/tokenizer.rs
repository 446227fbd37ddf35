//! Tokenizer behaviour on whole command lines.

use lexopt::Arg;
use lexopt::Error;
use lexopt::Parser;
use lexopt::RawString;
use lexopt::ValueExt;

fn rs(text: &str) -> RawString {
    RawString::from_vec(text.as_bytes().to_vec())
}

/// Transform @ characters into invalid unicode.
fn bad_string(text: &str) -> RawString {
    let mut bytes = text.as_bytes().to_vec();
    for b in bytes.iter_mut() {
        if *b == b'@' {
            *b = 0xFF;
        }
    }
    RawString::from_vec(bytes)
}

fn parse(args: &'static str) -> Parser {
    Parser::from_args(args.split_whitespace().map(bad_string).collect())
}

fn short(c: char) -> Arg {
    Arg::Short(c)
}

fn long(name: &str) -> Arg {
    Arg::Long(name.to_string())
}

fn value(text: &str) -> Arg {
    Arg::Value(rs(text))
}

#[test]
fn test_basic() -> Result<(), Error> {
    let mut p = parse("-n 10 foo - -- baz -qux");
    assert_eq!(p.next()?.unwrap(), short('n'));
    assert_eq!(p.value()?.string()?.parse::<i32>().unwrap(), 10);
    assert_eq!(p.next()?.unwrap(), value("foo"));
    assert_eq!(p.next()?.unwrap(), value("-"));
    assert_eq!(p.next()?.unwrap(), value("baz"));
    assert_eq!(p.next()?.unwrap(), value("-qux"));
    assert_eq!(p.next()?, None);
    assert_eq!(p.next()?, None);
    assert_eq!(p.next()?, None);
    Ok(())
}

#[test]
fn test_combined() -> Result<(), Error> {
    let mut p = parse("-abc -fvalue -xfvalue");
    assert_eq!(p.next()?.unwrap(), short('a'));
    assert_eq!(p.next()?.unwrap(), short('b'));
    assert_eq!(p.next()?.unwrap(), short('c'));
    assert_eq!(p.next()?.unwrap(), short('f'));
    assert_eq!(p.value()?, rs("value"));
    assert_eq!(p.next()?.unwrap(), short('x'));
    assert_eq!(p.next()?.unwrap(), short('f'));
    assert_eq!(p.value()?, rs("value"));
    assert_eq!(p.next()?, None);
    Ok(())
}

#[test]
fn test_long() -> Result<(), Error> {
    let mut p = parse("--foo --bar=qux --foobar=qux=baz");
    assert_eq!(p.next()?.unwrap(), long("foo"));
    assert_eq!(p.next()?.unwrap(), long("bar"));
    assert_eq!(p.value()?, rs("qux"));
    assert_eq!(p.next()?.unwrap(), long("foobar"));
    assert_eq!(
        p.next().unwrap_err().message(),
        r#"unexpected argument for option '--foobar': "qux=baz""#
    );
    assert_eq!(p.next()?, None);
    Ok(())
}

#[test]
fn test_dash_args() -> Result<(), Error> {
    // "--" should indicate the end of the options
    let mut p = parse("-x -- -y");
    assert_eq!(p.next()?.unwrap(), short('x'));
    assert_eq!(p.next()?.unwrap(), value("-y"));
    assert_eq!(p.next()?, None);

    // ...unless it's an argument of an option
    let mut p = parse("-x -- -y");
    assert_eq!(p.next()?.unwrap(), short('x'));
    assert_eq!(p.value()?, rs("--"));
    assert_eq!(p.next()?.unwrap(), short('y'));
    assert_eq!(p.next()?, None);

    // "-" is a valid value that should not be treated as an option
    let mut p = parse("-x - -y");
    assert_eq!(p.next()?.unwrap(), short('x'));
    assert_eq!(p.next()?.unwrap(), value("-"));
    assert_eq!(p.next()?.unwrap(), short('y'));
    assert_eq!(p.next()?, None);

    // '-' is a silly and hard to use short option, but other parsers treat
    // it like an option in this position
    let mut p = parse("-x-y");
    assert_eq!(p.next()?.unwrap(), short('x'));
    assert_eq!(p.next()?.unwrap(), short('-'));
    assert_eq!(p.next()?.unwrap(), short('y'));
    assert_eq!(p.next()?, None);

    Ok(())
}

#[test]
fn test_missing_value() -> Result<(), Error> {
    let mut p = parse("-o");
    assert_eq!(p.next()?.unwrap(), short('o'));
    assert_eq!(
        p.value().unwrap_err().message(),
        "missing argument for option '-o'"
    );

    let mut q = parse("--out");
    assert_eq!(q.next()?.unwrap(), long("out"));
    assert_eq!(
        q.value().unwrap_err().message(),
        "missing argument for option '--out'"
    );

    let mut r = parse("");
    assert_eq!(r.value().unwrap_err().message(), "missing argument");

    Ok(())
}

#[test]
fn test_weird_args() -> Result<(), Error> {
    let mut p = Parser::from_args(
        ["", "--=", "--=3", "-", "-x", "--", "-", "-x", "--", "", "-", "-x"]
            .iter()
            .map(|s| rs(s))
            .collect(),
    );
    assert_eq!(p.next()?.unwrap(), value(""));

    // These are weird and questionable, but this seems to be the standard
    // interpretation
    assert_eq!(p.next()?.unwrap(), long(""));
    assert_eq!(p.value()?, rs(""));
    assert_eq!(p.next()?.unwrap(), long(""));
    assert_eq!(p.value()?, rs("3"));

    assert_eq!(p.next()?.unwrap(), value("-"));
    assert_eq!(p.next()?.unwrap(), short('x'));
    assert_eq!(p.value()?, rs("--"));
    assert_eq!(p.next()?.unwrap(), value("-"));
    assert_eq!(p.next()?.unwrap(), short('x'));
    assert_eq!(p.next()?.unwrap(), value(""));
    assert_eq!(p.next()?.unwrap(), value("-"));
    assert_eq!(p.next()?.unwrap(), value("-x"));
    assert_eq!(p.next()?, None);

    let mut q = parse("--=@");
    assert_eq!(q.next()?.unwrap(), long(""));
    assert_eq!(q.value()?, bad_string("@"));
    assert_eq!(q.next()?, None);

    let mut r = parse("");
    assert_eq!(r.next()?, None);

    Ok(())
}

#[test]
fn test_unicode() -> Result<(), Error> {
    let mut p = parse("-a\u{b5} --\u{b5}=10 \u{b5} --foo=\u{b5}");
    assert_eq!(p.next()?.unwrap(), short('a'));
    assert_eq!(p.next()?.unwrap(), short('\u{b5}'));
    assert_eq!(p.next()?.unwrap(), long("\u{b5}"));
    assert_eq!(p.value()?, rs("10"));
    assert_eq!(p.next()?.unwrap(), value("\u{b5}"));
    assert_eq!(p.next()?.unwrap(), long("foo"));
    assert_eq!(p.value()?, rs("\u{b5}"));
    Ok(())
}

#[test]
fn test_mixed_invalid() -> Result<(), Error> {
    let mut p = parse("--foo=@@@");
    assert_eq!(p.next()?.unwrap(), long("foo"));
    assert_eq!(p.value()?, bad_string("@@@"));

    let mut q = parse("-\u{1f4a3}@@@");
    assert_eq!(q.next()?.unwrap(), short('\u{1f4a3}'));
    assert_eq!(q.value()?, bad_string("@@@"));

    // each undecodable byte is its own malformed unit, so each yields
    // one replacement-character option and scanning resumes after it
    let mut r = parse("-f@@@");
    assert_eq!(r.next()?.unwrap(), short('f'));
    assert_eq!(r.next()?.unwrap(), short('\u{fffd}'));
    assert_eq!(r.next()?.unwrap(), short('\u{fffd}'));
    assert_eq!(r.next()?.unwrap(), short('\u{fffd}'));
    assert_eq!(r.next()?, None);

    let mut s = parse("--foo=bar=@@@");
    assert_eq!(s.next()?.unwrap(), long("foo"));
    assert_eq!(s.value()?, bad_string("bar=@@@"));

    Ok(())
}

#[test]
fn test_separate_invalid() -> Result<(), Error> {
    let mut p = parse("--foo @@@");
    assert_eq!(p.next()?.unwrap(), long("foo"));
    assert_eq!(p.value()?, bad_string("@@@"));
    Ok(())
}

#[test]
fn test_invalid_long_option() -> Result<(), Error> {
    let mut p = parse("--@=10");
    assert_eq!(p.next()?.unwrap(), long("\u{fffd}"));
    assert_eq!(p.value().unwrap(), rs("10"));
    assert_eq!(p.next()?, None);

    let mut q = parse("--@");
    assert_eq!(q.next()?.unwrap(), long("\u{fffd}"));
    assert_eq!(q.next()?, None);

    Ok(())
}

#[test]
fn short_opt_equals_sign() -> Result<(), Error> {
    let mut p = parse("-a=b");
    assert_eq!(p.next()?.unwrap(), short('a'));
    assert_eq!(p.value()?, rs("b"));
    assert_eq!(p.next()?, None);

    let mut p = parse("-a=b");
    assert_eq!(p.next()?.unwrap(), short('a'));
    assert_eq!(
        p.next().unwrap_err().message(),
        r#"unexpected argument for option '-a': "b""#
    );
    assert_eq!(p.next()?, None);

    let mut p = parse("-a=");
    assert_eq!(p.next()?.unwrap(), short('a'));
    assert_eq!(p.value()?, rs(""));
    assert_eq!(p.next()?, None);

    let mut p = parse("-a=");
    assert_eq!(p.next()?.unwrap(), short('a'));
    assert_eq!(
        p.next().unwrap_err().message(),
        r#"unexpected argument for option '-a': """#
    );
    assert_eq!(p.next()?, None);

    let mut p = parse("-=");
    assert_eq!(p.next()?.unwrap(), short('='));
    assert_eq!(p.next()?, None);

    let mut p = parse("-=a");
    assert_eq!(p.next()?.unwrap(), short('='));
    assert_eq!(p.value()?, rs("a"));

    Ok(())
}

#[test]
fn short_opt_equals_sign_invalid() -> Result<(), Error> {
    let mut p = parse("-a=@");
    assert_eq!(p.next()?.unwrap(), short('a'));
    assert_eq!(p.value()?, bad_string("@"));
    assert_eq!(p.next()?, None);

    let mut p = parse("-a=@");
    assert_eq!(p.next()?.unwrap(), short('a'));
    assert_eq!(
        p.next().unwrap_err().message(),
        r#"unexpected argument for option '-a': "\xFF""#
    );
    assert_eq!(p.next()?, None);

    let mut p = parse("-=@");
    assert_eq!(p.next()?.unwrap(), short('='));
    assert_eq!(p.value()?, bad_string("@"));

    Ok(())
}

#[test]
fn multi_values() -> Result<(), Error> {
    for &case in &["-a b c d", "-ab c d", "-a b c d --", "--a b c d"] {
        let mut p = parse(case);
        p.next()?.unwrap();
        let mut iter = p.values()?;
        let mut values: Vec<RawString> = Vec::new();
        while let Some(v) = iter.next(&mut p) {
            values.push(v);
        }
        assert_eq!(values, vec![rs("b"), rs("c"), rs("d")]);
        assert!(iter.next(&mut p).is_none());
        assert!(p.next()?.is_none());
    }

    for &case in &["-a=b c", "--a=b c"] {
        let mut p = parse(case);
        p.next()?.unwrap();
        let mut iter = p.values()?;
        let mut values: Vec<RawString> = Vec::new();
        while let Some(v) = iter.next(&mut p) {
            values.push(v);
        }
        assert_eq!(values, vec![rs("b")]);
        assert!(iter.next(&mut p).is_none());
        assert_eq!(p.next()?.unwrap(), value("c"));
        assert!(p.next()?.is_none());
    }

    for &case in &["-a", "--a", "-a -b", "-a -- b", "-a --"] {
        let mut p = parse(case);
        p.next()?.unwrap();
        assert!(p.values().is_err());
        assert!(p.next().is_ok());
        assert!(p.next().unwrap().is_none());
    }

    for &case in &["-a=", "--a="] {
        let mut p = parse(case);
        p.next()?.unwrap();
        let mut iter = p.values()?;
        let mut values: Vec<RawString> = Vec::new();
        while let Some(v) = iter.next(&mut p) {
            values.push(v);
        }
        assert_eq!(values, vec![rs("")]);
        assert!(iter.next(&mut p).is_none());
        assert!(p.next()?.is_none());
    }

    // Test that .values() does not eagerly consume the first value
    for &case in &["-a=b", "--a=b", "-a b"] {
        let mut p = parse(case);
        p.next()?.unwrap();
        assert!(p.values().is_ok());
        assert_eq!(p.value()?, rs("b"));
    }

    {
        let mut p = parse("-ab");
        p.next()?.unwrap();
        assert!(p.values().is_ok());
        assert_eq!(p.next()?.unwrap(), short('b'));
    }

    Ok(())
}

#[test]
fn raw_args() -> Result<(), Error> {
    let mut p = parse("-a b c d");
    assert!(p.try_raw_args().is_some());
    {
        let ra = p.raw_args()?;
        let mut got: Vec<RawString> = Vec::new();
        while let Some(v) = ra.next() {
            got.push(v);
        }
        assert_eq!(got, vec![rs("-a"), rs("b"), rs("c"), rs("d")]);
    }
    assert!(p.try_raw_args().is_some());
    assert!(p.next()?.is_none());
    assert!(p.try_raw_args().is_some());
    assert_eq!(p.raw_args()?.as_slice().len(), 0);

    let mut p = parse("-ab c d");
    p.next()?;
    assert!(p.try_raw_args().is_none());
    assert!(p.raw_args().is_err());
    {
        let ra = p.try_raw_args().unwrap();
        let mut got: Vec<RawString> = Vec::new();
        while let Some(v) = ra.next() {
            got.push(v);
        }
        assert_eq!(got, vec![rs("c"), rs("d")]);
    }
    assert!(p.next()?.is_none());
    assert_eq!(p.try_raw_args().unwrap().as_slice().len(), 0);

    let mut p = parse("-a b c d");
    {
        let ra = p.raw_args()?;
        let mut got: Vec<RawString> = Vec::new();
        for _ in 0..3 {
            got.push(ra.next().unwrap());
        }
        assert_eq!(got, vec![rs("-a"), rs("b"), rs("c")]);
    }
    assert_eq!(p.next()?, Some(value("d")));
    assert!(p.next()?.is_none());

    let mut p = parse("a");
    let it = p.raw_args()?;
    assert_eq!(it.peek(), Some(&rs("a")));
    assert_eq!(it.next_if(|_| false), None);
    assert_eq!(
        it.next_if(|arg| {
            assert_eq!(*arg, rs("a"));
            true
        }),
        Some(rs("a"))
    );
    assert!(p.next()?.is_none());

    Ok(())
}

#[test]
fn bin_name() {
    assert_eq!(
        Parser::from_iter(vec![rs("foo"), rs("bar"), rs("baz")]).bin_name(),
        Some("foo")
    );
    assert_eq!(
        Parser::from_args(vec![rs("foo"), rs("bar"), rs("baz")]).bin_name(),
        None
    );
    assert_eq!(Parser::from_iter(Vec::new()).bin_name(), None);
    assert_eq!(Parser::from_iter(vec![rs("")]).bin_name(), Some(""));
    assert_eq!(
        Parser::from_iter(vec![bad_string("foo@bar")]).bin_name(),
        Some("foo\u{fffd}bar")
    );
}
