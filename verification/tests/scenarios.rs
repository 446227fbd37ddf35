//! End-to-end scenarios and the behavioural guarantees: exhaustion is
//! final, peeking loses nothing, and malformed bytes never stall the
//! tokenizer.

use lexopt::Arg;
use lexopt::Error;
use lexopt::Parser;
use lexopt::RawString;
use lexopt::ValueExt;

fn rs(text: &str) -> RawString {
    RawString::from_vec(text.as_bytes().to_vec())
}

fn args(words: &[&str]) -> Vec<RawString> {
    words.iter().map(|w| rs(w)).collect()
}

#[test]
fn scenario_short_with_value() -> Result<(), Error> {
    let mut p = Parser::from_args(args(&["-n", "10", "foo"]));
    assert_eq!(p.next()?.unwrap(), Arg::Short('n'));
    assert_eq!(p.value()?.string()?.parse::<i32>().unwrap(), 10);
    assert_eq!(p.next()?.unwrap(), Arg::Value(rs("foo")));
    assert_eq!(p.next()?, None);
    Ok(())
}

#[test]
fn scenario_cluster() -> Result<(), Error> {
    let mut p = Parser::from_args(args(&["-abc"]));
    assert_eq!(p.next()?.unwrap(), Arg::Short('a'));
    assert_eq!(p.next()?.unwrap(), Arg::Short('b'));
    assert_eq!(p.next()?.unwrap(), Arg::Short('c'));
    assert_eq!(p.next()?, None);
    Ok(())
}

#[test]
fn scenario_long_with_joined_value() -> Result<(), Error> {
    let mut p = Parser::from_args(args(&["--name=Alice"]));
    assert_eq!(p.next()?.unwrap(), Arg::Long("name".to_string()));
    assert_eq!(p.value()?.string()?, "Alice");
    Ok(())
}

#[test]
fn scenario_unclaimed_joined_value() -> Result<(), Error> {
    let mut p = Parser::from_args(args(&["--name=Alice"]));
    assert_eq!(p.next()?.unwrap(), Arg::Long("name".to_string()));
    let err = p.next().unwrap_err();
    assert_eq!(
        err.message(),
        r#"unexpected argument for option '--name': "Alice""#
    );
    assert_eq!(p.next()?, None);
    Ok(())
}

#[test]
fn scenario_options_finished() -> Result<(), Error> {
    let mut p = Parser::from_args(args(&["-x", "--", "-y"]));
    assert_eq!(p.next()?.unwrap(), Arg::Short('x'));
    assert_eq!(p.next()?.unwrap(), Arg::Value(rs("-y")));
    assert_eq!(p.next()?, None);
    Ok(())
}

#[test]
fn scenario_value_run() -> Result<(), Error> {
    let mut p = Parser::from_args(args(&["-a", "b", "c", "-d"]));
    assert_eq!(p.next()?.unwrap(), Arg::Short('a'));
    let mut iter = p.values()?;
    let mut got: Vec<RawString> = Vec::new();
    while let Some(v) = iter.next(&mut p) {
        got.push(v);
    }
    assert_eq!(got, vec![rs("b"), rs("c")]);
    assert_eq!(p.next()?.unwrap(), Arg::Short('d'));
    assert_eq!(p.next()?, None);
    Ok(())
}

/// Once `next` reports the end, it reports the end forever.
#[test]
fn exhaustion_is_idempotent() -> Result<(), Error> {
    let mut p = Parser::from_args(args(&["-ab", "--x=1", "--", "v"]));
    let mut steps = 0;
    loop {
        match p.next() {
            Ok(Some(_)) | Err(_) => {
                steps += 1;
                assert!(steps < 100, "tokenizer failed to terminate");
            }
            Ok(None) => break,
        }
    }
    for _ in 0..10 {
        assert!(matches!(p.next(), Ok(None)));
    }
    Ok(())
}

/// Any mix of operations on adversarial input terminates and never
/// panics; afterwards `next` keeps returning `None`.
#[test]
fn liveness_under_mixed_calls() {
    let vocabulary: &[&str] = &[
        "", "-", "--", "---", "a", "-a", "-aa", "@", "-@", "-a@", "-@a", "--a", "--@", "--a=a",
        "--a=", "--a=@", "--@=a", "--=", "--=@", "--=a", "-@@", "-a=a", "-a=", "-=", "-a-",
    ];
    let bad = |text: &str| {
        let mut bytes = text.as_bytes().to_vec();
        for b in bytes.iter_mut() {
            if *b == b'@' {
                *b = 0xFF;
            }
        }
        RawString::from_vec(bytes)
    };
    let mut decisions: u64 = 0x9E3779B97F4A7C15;
    for w1 in vocabulary {
        for w2 in vocabulary {
            let mut p = Parser::from_args(vec![bad(w1), bad(w2), bad("-x@=y")]);
            let mut steps = 0;
            loop {
                steps += 1;
                assert!(steps < 200, "tokenizer failed to terminate");
                match decisions % 4 {
                    0 => match p.next() {
                        Ok(None) => break,
                        _ => (),
                    },
                    1 => match p.value() {
                        Ok(_) => (),
                        Err(_) => break,
                    },
                    2 => {
                        let _ = p.optional_value();
                    }
                    _ => {
                        if let Ok(mut it) = p.values() {
                            while it.next(&mut p).is_some() {}
                        } else if p.try_raw_args().is_none() {
                            let _ = p.raw_args();
                        }
                    }
                }
                decisions = decisions.rotate_left(7) ^ 0x2545F4914F6CDD1D;
            }
            for _ in 0..3 {
                assert!(matches!(p.next(), Ok(None)));
            }
        }
    }
}

/// Peeking at the raw remainder consumes nothing: a later `next` still
/// sees every element.
#[test]
fn peek_does_not_consume() -> Result<(), Error> {
    let mut p = Parser::from_args(args(&["alpha", "-b", "gamma"]));
    {
        let ra = p.raw_args()?;
        assert_eq!(ra.peek(), Some(&rs("alpha")));
        assert_eq!(ra.peek(), Some(&rs("alpha")));
        assert_eq!(ra.as_slice().len(), 3);
        assert_eq!(ra.next_if(|_| false), None);
    }
    assert_eq!(p.next()?.unwrap(), Arg::Value(rs("alpha")));
    assert_eq!(p.next()?.unwrap(), Arg::Short('b'));
    assert_eq!(p.value()?, rs("gamma"));
    assert_eq!(p.next()?, None);
    Ok(())
}

/// A flag-position argument with undecodable bytes still advances: each
/// malformed unit becomes one replacement-character short option, the
/// cursor moves past exactly that unit, and the bytes after it still
/// tokenize.
#[test]
fn progress_on_malformed_flags() -> Result<(), Error> {
    let mut p = Parser::from_args(vec![RawString::from_vec(vec![b'-', b'a', 0xFF, 0xFE, b'b'])]);
    assert_eq!(p.next()?.unwrap(), Arg::Short('a'));
    assert_eq!(p.next()?.unwrap(), Arg::Short('\u{fffd}'));
    assert_eq!(p.next()?.unwrap(), Arg::Short('\u{fffd}'));
    assert_eq!(p.next()?.unwrap(), Arg::Short('b'));
    assert_eq!(p.next()?, None);

    // a truncated encoding at the end of the element is one unit that
    // reaches the end
    let mut q = Parser::from_args(vec![RawString::from_vec(vec![b'-', 0xC2])]);
    assert_eq!(q.next()?.unwrap(), Arg::Short('\u{fffd}'));
    assert_eq!(q.next()?, None);

    // a malformed unit delimited by a following good byte resumes there
    let mut r = Parser::from_args(vec![RawString::from_vec(vec![b'-', 0xC2, b'a'])]);
    assert_eq!(r.next()?.unwrap(), Arg::Short('\u{fffd}'));
    assert_eq!(r.next()?.unwrap(), Arg::Short('a'));
    assert_eq!(r.next()?, None);
    Ok(())
}

/// `optional_value` takes only what is attached to the last option.
#[test]
fn optional_value_is_attached_only() -> Result<(), Error> {
    let mut p = Parser::from_args(args(&["-i", "suffix"]));
    assert_eq!(p.next()?.unwrap(), Arg::Short('i'));
    assert!(p.optional_value().is_none());
    assert_eq!(p.next()?.unwrap(), Arg::Value(rs("suffix")));

    let mut q = Parser::from_args(args(&["-isuffix"]));
    assert_eq!(q.next()?.unwrap(), Arg::Short('i'));
    assert_eq!(q.optional_value(), Some(rs("suffix")));
    assert_eq!(q.next()?, None);

    let mut r = Parser::from_args(args(&["--in=file"]));
    assert_eq!(r.next()?.unwrap(), Arg::Long("in".to_string()));
    assert_eq!(r.optional_value(), Some(rs("file")));
    assert_eq!(r.next()?, None);
    Ok(())
}

/// After a failed `raw_args` the partial state was consumed, so a retry
/// succeeds; `try_raw_args` never consumes anything.
#[test]
fn raw_args_recovery() -> Result<(), Error> {
    let mut p = Parser::from_args(args(&["-ab", "c"]));
    assert_eq!(p.next()?.unwrap(), Arg::Short('a'));
    assert!(p.try_raw_args().is_none());
    assert!(p.raw_args().is_err());
    assert!(p.raw_args().is_ok());
    assert!(p.try_raw_args().is_some());
    assert_eq!(p.next()?.unwrap(), Arg::Value(rs("c")));
    Ok(())
}
