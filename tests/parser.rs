use kanna::parser::{parse, ParserError};
use kanna::{Command, Target};

fn label_target(script: &kanna::Script, name: &str) -> Option<usize> {
    script.labels.iter().find(|(l, _)| l == name).map(|(_, Target(t))| *t)
}

#[test]
fn parser_error_recovery() {
    let errors = parse("stage \"bg.jpg\"\nfnord\n\"Hi.\"\n").unwrap_err();
    assert!(errors.contains(&ParserError::InvalidCommand));
    let script = parse("stage \"bg.jpg\"\n\"Hi.\"\n").unwrap();
    assert_eq!(script.commands.len(), 2);
    assert!(matches!(&script.commands[0], Command::Stage(p) if p == "bg.jpg"));
    assert!(matches!(&script.commands[1], Command::Dialogue(None, t) if t == "Hi."));
}

#[test]
fn dialogue_forms() {
    let script = parse("\"Alice\" \"Hello.\"\n\"Goodbye.\"\n").unwrap();
    assert!(matches!(&script.commands[0], Command::Dialogue(Some(n), t) if n.0 == "Alice" && t == "Hello."));
    assert!(matches!(&script.commands[1], Command::Dialogue(None, t) if t == "Goodbye."));
}

#[test]
fn labels_point_past_themselves() {
    let script = parse("\"a\"\nlabel x\n\"b\"\nlabel y\nlabel x\n\"c\"\n").unwrap();
    assert_eq!(label_target(&script, "x"), Some(2));
    assert_eq!(label_target(&script, "y"), Some(2));
    assert_eq!(script.labels.len(), 2);
}

#[test]
fn diverge_block() {
    let script = parse("diverge\n\t\"Left\" l-left\n\t\"Right\" l-right\nlabel l-left\n\"x\"\n").unwrap();
    match &script.commands[0] {
        Command::Diverge(b) => {
            assert_eq!(b.len(), 2);
            assert_eq!(b[0].0, "Left");
            assert_eq!(b[0].1 .0, "l-left");
            assert_eq!(b[1].1 .0, "l-right");
        }
        _ => panic!("not a divergence"),
    }
    assert_eq!(label_target(&script, "l-left"), Some(1));
}

#[test]
fn directives_with_animations() {
    let script = parse("spawn \"C\" \"happy\" (10, -2.5) \"C2\" with fade[100]\nposition \"C2\" (1,2) with glide[_, 1]\nkill \"C2\"\nflag f\nif f end\nunflag f\npause\nmusic \"m.ogg\"\nsound \"s.ogg\"\nchange \"C2\" \"sad\" with flip[50]\n").unwrap();
    match &script.commands[0] {
        Command::Spawn(c, s, p, n, Some(a)) => {
            assert_eq!(c.0, "C");
            assert_eq!(s.0, "happy");
            assert_eq!(*p, (10_000, -2_500));
            assert_eq!(n.as_ref().unwrap().0, "C2");
            assert_eq!(a.name, "fade");
            assert_eq!(a.arguments, vec![Some(100_000)]);
        }
        _ => panic!("not a spawn"),
    }
    match &script.commands[1] {
        Command::Position(_, p, Some(a)) => {
            assert_eq!(*p, (1000, 2000));
            assert_eq!(a.arguments, vec![None, Some(1000)]);
        }
        _ => panic!("not a position"),
    }
    assert!(matches!(&script.commands[2], Command::Kill(_, None)));
    assert!(matches!(&script.commands[3], Command::Flag(f) if f.0 == "f"));
    assert!(matches!(&script.commands[4], Command::If(f, l) if f.0 == "f" && l.0 == "end"));
    assert!(matches!(&script.commands[5], Command::Unflag(_)));
    assert!(matches!(&script.commands[6], Command::Pause));
    assert!(matches!(&script.commands[7], Command::Music(p) if p == "m.ogg"));
    assert!(matches!(&script.commands[8], Command::Sound(p) if p == "s.ogg"));
    assert!(matches!(&script.commands[9], Command::Change(_, s, Some(a)) if s.0 == "sad" && a.name == "flip"));
}

#[test]
fn parse_errors_collected() {
    let errors = parse("show 5\n\"ok\"\n").unwrap_err();
    assert_eq!(errors, vec![ParserError::ExpectedString]);
    let errors = parse("\"a\" \"b\" \"c\"\n\"ok\"\n").unwrap_err();
    assert_eq!(errors, vec![ParserError::Expected(kanna::parser::Token::Terminator)]);
    let errors = parse("\tfoo\n").unwrap_err();
    assert_eq!(errors, vec![ParserError::UnexpectedToken]);
    let errors = parse("\"open\n").unwrap_err();
    assert_eq!(errors, vec![ParserError::UnmatchedQuote]);
}

#[test]
fn parse_terminates_on_garbage() {
    for s in ["(((", "\t\t\t)", "diverge\n", "diverge\n\t5\n", "spawn \"a\" \"b\" (1", "[]_,", "with"] {
        let _ = parse(s);
    }
}

#[test]
fn expected_tokens_reported() {
    assert_eq!(parse("jump 5\n").unwrap_err(), vec![ParserError::ExpectedIdentifier]);
    assert_eq!(parse("position \"C\" (a, 1)\n").unwrap_err(), vec![ParserError::ExpectedNumeric]);
    assert_eq!(parse("show \"C\" with fade[1 2]\n").unwrap_err(), vec![ParserError::Expected(kanna::parser::Token::ListSeparator)]);
    assert_eq!(parse("show \"C\" sideways\n").unwrap_err(), vec![ParserError::UnexpectedToken]);
    assert_eq!(parse("diverge\n\t\"a\" b\n\t7 c\n\"after\"\n").unwrap_err(), vec![ParserError::ExpectedString]);
}

#[test]
fn dialogue_needs_line_end() {
    assert_eq!(parse("\"Hi.\"").unwrap_err(), vec![ParserError::Expected(kanna::parser::Token::Terminator)]);
    assert_eq!(parse("\"A\" \"Hi.\"").unwrap_err(), vec![ParserError::Expected(kanna::parser::Token::Terminator)]);
    assert!(parse("pause").is_ok());
}
