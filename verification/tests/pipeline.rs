//! End-to-end runs of the two-stage pipeline: raw tokens through the parser
//! and the compiler.

use ffvid::builder::build_args;
use ffvid::parser::{ArgsParser, ParsedArg, ParsingErr};

fn parse(tokens: Vec<&str>) -> Result<Vec<ParsedArg>, ParsingErr> {
    let owned: Vec<String> = tokens.iter().map(|t| t.to_string()).collect();
    let mut parser = ArgsParser::new(&owned);
    parser.parse_args()
}

#[test]
fn resize_end_to_end() {
    let ops = parse(vec!["prog", "--resize", "1920:1080", "out.mp4"]).unwrap();
    assert_eq!(
        ops,
        vec![
            ParsedArg::Resize((1920, 1080)),
            ParsedArg::OutFilePath("out.mp4".to_string())
        ]
    );
    let cmd = build_args(ops).unwrap();
    assert!(cmd.args.contains(&"-vf scale=1920:1080".to_string()));
}

#[test]
fn quality_end_to_end() {
    let ops = parse(vec!["prog", "--quality", "50", "out.mp4"]).unwrap();
    let cmd = build_args(ops).unwrap();
    assert_eq!(cmd.args, vec!["-crf 25 -maxrate 3M -bufsize 6M".to_string()]);
}

#[test]
fn merge_with_single_path_fails_end_to_end() {
    let result = parse(vec!["prog", "--merge", "a.mp4", "out.mp4"]);
    assert!(matches!(result, Err(ParsingErr::Merge(_))));
}

#[test]
fn unknown_argument_end_to_end() {
    let result = parse(vec!["prog", "unexpected", "out.mp4"]);
    match result {
        Err(ParsingErr::Unknown(message)) => assert!(message.contains("unexpected")),
        other => panic!("expected an Unknown error, got {other:?}"),
    }
}
