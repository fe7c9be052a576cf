use ffvid::parser::{ArgsParser, ExecutionType, ParsedArg, ParsingErr};

fn build_parsed_args(args_vec: Vec<&str>) -> Result<Vec<ParsedArg>, ParsingErr> {
    let args_vec_string: Vec<String> = args_vec.iter().map(|arg| arg.to_string()).collect();

    let mut parser = ArgsParser::new(&args_vec_string);
    parser.parse_args()
}

#[test]
fn filters() {
    let parsed_args = build_parsed_args(vec!["ffvid", "--resize", "1920:1080"])
        .expect("Returned `Err` when it shouldn't");

    assert_eq!(parsed_args.len(), 1);
    assert_eq!(parsed_args[0], ParsedArg::Resize((1920, 1080)));
}

#[test]
fn resize_keeps_sign_and_magnitude() {
    let parsed_args =
        build_parsed_args(vec!["ffvid", "--resize", "-100:-200", "out.mp4"]).unwrap();
    assert_eq!(
        parsed_args,
        vec![
            ParsedArg::Resize((-100, -200)),
            ParsedArg::OutFilePath("out.mp4".to_string())
        ]
    );

    let parsed_args = build_parsed_args(vec!["ffvid", "--resize", "+7:2147483647"]).unwrap();
    assert_eq!(parsed_args, vec![ParsedArg::Resize((7, 2147483647))]);
}

#[test]
fn resize_rejects_malformed_tokens() {
    assert!(matches!(
        build_parsed_args(vec!["ffvid", "--resize", "1920x1080"]),
        Err(ParsingErr::Resize(_))
    ));
    assert!(matches!(
        build_parsed_args(vec!["ffvid", "--resize", "1:2:3"]),
        Err(ParsingErr::Resize(_))
    ));
    assert!(matches!(
        build_parsed_args(vec!["ffvid", "--resize", "a:b"]),
        Err(ParsingErr::Resize(_))
    ));
    assert!(matches!(
        build_parsed_args(vec!["ffvid", "--resize"]),
        Err(ParsingErr::Resize(_))
    ));
}

#[test]
fn quality_parses_unsigned_integers() {
    let parsed_args = build_parsed_args(vec!["ffvid", "--quality", "50"]).unwrap();
    assert_eq!(parsed_args, vec![ParsedArg::Quality(50)]);

    let parsed_args = build_parsed_args(vec!["ffvid", "--quality", "+50"]).unwrap();
    assert_eq!(parsed_args, vec![ParsedArg::Quality(50)]);

    let parsed_args = build_parsed_args(vec!["ffvid", "--quality", "4294967295"]).unwrap();
    assert_eq!(parsed_args, vec![ParsedArg::Quality(4294967295)]);
}

#[test]
fn quality_rejects_bad_values() {
    assert!(matches!(
        build_parsed_args(vec!["ffvid", "--quality", "fifty"]),
        Err(ParsingErr::Quality(_))
    ));
    assert!(matches!(
        build_parsed_args(vec!["ffvid", "--quality", "-1"]),
        Err(ParsingErr::Quality(_))
    ));
    assert!(matches!(
        build_parsed_args(vec!["ffvid", "--quality", "4294967296"]),
        Err(ParsingErr::Quality(_))
    ));
    assert!(matches!(
        build_parsed_args(vec!["ffvid", "--quality"]),
        Err(ParsingErr::Quality(_))
    ));
}

#[test]
fn preview_takes_no_token() {
    let parsed_args = build_parsed_args(vec!["ffvid", "--preview", "out.mp4"]).unwrap();
    assert_eq!(
        parsed_args,
        vec![
            ParsedArg::ExecutionType(ExecutionType::Preview),
            ParsedArg::OutFilePath("out.mp4".to_string())
        ]
    );
}

#[test]
fn merge_collects_paths_up_to_the_output_path() {
    let parsed_args =
        build_parsed_args(vec!["ffvid", "--merge", "a.mp4", "b.mp4", "c.mp4", "out.mp4"]).unwrap();
    assert_eq!(
        parsed_args,
        vec![
            ParsedArg::Merge(vec![
                "a.mp4".to_string(),
                "b.mp4".to_string(),
                "c.mp4".to_string()
            ]),
            ParsedArg::OutFilePath("out.mp4".to_string())
        ]
    );
}

#[test]
fn merge_with_one_path_fails() {
    assert!(matches!(
        build_parsed_args(vec!["ffvid", "--merge", "a.mp4", "out.mp4"]),
        Err(ParsingErr::Merge(_))
    ));
}

#[test]
fn merge_with_no_path_fails() {
    assert!(matches!(
        build_parsed_args(vec!["ffvid", "--merge"]),
        Err(ParsingErr::Merge(_))
    ));
}

#[test]
fn bare_token_accepted_only_when_last() {
    let parsed_args = build_parsed_args(vec!["ffvid", "out.mp4"]).unwrap();
    assert_eq!(
        parsed_args,
        vec![ParsedArg::OutFilePath("out.mp4".to_string())]
    );

    assert!(matches!(
        build_parsed_args(vec!["ffvid", "unexpected", "out.mp4"]),
        Err(ParsingErr::Unknown(_))
    ));
}

#[test]
fn empty_token_stream_should_not_happen() {
    assert!(matches!(
        build_parsed_args(vec![]),
        Err(ParsingErr::ShouldNotHappen)
    ));
}
