use ffvid::builder::{build_args, quality_to_crf, Cmd};
use ffvid::cli::render_command;
use ffvid::parser::{ExecutionType, ParsedArg};

#[test]
fn quality_curve_exact_values() {
    let low = quality_to_crf(0);
    assert_eq!(low.crf, 51);
    assert_eq!(low.max_rate, 1);
    assert_eq!(low.buf_size, 2);

    let mid = quality_to_crf(50);
    assert_eq!(mid.crf, 25);
    assert_eq!(mid.max_rate, 3);
    assert_eq!(mid.buf_size, 6);

    let high = quality_to_crf(100);
    assert_eq!(high.crf, 0);
    assert_eq!(high.max_rate, 12);
    assert_eq!(high.buf_size, 24);
}

#[test]
fn crf_never_increases_with_quality() {
    let mut previous = quality_to_crf(0);
    assert!(previous.crf <= 51);
    let mut quality: u32 = 1;
    while quality <= 100 {
        let current = quality_to_crf(quality);
        assert!(current.crf <= previous.crf);
        assert!(current.crf <= 51);
        assert_eq!(current.buf_size, 2 * current.max_rate);
        previous = current;
        quality += 1;
    }
}

#[test]
fn compile_resize_filter() {
    let cmd = build_args(vec![
        ParsedArg::Resize((1920, 1080)),
        ParsedArg::OutFilePath("out.mp4".to_string()),
    ])
    .unwrap();
    assert_eq!(cmd.invocation, "ffmpeg");
    assert_eq!(cmd.args, vec!["-vf scale=1920:1080".to_string()]);
}

#[test]
fn compile_quality_fragment() {
    let cmd = build_args(vec![
        ParsedArg::Quality(50),
        ParsedArg::OutFilePath("out.mp4".to_string()),
    ])
    .unwrap();
    assert_eq!(cmd.args, vec!["-crf 25 -maxrate 3M -bufsize 6M".to_string()]);
}

#[test]
fn compile_merge_fragment_names_every_input() {
    let cmd = build_args(vec![
        ParsedArg::Merge(vec!["a.mp4".to_string(), "b.mp4".to_string()]),
        ParsedArg::OutFilePath("out.mp4".to_string()),
    ])
    .unwrap();
    assert_eq!(
        cmd.args,
        vec![
            "-vf [0][v0];[1][v1];[v0][0:a:0][v1][1:a:0]concat=n=2:v=1:a=1[outv][outa]".to_string(),
            "-map \"n[outv]\" -map \"[outa]\" -vsync 0".to_string(),
        ]
    );

    let cmd = build_args(vec![ParsedArg::Merge(vec![
        "a.mp4".to_string(),
        "b.mp4".to_string(),
        "c.mp4".to_string(),
    ])])
    .unwrap();
    assert_eq!(
        cmd.args[0],
        "-vf [0][v0];[1][v1];[2][v2];[v0][0:a:0][v1][1:a:0][v2][2:a:0]concat=n=3:v=1:a=1[outv][outa]"
            .to_string()
    );
}

#[test]
fn compile_emits_buffers_in_fixed_order() {
    let cmd = build_args(vec![
        ParsedArg::Quality(0),
        ParsedArg::Resize((10, 20)),
        ParsedArg::OutFilePath("out.mp4".to_string()),
    ])
    .unwrap();
    assert_eq!(
        cmd.args,
        vec![
            "-vf scale=10:20".to_string(),
            "-crf 51 -maxrate 1M -bufsize 2M".to_string(),
        ]
    );
}

#[test]
fn compile_later_quality_overwrites_earlier() {
    let cmd = build_args(vec![ParsedArg::Quality(0), ParsedArg::Quality(50)]).unwrap();
    assert_eq!(cmd.args, vec!["-crf 25 -maxrate 3M -bufsize 6M".to_string()]);
}

#[test]
fn compile_ignores_preview_and_output_path() {
    let cmd = build_args(vec![
        ParsedArg::ExecutionType(ExecutionType::Preview),
        ParsedArg::OutFilePath("out.mp4".to_string()),
    ])
    .unwrap();
    assert_eq!(cmd.invocation, "ffmpeg");
    assert!(cmd.args.is_empty());
}

#[test]
fn render_command_space_joins_arguments() {
    let cmd = Cmd {
        invocation: "ffmpeg".to_string(),
        args: vec!["-vf scale=1:2".to_string(), "-vsync 0".to_string()],
    };
    assert_eq!(render_command(&cmd), "ffmpeg -vf scale=1:2 -vsync 0");
}
