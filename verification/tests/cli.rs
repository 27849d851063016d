use plainly::cli::{
    build_request, parse_line_range, slice_lines, CacheAction, Cli, Command, CommonArgs, LevelArg,
};
use plainly::error::Error;
use plainly::model::Level;

fn common(level: LevelArg) -> CommonArgs {
    CommonArgs {
        level,
        model: "gpt-4o-mini".to_string(),
        base_url: "https://api.openai.com/v1".to_string(),
        api_key: None,
        json: false,
        fast: false,
        no_sources: false,
        no_cache: false,
        refresh: false,
        no_color: false,
        width: 88,
        quiet: false,
    }
}

#[test]
fn ranges_parse() {
    assert_eq!(parse_line_range("40-80").unwrap(), (40, Some(80)));
    assert_eq!(parse_line_range(" 40 ").unwrap(), (40, Some(40)));
    assert_eq!(parse_line_range("40-").unwrap(), (40, None));
    assert!(parse_line_range("80-40").is_err());
    assert!(parse_line_range("0-4").is_err());
    assert!(parse_line_range("abc").is_err());
}

#[test]
fn slicing_is_inclusive_and_one_based() {
    let text = "a\nb\nc\nd";
    assert_eq!(slice_lines(text, 2, Some(3)), "b\nc");
    assert_eq!(slice_lines(text, 3, None), "c\nd");
    assert_eq!(slice_lines(text, 9, None), "");
}

#[test]
fn range_errors_say_what_went_wrong() {
    assert_eq!(
        parse_line_range(" 80-40 ").unwrap_err(),
        "'80-40' ends before it starts"
    );
    assert_eq!(parse_line_range("0-4").unwrap_err(), "line numbers start at 1");
    assert_eq!(
        parse_line_range("abc").unwrap_err(),
        "'abc' is not a line range like 40-80"
    );
    assert_eq!(
        parse_line_range("4-x").unwrap_err(),
        "'4-x' is not a line range like 40-80"
    );
}

#[test]
fn range_parts_accept_what_usize_parsing_accepts() {
    assert_eq!(parse_line_range("+3 - +7").unwrap(), (3, Some(7)));
    assert_eq!(parse_line_range("5-5").unwrap(), (5, Some(5)));
    assert!(parse_line_range("-5").is_err());
    assert!(parse_line_range("").is_err());
    assert!(parse_line_range("99999999999999999999999").is_err());
    assert_eq!(
        parse_line_range("18446744073709551615").unwrap(),
        (18446744073709551615, Some(18446744073709551615))
    );
}

#[test]
fn slicing_follows_str_lines() {
    assert_eq!(slice_lines("a\r\nb\r\nc\n", 1, None), "a\nb\nc");
    assert_eq!(slice_lines("a\n\nb", 2, Some(2)), "");
    assert_eq!(slice_lines("a\n\nb", 1, Some(3)), "a\n\nb");
    assert_eq!(slice_lines("", 1, None), "");
    assert_eq!(slice_lines("x\ry", 1, None), "x\ry");
    assert_eq!(slice_lines("a\nb", 0, Some(1)), "a");
}

#[test]
fn query_words_are_joined_and_trimmed() {
    let cli = Cli {
        query: vec!["  CAP".to_string(), "theorem ".to_string()],
        command: None,
        common: common(LevelArg::Five),
    };
    let request = build_request(&cli, String::new()).unwrap();
    assert_eq!(request.query, "CAP theorem");
    assert!(request.context.is_none());
    assert_eq!(request.level, Level::Five);
}

#[test]
fn an_empty_query_is_refused() {
    let cli = Cli { query: vec!["  ".to_string()], command: None, common: common(LevelArg::Fifteen) };
    match build_request(&cli, String::new()) {
        Err(Error::Input(m)) => {
            assert_eq!(m, "tell me what to explain, e.g. plainly \"CAP theorem\"")
        }
        other => panic!("unexpected {other:?}"),
    }
}

#[test]
fn explaining_a_file_uses_the_selected_lines() {
    let cli = Cli {
        query: vec![],
        command: Some(Command::Explain {
            file: "src/lib.rs".to_string(),
            lines: Some("2-3".to_string()),
            about: "what this does".to_string(),
        }),
        common: common(LevelArg::Expert),
    };
    let request = build_request(&cli, "one\ntwo\nthree\nfour".to_string()).unwrap();
    assert_eq!(request.query, "what this does");
    assert_eq!(request.context.as_deref(), Some("two\nthree"));
    assert_eq!(request.level, Level::Expert);
}

#[test]
fn an_empty_range_is_refused() {
    let cli = Cli {
        query: vec![],
        command: Some(Command::Explain {
            file: "notes.txt".to_string(),
            lines: Some("7-9".to_string()),
            about: "x".to_string(),
        }),
        common: common(LevelArg::Fifteen),
    };
    match build_request(&cli, "only\nthree\nlines".to_string()) {
        Err(Error::Input(m)) => assert_eq!(m, "notes.txt has nothing in that range"),
        other => panic!("unexpected {other:?}"),
    }
    let bad = Cli {
        query: vec![],
        command: Some(Command::Explain {
            file: "notes.txt".to_string(),
            lines: Some("zero".to_string()),
            about: "x".to_string(),
        }),
        common: common(LevelArg::Fifteen),
    };
    match build_request(&bad, "text".to_string()) {
        Err(Error::Input(m)) => assert_eq!(m, "'zero' is not a line range like 40-80"),
        other => panic!("unexpected {other:?}"),
    }
}

#[test]
fn flags_decide_the_pipeline_shape() {
    let mut args = common(LevelArg::Fifteen);
    assert!(args.use_critic() && args.use_grounder());
    assert_eq!(args.pipeline_tag(), "critic=true,sources=true");
    args.no_sources = true;
    assert_eq!(args.pipeline_tag(), "critic=true,sources=false");
    args.fast = true;
    assert!(!args.use_critic() && !args.use_grounder());
    assert_eq!(args.pipeline_tag(), "critic=false,sources=false");
}

#[test]
fn output_decisions_follow_the_flags() {
    let mut args = common(LevelArg::Fifteen);
    args.width = 12;
    assert_eq!(args.render_width(), 12);
    args.width = 100;
    assert_eq!(args.render_width(), 100);
    assert!(args.use_color(false, true));
    assert!(!args.use_color(true, true));
    assert!(!args.use_color(false, false));
    args.no_color = true;
    assert!(!args.use_color(false, true));
    assert!(args.shows_progress());
    args.json = true;
    assert!(!args.shows_progress());
    assert!(args.cache_enabled() && args.reuse_cached());
    args.no_cache = true;
    args.refresh = true;
    assert!(!args.cache_enabled() && !args.reuse_cached());
    assert!(matches!(args.api_key_or_error(), Err(Error::MissingApiKey)));
    args.api_key = Some("k".to_string());
    assert_eq!(args.api_key_or_error().unwrap(), "k");
    assert_eq!(CommonArgs::progress_line("explain"), "\u{2026} explain");
}

#[test]
fn level_args_map_to_levels() {
    assert_eq!(Level::from(LevelArg::Five), Level::Five);
    assert_eq!(Level::from(LevelArg::Fifteen), Level::Fifteen);
    assert_eq!(Level::from(LevelArg::Expert), Level::Expert);
    assert_eq!(CacheAction::Clear, CacheAction::Clear);
}
