use attractors::cli::{next_arg, parse_config, parse_value, CliArg, CliOutcome, Config};
use attractors::text::decimal_string;

fn args(texts: &[&str]) -> Vec<CliArg> {
    texts
        .iter()
        .map(|t| CliArg { text: t.to_string(), parses_as_float: t.parse::<f64>().is_ok() })
        .collect()
}

fn run(texts: &[&str]) -> Result<Config, String> {
    match parse_config(&args(texts), 4)? {
        CliOutcome::Run(c) => Ok(c),
        CliOutcome::Help => Err("help".to_string()),
    }
}

#[test]
fn parse_value_accepts_unsigned_decimals() {
    assert_eq!(parse_value("width", "1920".to_string(), u64::MAX), Ok(1920));
    assert_eq!(parse_value("width", "+7".to_string(), u64::MAX), Ok(7));
    assert_eq!(parse_value("width", "007".to_string(), u64::MAX), Ok(7));
    assert_eq!(
        parse_value("iterations", "18446744073709551615".to_string(), u64::MAX),
        Ok(u64::MAX)
    );
    assert_eq!(parse_value("threads", "255".to_string(), 255), Ok(255));
}

#[test]
fn parse_value_rejects_like_str_parse() {
    let bad = |v: &str| parse_value("width", v.to_string(), u64::MAX);
    for v in ["", "+", "-1", "-0", "1.5", " 1", "1 ", "abc", "1e3", "18446744073709551616", "++1"] {
        assert_eq!(bad(v).is_ok(), v.parse::<u64>().is_ok(), "{:?}", v);
        assert_eq!(bad(v), Err(format!("invalid value for --width: {:?}", v)));
    }
    assert_eq!(
        parse_value("threads", "256".to_string(), 255),
        Err("invalid value for --threads: \"256\"".to_string())
    );
}

#[test]
fn decimal_text_reads_back() {
    for n in [0u64, 1, 9, 10, 99, 1_000_000, u64::MAX] {
        assert_eq!(parse_value("n", decimal_string(n), u64::MAX), Ok(n));
    }
}

#[test]
fn next_arg_present_and_missing() {
    assert_eq!(next_arg(Some("5".to_string()), "width"), Ok("5".to_string()));
    assert_eq!(next_arg(None, "width"), Err("missing value for --width".to_string()));
}

#[test]
fn parse_config_defaults() {
    let c = run(&[]).unwrap();
    assert_eq!(c.width, 15360);
    assert_eq!(c.height, 8640);
    assert_eq!(c.iterations, 1_000_000_000);
    assert_eq!(c.warmup, 1_000);
    assert_eq!(c.cutoff_x, "8.888888");
    assert_eq!(c.cutoff_y, "5.0");
    assert_eq!(c.exposure, None);
    assert_eq!(c.palette, "aurora");
    assert!(c.progress);
    assert_eq!(c.threads, 4);
    assert_eq!(c.out_path, "out/16k.ppm");
}

#[test]
fn parse_config_options() {
    let c = run(&[
        "--width", "640", "--height", "480", "--iterations", "5000", "--warmup", "0",
        "--cutoff-x", "4.5", "--cutoff-y", "3", "--exposure", "12.5", "--palette", "DUSK",
        "--threads", "2", "--quiet", "--out", "pic.ppm",
    ])
    .unwrap();
    assert_eq!((c.width, c.height, c.iterations, c.warmup), (640, 480, 5000, 0));
    assert_eq!((c.cutoff_x.as_str(), c.cutoff_y.as_str()), ("4.5", "3"));
    assert_eq!(c.exposure.as_deref(), Some("12.5"));
    assert_eq!(c.palette, "DUSK");
    assert_eq!(c.threads, 2);
    assert!(!c.progress);
    assert_eq!(c.out_path, "pic.ppm");
}

#[test]
fn parse_config_positional_path_and_last_option_wins() {
    let c = run(&["a.ppm", "--width", "10", "b.ppm", "--width", "20"]).unwrap();
    assert_eq!(c.out_path, "b.ppm");
    assert_eq!(c.width, 20);
}

#[test]
fn parse_config_help_stops_reading() {
    assert!(matches!(parse_config(&args(&["--help"]), 1), Ok(CliOutcome::Help)));
    assert!(matches!(parse_config(&args(&["-h", "--bogus"]), 1), Ok(CliOutcome::Help)));
    assert!(matches!(parse_config(&args(&["--width", "0", "-h"]), 1), Ok(CliOutcome::Help)));
    assert!(parse_config(&args(&["--bogus", "-h"]), 1).is_err());
}

#[test]
fn parse_config_errors() {
    assert_eq!(run(&["--width"]).err(), Some("missing value for --width".to_string()));
    assert_eq!(run(&["--out"]).err(), Some("missing value for --out".to_string()));
    assert_eq!(
        run(&["--height", "x"]).err(),
        Some("invalid value for --height: \"x\"".to_string())
    );
    assert_eq!(
        run(&["--cutoff-x", "wide"]).err(),
        Some("invalid value for --cutoff-x: \"wide\"".to_string())
    );
    assert_eq!(run(&["--nope"]).err(), Some("unknown option \"--nope\"".to_string()));
    assert_eq!(run(&["-"]).err(), Some("unknown option \"-\"".to_string()));
    assert_eq!(run(&["--width", "0"]).err(), Some("--width must be positive".to_string()));
    assert_eq!(run(&["--height", "0"]).err(), Some("--height must be positive".to_string()));
    assert_eq!(
        run(&["--iterations", "0"]).err(),
        Some("--iterations must be positive".to_string())
    );
    assert_eq!(run(&["--threads", "0"]).err(), Some("--threads must be positive".to_string()));
    assert_eq!(
        run(&["--palette", "neon"]).err(),
        Some("unknown palette \"neon\"; available palettes: dusk, ember, aurora".to_string())
    );
    // The first problem met is the one reported.
    assert_eq!(
        run(&["--cutoff-x", "abc", "--width", "0"]).err(),
        Some("invalid value for --cutoff-x: \"abc\"".to_string())
    );
}

#[test]
fn parse_config_zero_default_threads_is_an_error() {
    assert_eq!(
        match parse_config(&args(&[]), 0) {
            Err(e) => e,
            Ok(_) => String::new(),
        },
        "--threads must be positive"
    );
}
