use mkwp::cli::{parse_log_level, LogLevel};
use mkwp::img::Preset;

const PRESETS: [Preset; 10] = [
    Preset::Ultrafast,
    Preset::Superfast,
    Preset::Veryfast,
    Preset::Faster,
    Preset::Fast,
    Preset::Medium,
    Preset::Slow,
    Preset::Slower,
    Preset::Veryslow,
    Preset::Placebo,
];

#[test]
fn parses_heif_preset() {
    let names: Vec<&'static str> = PRESETS.iter().map(|p| p.as_str()).collect();
    let command = clap::Command::new("mkwp")
        .arg(clap::Arg::new("input").required(true))
        .arg(
            clap::Arg::new("libheif-preset")
                .long("libheif-preset")
                .value_parser(clap::builder::PossibleValuesParser::new(names))
                .default_value(Preset::default().as_str()),
        );
    let matches = command
        .try_get_matches_from(["mkwp", "input.json", "--libheif-preset", "fast"])
        .unwrap();
    let preset = Preset::from_name(matches.get_one::<String>("libheif-preset").unwrap()).unwrap();

    assert_eq!(preset, Preset::Fast);
}

#[test]
fn reads_log_levels() {
    assert_eq!(parse_log_level("info"), Ok(LogLevel::Info));
    assert_eq!(parse_log_level("TRACE"), Ok(LogLevel::Trace));
    assert_eq!(parse_log_level("Off"), Ok(LogLevel::Off));
    assert_eq!(parse_log_level("wArN"), Ok(LogLevel::Warn));
    assert_eq!(parse_log_level("error"), Ok(LogLevel::Error));
    assert_eq!(parse_log_level("debug"), Ok(LogLevel::Debug));
    assert_eq!(parse_log_level("verbose"), Err("invalid log level: verbose".to_string()));
    assert_eq!(parse_log_level(""), Err("invalid log level: ".to_string()));
    assert_eq!(parse_log_level("ınfo"), Err("invalid log level: ınfo".to_string()));
}
