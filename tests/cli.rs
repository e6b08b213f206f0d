use tt::cli::parse_args;
use tt::format::Format;

fn args(xs: &[&str]) -> Vec<String> {
    xs.iter().map(|x| x.to_string()).collect()
}

#[test]
fn two_known_names() {
    assert_eq!(
        parse_args(&args(&["json", "YAML"])),
        Some((Format::Json { pretty: true }, Format::Yaml))
    );
    assert_eq!(
        parse_args(&args(&["toml", "ron"])),
        Some((Format::Toml { pretty: true }, Format::Ron))
    );
    assert_eq!(parse_args(&args(&["cbor", "URL"])), Some((Format::Cbor, Format::Url)));
}

#[test]
fn help_flag_anywhere() {
    assert_eq!(parse_args(&args(&["-h"])), None);
    assert_eq!(parse_args(&args(&["json", "-h"])), None);
    assert_eq!(parse_args(&args(&["json", "yaml", "-h"])), None);
}

#[test]
fn wrong_count_or_unknown_name() {
    assert_eq!(parse_args(&args(&[])), None);
    assert_eq!(parse_args(&args(&["json"])), None);
    assert_eq!(parse_args(&args(&["json", "yaml", "toml"])), None);
    assert_eq!(parse_args(&args(&["json", "xml"])), None);
    assert_eq!(parse_args(&args(&["Cbor", "json"])), None);
}
