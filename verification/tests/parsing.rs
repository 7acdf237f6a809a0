use config_reader::errors::ConfigReadError;
use config_reader::group::{ConfigurationItem, Group};
use config_reader::parse::{first_panic_line, parse_config_file};
use config_reader::{
    get_default_options, Config, ConfigReader, Options, StringStrictness, StringStrictnessBehavior,
};

fn config_lines() -> Vec<String> {
    vec![
        "# Test configuration file".to_string(),
        "".to_string(),
        "[group]".to_string(),
        "property = value".to_string(),
        "underscore_value = 25".to_string(),
        "name = Group".to_string(),
        "".to_string(),
        "[another]".to_string(),
        "hello = \"Hello world\"".to_string(),
        "".to_string(),
        "[strict]".to_string(),
        "one_word = word".to_string(),
        "in_quotes = \"Hello world\"".to_string(),
        "no_quotes = Hello world".to_string(),
        "".to_string(),
        "[bools]".to_string(),
        "one = 1".to_string(),
        "true = true".to_string(),
        "yes = yes".to_string(),
        "on = on".to_string(),
        "zero = 0".to_string(),
        "false = false".to_string(),
        "no = no".to_string(),
        "off = off".to_string(),
        "invalid = maybe".to_string(),
    ]
}

fn invalid_syntax_lines() -> Vec<String> {
    vec![
        "[group]".to_string(),
        "property = value".to_string(),
        "bad syntax here".to_string(),
    ]
}

#[test]
fn invalid_file_syntax() {
    assert_eq!(
        Err(ConfigReadError::InvalidSyntaxOnLine),
        ConfigReader::parse(&invalid_syntax_lines(), None)
    );
}

#[test]
fn string_strictness_loose() {
    // The default configuration is ``Loose``
    let cfg: Config = ConfigReader::parse(&config_lines(), None).unwrap();

    assert!(cfg.group("strict").unwrap().get("one_word").is_some());
    assert_eq!(
        "Hello world",
        cfg.group("strict").unwrap().get("in_quotes").unwrap().value
    );
    assert_eq!(
        "Hello world",
        cfg.group("strict").unwrap().get("no_quotes").unwrap().value
    );
}

#[test]
fn string_strictness_forgivable() {
    let mut opts: Options = get_default_options();
    opts.string_strictness = StringStrictness::Forgivable;

    let cfg: Config = ConfigReader::parse(&config_lines(), Some(opts)).unwrap();

    assert!(cfg.group("strict").unwrap().get("one_word").is_some());
    assert_eq!(
        "Hello world",
        cfg.group("strict").unwrap().get("in_quotes").unwrap().value
    );
    assert!(cfg.group("strict").unwrap().get("no_quotes").is_none());
}

#[test]
fn string_strictness_strict() {
    let mut opts: Options = get_default_options();
    opts.string_strictness = StringStrictness::Very;

    let cfg: Config = ConfigReader::parse(&config_lines(), Some(opts)).unwrap();

    assert!(cfg.group("strict").unwrap().get("one_word").is_none());
    assert_eq!(
        "Hello world",
        cfg.group("strict").unwrap().get("in_quotes").unwrap().value
    );
    assert!(cfg.group("strict").unwrap().get("no_quotes").is_none());
}

#[test]
fn get() {
    let cfg: Config = ConfigReader::parse(&config_lines(), None).unwrap();
    assert_eq!(
        "value",
        cfg.group("group").unwrap().get("property").unwrap().value
    );
    assert_eq!(
        "25",
        cfg.group("group")
            .unwrap()
            .get("underscore_value")
            .unwrap()
            .value
    );
    assert_eq!(
        "Hello world",
        cfg.group("another").unwrap().get("hello").unwrap().value
    );

    // Check that None is returned when key doesn't exist
    assert!(cfg.group("another").unwrap().get("nope").is_none());
}

#[test]
fn group_not_existing() {
    assert!(ConfigReader::parse(&config_lines(), None)
        .unwrap()
        .group("nope")
        .is_none());
}

#[test]
fn get_or() {
    let cfg: Config = ConfigReader::parse(&config_lines(), None).unwrap();
    assert_eq!("fallback", cfg.group("group").unwrap().get_or("nope", "fallback"))
}

#[test]
fn has_group() {
    let cfg: Config = ConfigReader::parse(&config_lines(), None).unwrap();
    assert!(cfg.has_group("group"));
    assert!(!cfg.has_group("non_existing"));
}

#[test]
fn group_has_key() {
    let cfg: Config = ConfigReader::parse(&config_lines(), None).unwrap();
    assert!(cfg.group("group").unwrap().has("name"));
    assert!(!cfg.group("group").unwrap().has("nope"));
}

#[test]
fn keys() {
    let cfg: Config = ConfigReader::parse(&config_lines(), None).unwrap();
    let keys: Vec<String> = cfg.group("group").unwrap().keys();

    assert!(keys.contains(&"property".to_string()));
    assert!(keys.contains(&"underscore_value".to_string()));
    assert!(keys.contains(&"name".to_string()));
    assert_eq!(3, keys.len());
}

#[test]
fn for_each_group() {
    ConfigReader::parse(&config_lines(), None)
        .unwrap()
        .for_each_group(|_key: &str, _group: &Group| {});
}

#[test]
fn for_each() {
    ConfigReader::parse(&config_lines(), None)
        .unwrap()
        .group("group")
        .unwrap()
        .for_each(|_cfg_item: &ConfigurationItem| {});
}

#[test]
fn reparse_is_deterministic() {
    let first = ConfigReader::parse(&config_lines(), None).unwrap();
    let second = ConfigReader::parse(&config_lines(), None).unwrap();
    assert_eq!(first, second);
}

#[test]
fn redeclared_key_keeps_last_value() {
    let lines = vec![
        "[group]".to_string(),
        "name = first".to_string(),
        "name = second".to_string(),
    ];
    let cfg = ConfigReader::parse(&lines, None).unwrap();
    let group = cfg.group("group").unwrap();
    assert_eq!("second", group.get("name").unwrap().value);
    assert_eq!(1, group.keys().len());
}

#[test]
fn line_before_any_header_is_dropped() {
    let lines = vec![
        "orphan = value".to_string(),
        "# a comment".to_string(),
        "[group]".to_string(),
        "name = kept".to_string(),
    ];
    let cfg = ConfigReader::parse(&lines, None).unwrap();
    assert_eq!(vec!["group".to_string()], cfg.groups());
    let group = cfg.group("group").unwrap();
    assert!(!group.has("orphan"));
    assert_eq!("kept", group.get("name").unwrap().value);
}

#[test]
fn document_without_headers_has_no_groups() {
    let lines = vec![
        "orphan = value".to_string(),
        "# only comments and items".to_string(),
        "".to_string(),
    ];
    let cfg = ConfigReader::parse(&lines, None).unwrap();
    assert_eq!(0, cfg.groups().len());
}

#[test]
fn empty_document_is_ok() {
    let cfg = ConfigReader::parse(&Vec::new(), None).unwrap();
    assert_eq!(0, cfg.groups().len());
}

#[test]
fn flattened_get_example() {
    let lines = vec![
        "[group]".to_string(),
        "name = Group".to_string(),
        "underscore_value = 25".to_string(),
        "[another]".to_string(),
        "hello = \"Hello world\"".to_string(),
    ];
    let cfg = ConfigReader::parse(&lines, None).unwrap();
    assert_eq!(Ok("Group".to_string()), cfg.get("group", "name"));
    assert_eq!(Ok("25".to_string()), cfg.get("group", "underscore_value"));
    assert_eq!(Ok("Hello world".to_string()), cfg.get("another", "hello"));
    assert_eq!(
        Err(ConfigReadError::KeyInGroupNotFound),
        cfg.get("group", "missing")
    );
    assert_eq!(
        Err(ConfigReadError::GroupNotFound),
        cfg.get("missing", "name")
    );
}

#[test]
fn bad_syntax_line_fails_whole_parse() {
    let lines = vec!["bad syntax here".to_string()];
    assert_eq!(
        Err(ConfigReadError::InvalidSyntaxOnLine),
        parse_config_file(&lines, &get_default_options())
    );
}

#[test]
fn duplicate_group_header_replaces_contents() {
    let lines = vec![
        "[group]".to_string(),
        "first = 1".to_string(),
        "[other]".to_string(),
        "[group]".to_string(),
        "second = 2".to_string(),
    ];
    let cfg = ConfigReader::parse(&lines, None).unwrap();
    let group = cfg.group("group").unwrap();
    assert!(!group.has("first"));
    assert_eq!("2", group.get("second").unwrap().value);
    assert!(cfg.has_group("other"));
}

#[test]
fn primitives_survive_very_strictness() {
    let mut opts: Options = get_default_options();
    opts.string_strictness = StringStrictness::Very;
    let lines = vec![
        "[group]".to_string(),
        "number = 25".to_string(),
        "flag = true".to_string(),
        "word = bare".to_string(),
        "quoted = \"25\"".to_string(),
    ];
    let cfg = ConfigReader::parse(&lines, Some(opts)).unwrap();
    let group = cfg.group("group").unwrap();
    assert_eq!("25", group.get("number").unwrap().value);
    assert_eq!("true", group.get("flag").unwrap().value);
    assert!(group.get("word").is_none());
    assert_eq!("25", group.get("quoted").unwrap().value);
}

#[test]
fn panic_point_is_first_rejected_item() {
    let opts = Options {
        string_strictness: StringStrictness::Very,
        string_strictness_behavior: StringStrictnessBehavior::Panic,
    };
    let lines = vec![
        "[group]".to_string(),
        "number = 25".to_string(),
        "word = bare".to_string(),
    ];
    assert_eq!(Some(2), first_panic_line(&lines, &opts));

    let ignore = Options {
        string_strictness: StringStrictness::Very,
        string_strictness_behavior: StringStrictnessBehavior::Ignore,
    };
    assert_eq!(None, first_panic_line(&lines, &ignore));
}

#[test]
fn spacing_around_equals_sign() {
    let lines = vec![
        "[group]".to_string(),
        "tight=value".to_string(),
        "padded = value".to_string(),
        "  indented = value  ".to_string(),
    ];
    let cfg = ConfigReader::parse(&lines, None).unwrap();
    let group = cfg.group("group").unwrap();
    assert_eq!("value", group.get("tight").unwrap().value);
    assert_eq!("value", group.get("padded").unwrap().value);
    assert_eq!("value", group.get("indented").unwrap().value);

    // two spaces before the equals sign break the item shape
    let bad = vec!["[group]".to_string(), "wide  = value".to_string()];
    assert_eq!(
        Err(ConfigReadError::InvalidSyntaxOnLine),
        ConfigReader::parse(&bad, None)
    );
}

#[test]
fn group_name_grammar() {
    let ok = vec!["[lower_case_name]".to_string()];
    assert!(ConfigReader::parse(&ok, None).unwrap().has_group("lower_case_name"));

    for bad in ["[Upper]", "[_starts_with_underscore]", "[with space]", "[]", "[half"] {
        let lines = vec![bad.to_string()];
        assert_eq!(
            Err(ConfigReadError::InvalidSyntaxOnLine),
            ConfigReader::parse(&lines, None),
            "{} should be invalid",
            bad
        );
    }
}
