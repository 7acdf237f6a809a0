use config_reader::errors::ConfigValueError;
use config_reader::group::{ConfigurationItem, Group};
use config_reader::{
    get_default_options, Config, ConfigReader, StringStrictness, StringStrictnessBehavior,
};

fn sample_lines() -> Vec<String> {
    vec![
        "[group]".to_string(),
        "property = value".to_string(),
        "underscore_value = 25".to_string(),
        "name = Group".to_string(),
        "[bools]".to_string(),
        "one = 1".to_string(),
        "true = true".to_string(),
        "yes = yes".to_string(),
        "on = on".to_string(),
        "zero = 0".to_string(),
        "false = false".to_string(),
        "no = no".to_string(),
        "off = off".to_string(),
        "invalid = maybe".to_string(),
    ]
}

#[test]
fn typecasting() {
    let cfg = ConfigReader::parse(&sample_lines(), None).unwrap();
    let item = cfg.group("group").unwrap().get("underscore_value").unwrap();

    assert_eq!(String::from("25"), item.get());
    assert_eq!(25i32, item.as_i32());
    assert_eq!(25u32, item.as_u32());
    assert_eq!(25i64, item.as_i64());
    assert_eq!(25u64, item.as_u64());
    assert_eq!("25", item.as_str());
}

#[test]
fn bools() {
    let cfg = ConfigReader::parse(&sample_lines(), None).unwrap();
    let bools = cfg.group("bools").unwrap();

    let true_vals: [&str; 4] = ["one", "true", "on", "yes"];
    for x in true_vals {
        assert!(bools.get(x).unwrap().as_bool().unwrap());
    }

    let false_vals: [&str; 4] = ["zero", "false", "off", "no"];
    for x in false_vals {
        assert!(!bools.get(x).unwrap().as_bool().unwrap());
    }

    assert!(bools.get("invalid").unwrap().as_bool().is_err());
}

#[test]
fn bool_tokens_exactly() {
    for v in ["1", "true", "yes", "on"] {
        let item = ConfigurationItem::new("k".to_string(), v.to_string());
        assert_eq!(Ok(true), item.as_bool());
        assert!(item.as_bool_grf());
    }
    for v in ["0", "false", "no", "off"] {
        let item = ConfigurationItem::new("k".to_string(), v.to_string());
        assert_eq!(Ok(false), item.as_bool());
        assert!(!item.as_bool_grf());
    }
    let item = ConfigurationItem::new("k".to_string(), "maybe".to_string());
    assert_eq!(Err(ConfigValueError::InvalidBoolValue), item.as_bool());
    assert!(!item.as_bool_grf());

    // the token set is case-sensitive
    let item = ConfigurationItem::new("k".to_string(), "True".to_string());
    assert_eq!(Err(ConfigValueError::InvalidBoolValue), item.as_bool());
}

#[test]
fn numeric_coercions() {
    let negative = ConfigurationItem::new("k".to_string(), "-12345".to_string());
    assert_eq!(-12345i32, negative.as_i32());
    assert_eq!(-12345i64, negative.as_i64());

    let signed = ConfigurationItem::new("k".to_string(), "+7".to_string());
    assert_eq!(7i32, signed.as_i32());
    assert_eq!(7u32, signed.as_u32());
    assert_eq!(7i64, signed.as_i64());
    assert_eq!(7u64, signed.as_u64());

    let extremes = ConfigurationItem::new("k".to_string(), "-2147483648".to_string());
    assert_eq!(i32::MIN, extremes.as_i32());
    let top = ConfigurationItem::new("k".to_string(), "4294967295".to_string());
    assert_eq!(u32::MAX, top.as_u32());
    let wide = ConfigurationItem::new("k".to_string(), "18446744073709551615".to_string());
    assert_eq!(u64::MAX, wide.as_u64());
    let low = ConfigurationItem::new("k".to_string(), "-9223372036854775808".to_string());
    assert_eq!(i64::MIN, low.as_i64());
}

#[test]
fn default_options_are_loose_and_ignore() {
    let opts = get_default_options();
    assert_eq!(StringStrictness::Loose, opts.string_strictness);
    assert_eq!(StringStrictnessBehavior::Ignore, opts.string_strictness_behavior);
}

#[test]
fn building_a_config_in_memory() {
    let mut cfg = Config::new();
    assert_eq!(0, cfg.groups().len());

    // an item inserted before any group is dropped
    cfg.insert(ConfigurationItem::new("orphan".to_string(), "x".to_string()));
    assert_eq!(0, cfg.groups().len());

    cfg.add_group("settings".to_string());
    cfg.insert(ConfigurationItem::new("key".to_string(), "old".to_string()));
    cfg.insert(ConfigurationItem::new("key".to_string(), "new".to_string()));
    let group = cfg.group("settings").unwrap();
    assert_eq!("new", group.get("key").unwrap().value);
    assert_eq!(1, group.keys().len());
}

#[test]
fn building_a_group_in_memory() {
    let mut group = Group::new();
    assert!(!group.has("key"));
    group.insert(ConfigurationItem::new("key".to_string(), "value".to_string()));
    assert!(group.has("key"));
    assert_eq!("value", group.get_or("key", "fallback"));
    assert_eq!("fallback", group.get_or("other", "fallback"));

    let item = group.get("key").unwrap();
    assert_eq!("key", item.key);
    assert_eq!("value", item.value);
}

#[test]
fn quoted_value_round_trip() {
    for strictness in [
        StringStrictness::Loose,
        StringStrictness::Forgivable,
        StringStrictness::Very,
    ] {
        let mut opts = get_default_options();
        opts.string_strictness = strictness;
        let lines = vec![
            "[group]".to_string(),
            "greeting = \"Hello world\"".to_string(),
        ];
        let cfg = ConfigReader::parse(&lines, Some(opts)).unwrap();
        assert_eq!(
            "Hello world",
            cfg.group("group").unwrap().get("greeting").unwrap().value
        );
    }
}

#[test]
fn empty_and_quoted_empty_values() {
    let lines = vec![
        "[group]".to_string(),
        "empty =".to_string(),
        "quoted_empty = \"\"".to_string(),
    ];
    let cfg = ConfigReader::parse(&lines, None).unwrap();
    let group = cfg.group("group").unwrap();
    assert_eq!("", group.get("empty").unwrap().value);
    assert_eq!("", group.get("quoted_empty").unwrap().value);
}
