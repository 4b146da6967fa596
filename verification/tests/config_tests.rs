use ra_multiplex::ip::{IpAddress, Ipv4Address, Ipv6Address, parse_ip, parse_ipv4};
use ra_multiplex::schema::{Address, Config, ConfigError};
use ra_multiplex::toml_model::TomlValue;

fn parse(doc: &str) -> Result<Config, ConfigError> {
    Config::from_toml_slice(doc.as_bytes())
}

const COMMITTED_DEFAULTS: &str = "instance_timeout = 300\ngc_interval = 10\nlisten = [\"127.0.0.1\", 27631]\nconnect = [\"127.0.0.1\", 27631]\nlog_filters = \"info\"\nlog_mode = \"terminal\"\npass_environment = []\n";

#[test]
fn generate_default_and_check_it_matches_commited_defaults() {
    let generated_defaults = Config::default().to_toml_string();
    assert_eq!(generated_defaults, COMMITTED_DEFAULTS);
}

#[test]
fn real_serializer_agrees_on_default_lines() {
    let mut table = toml::value::Table::new();
    let addr = toml::Value::Array(vec![
        toml::Value::String("127.0.0.1".to_string()),
        toml::Value::Integer(27631),
    ]);
    table.insert("instance_timeout".to_string(), toml::Value::Integer(300));
    table.insert("gc_interval".to_string(), toml::Value::Integer(10));
    table.insert("listen".to_string(), addr.clone());
    table.insert("connect".to_string(), addr);
    table.insert("log_filters".to_string(), toml::Value::String("info".to_string()));
    table.insert("log_mode".to_string(), toml::Value::String("terminal".to_string()));
    table.insert("pass_environment".to_string(), toml::Value::Array(vec![]));
    let reference = toml::to_string(&toml::Value::Table(table)).unwrap();
    let ours = Config::default().to_toml_string();
    let mut reference_lines: Vec<&str> = reference.lines().collect();
    let mut our_lines: Vec<&str> = ours.lines().collect();
    reference_lines.sort();
    our_lines.sort();
    assert_eq!(our_lines, reference_lines);
}

#[test]
fn default_document_round_trips_through_real_parser() {
    let text = Config::default().to_toml_string();
    let reparsed = Config::from_toml_slice(text.as_bytes()).expect("defaults must parse");
    assert_eq!(reparsed, Config::default());
}

#[test]
fn empty_document_gives_defaults() {
    assert_eq!(parse("").expect("empty document"), Config::default());
}

#[test]
fn gc_interval_zero_rejected() {
    assert_eq!(parse("gc_interval = 0"), Err(ConfigError::BadGcInterval));
}

#[test]
fn gc_interval_positive_accepted() {
    assert_eq!(parse("gc_interval = 1").unwrap().gc_interval, 1);
    assert_eq!(parse("gc_interval = 4000000000").unwrap().gc_interval, 4_000_000_000);
}

#[test]
fn gc_interval_negative_rejected() {
    assert_eq!(parse("gc_interval = -3"), Err(ConfigError::BadGcInterval));
    assert_eq!(parse("gc_interval = \"5\""), Err(ConfigError::BadGcInterval));
}

#[test]
fn instance_timeout_true_rejected() {
    assert_eq!(parse("instance_timeout = true"), Err(ConfigError::BadInstanceTimeout));
}

#[test]
fn instance_timeout_false_disables() {
    assert_eq!(parse("instance_timeout = false").unwrap().instance_timeout, None);
}

#[test]
fn instance_timeout_integer_accepted() {
    assert_eq!(parse("instance_timeout = 42").unwrap().instance_timeout, Some(42));
    assert_eq!(parse("instance_timeout = 0").unwrap().instance_timeout, Some(0));
    assert_eq!(
        parse("instance_timeout = 4294967295").unwrap().instance_timeout,
        Some(u32::MAX)
    );
    assert_eq!(parse("instance_timeout = 4294967296"), Err(ConfigError::BadInstanceTimeout));
}

#[test]
fn instance_timeout_absent_defaults_to_five_minutes() {
    assert_eq!(parse("gc_interval = 7").unwrap().instance_timeout, Some(300));
}

#[test]
fn instance_timeout_wrong_type_rejected() {
    assert_eq!(parse("instance_timeout = \"soon\""), Err(ConfigError::BadInstanceTimeout));
    assert_eq!(parse("instance_timeout = -1"), Err(ConfigError::BadInstanceTimeout));
}

#[test]
fn unknown_field_rejected() {
    assert_eq!(
        parse("gc_interval = 5\nflurb = 1"),
        Err(ConfigError::UnknownField("flurb".to_string()))
    );
}

#[test]
fn address_network_shape_parses_as_network() {
    let config = parse("listen = [\"10.0.0.2\", 8080]").unwrap();
    assert_eq!(
        config.listen,
        Address::Tcp(IpAddress::V4(Ipv4Address(10, 0, 0, 2)), 8080)
    );
}

#[test]
fn address_string_shape_parses_as_local_socket() {
    let config = parse("connect = \"/tmp/ra.sock\"").unwrap();
    assert_eq!(config.connect, Address::Unix("/tmp/ra.sock".to_string()));
}

#[test]
fn address_neither_shape_rejected() {
    assert_eq!(
        parse("listen = 17"),
        Err(ConfigError::BadAddress("listen".to_string()))
    );
    assert_eq!(
        parse("listen = [\"999.1.1.1\", 20]"),
        Err(ConfigError::BadAddress("listen".to_string()))
    );
    assert_eq!(
        parse("listen = [\"10.0.0.2\", 8080, 1]"),
        Err(ConfigError::BadAddress("listen".to_string()))
    );
}

#[test]
fn address_ipv6_network_shape_parses_as_network() {
    let config = parse("listen = [\"::1\", 27631]").unwrap();
    assert_eq!(
        config.listen,
        Address::Tcp(IpAddress::V6(Ipv6Address(0, 0, 0, 0, 0, 0, 0, 1)), 27631)
    );
}

#[test]
fn ipv6_text_forms_parse() {
    assert_eq!(
        parse_ip("::"),
        Some(IpAddress::V6(Ipv6Address(0, 0, 0, 0, 0, 0, 0, 0)))
    );
    assert_eq!(
        parse_ip("2001:db8::8a2e:370:7334"),
        Some(IpAddress::V6(Ipv6Address(
            0x2001, 0x0db8, 0, 0, 0, 0x8a2e, 0x0370, 0x7334
        )))
    );
    assert_eq!(
        parse_ip("1:2:3:4:5:6:7:8"),
        Some(IpAddress::V6(Ipv6Address(1, 2, 3, 4, 5, 6, 7, 8)))
    );
    assert_eq!(
        parse_ip("1:2:3:4:5:6:7::"),
        Some(IpAddress::V6(Ipv6Address(1, 2, 3, 4, 5, 6, 7, 0)))
    );
    assert_eq!(
        parse_ip("::ffff:192.0.2.1"),
        Some(IpAddress::V6(Ipv6Address(0, 0, 0, 0, 0, 0xffff, 0xc000, 0x0201)))
    );
    assert_eq!(
        parse_ip("::1.2.3.4"),
        Some(IpAddress::V6(Ipv6Address(0, 0, 0, 0, 0, 0, 0x0102, 0x0304)))
    );
    assert_eq!(
        parse_ip("1:2:3:4:5:6:1.2.3.4"),
        Some(IpAddress::V6(Ipv6Address(1, 2, 3, 4, 5, 6, 0x0102, 0x0304)))
    );
}

#[test]
fn ipv6_malformed_texts_rejected() {
    assert_eq!(parse_ip("1:2:3"), None);
    assert_eq!(parse_ip(":::"), None);
    assert_eq!(parse_ip("1::2::3"), None);
    assert_eq!(parse_ip("12345::"), None);
    assert_eq!(parse_ip("1.2.3.4::"), None);
    assert_eq!(parse_ip("1:2:3:4:5:6:7:8:9"), None);
    assert_eq!(parse_ip("g::1"), None);
    assert_eq!(parse_ip("1:2:3:4:5:6:7"), None);
}

#[test]
fn ipv6_addresses_serialize_in_canonical_compressed_form() {
    let config = parse("listen = [\"2001:db8::1\", 443]").unwrap();
    let text = config.to_toml_string();
    assert!(text.contains("listen = [\"2001:db8::1\", 443]\n"));
    assert_eq!(Config::from_toml_slice(text.as_bytes()).unwrap(), config);

    let mapped = parse("connect = [\"::ffff:192.0.2.1\", 80]").unwrap();
    let text = mapped.to_toml_string();
    assert!(text.contains("connect = [\"::ffff:192.0.2.1\", 80]\n"));
    assert_eq!(Config::from_toml_slice(text.as_bytes()).unwrap(), mapped);

    let single_zero = parse("listen = [\"1:0:2:3:4:5:6:7\", 1]").unwrap();
    let text = single_zero.to_toml_string();
    assert!(text.contains("listen = [\"1:0:2:3:4:5:6:7\", 1]\n"));

    let leftmost_longest = parse("listen = [\"1:0:0:2:0:0:0:3\", 1]").unwrap();
    let text = leftmost_longest.to_toml_string();
    assert!(text.contains("listen = [\"1:0:0:2::3\", 1]\n"));
    assert_eq!(
        Config::from_toml_slice(text.as_bytes()).unwrap(),
        leftmost_longest
    );
}

#[test]
fn address_port_out_of_range_rejected() {
    assert_eq!(
        parse("listen = [\"1.2.3.4\", 70000]"),
        Err(ConfigError::BadAddress("listen".to_string()))
    );
}

#[test]
fn ipv4_text_is_canonical_dotted_quad() {
    assert_eq!(parse_ipv4("127.0.0.1"), Some(Ipv4Address(127, 0, 0, 1)));
    assert_eq!(parse_ipv4("255.255.255.255"), Some(Ipv4Address(255, 255, 255, 255)));
    assert_eq!(parse_ipv4("256.1.1.1"), None);
    assert_eq!(parse_ipv4("01.2.3.4"), None);
    assert_eq!(parse_ipv4("1.2.3"), None);
    assert_eq!(parse_ipv4("1.2.3.4.5"), None);
    assert_eq!(parse_ipv4(""), None);
}

#[test]
fn pass_environment_is_sorted_and_unique() {
    let config = parse("pass_environment = [\"B\", \"A\", \"B\"]").unwrap();
    assert_eq!(config.pass_environment, vec!["A".to_string(), "B".to_string()]);
}

#[test]
fn pass_environment_orders_by_code_point() {
    let config = parse("pass_environment = [\"b\", \"A\"]").unwrap();
    assert_eq!(config.pass_environment, vec!["A".to_string(), "b".to_string()]);
}

#[test]
fn pass_environment_non_string_rejected() {
    assert_eq!(
        parse("pass_environment = [1]"),
        Err(ConfigError::BadStringList("pass_environment".to_string()))
    );
}

#[test]
fn log_filters_non_string_rejected() {
    assert_eq!(
        parse("log_filters = 5"),
        Err(ConfigError::BadText("log_filters".to_string()))
    );
    assert_eq!(
        parse("log_mode = []"),
        Err(ConfigError::BadText("log_mode".to_string()))
    );
}

#[test]
fn malformed_document_rejected() {
    assert_eq!(parse("gc_interval = = 1"), Err(ConfigError::Syntax));
    assert_eq!(parse("gc_interval = 1\ngc_interval = 2"), Err(ConfigError::Syntax));
}

#[test]
fn repeated_field_in_table_rejected() {
    let entries = vec![
        ("gc_interval".to_string(), TomlValue::Int(5)),
        ("gc_interval".to_string(), TomlValue::Int(6)),
    ];
    assert_eq!(
        Config::from_table(&entries),
        Err(ConfigError::DuplicateField("gc_interval".to_string()))
    );
}

#[test]
fn disabled_timeout_serializes_without_its_line() {
    let config = parse("instance_timeout = false").unwrap();
    let text = config.to_toml_string();
    assert!(!text.contains("instance_timeout"));
    assert!(text.starts_with("gc_interval = 10\n"));
}

#[test]
fn escaped_strings_round_trip() {
    let config = parse("log_filters = \"a\\\"b\\\\c\"").unwrap();
    assert_eq!(config.log_filters, "a\"b\\c");
    let text = config.to_toml_string();
    assert!(text.contains("log_filters = \"a\\\"b\\\\c\"\n"));
    let reparsed = Config::from_toml_slice(text.as_bytes()).unwrap();
    assert_eq!(reparsed, config);
}

#[test]
fn local_socket_address_serializes_as_bare_string() {
    let config = parse("listen = \"/tmp/ra.sock\"").unwrap();
    let text = config.to_toml_string();
    assert!(text.contains("listen = \"/tmp/ra.sock\"\n"));
    let reparsed = Config::from_toml_slice(text.as_bytes()).unwrap();
    assert_eq!(reparsed, config);
}
