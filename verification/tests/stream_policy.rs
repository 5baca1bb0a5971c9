use agave_events::stream_name::StreamName;
use agave_events::stream_policy::{ParseStreamFilterError, StreamPolicy, StreamRule};

fn parse(s: &str) -> StreamPolicy {
    s.parse().unwrap()
}

#[test]
fn last_rule_wins() {
    let policy: StreamPolicy = "off, network.=on, on, network.=off".parse().unwrap();
    let expected: StreamPolicy = "on, network.=off".parse().unwrap();

    assert_eq!(policy, expected);
}

#[test]
fn policies_matches_off() {
    let off_policy: StreamPolicy = "off".parse().unwrap();
    for blank in [" ", "\t", ""] {
        assert_eq!(parse(blank), off_policy);
    }
    assert_eq!(StreamPolicy::default(), off_policy);
}

#[test]
fn accepts_distinct_prefixes() {
    for value in ["network.=on,network.repair=off", "Network.=on,network.=off"] {
        assert!(value.parse::<StreamPolicy>().is_ok());
    }
}

#[test]
fn normalizes_policy() {
    let cases = [
        ("", "off"),
        (" \t\r\n ", "off"),
        ("banking_stage", "banking_stage=on"),
        (" \t network. \n", "network.=on"),
        ("network.,banking_stage", "network.=on,banking_stage=on"),
        ("off,network.", "off,network.=on"),
        ("network.,on", "on,network.=on"),
        ("network.,off,banking_stage", "off,network.=on,banking_stage=on"),
        ("off,network.,network.repair=off", "off,network.=on,network.repair=off"),
        ("off,off=", "off,off=on"),
        ("ON=", "ON=on"),
        ("banking_stage=off,banking_stage", "banking_stage=on"),
        ("banking_stage=", "banking_stage=on"),
        ("banking_stage= \t ", "banking_stage=on"),
        ("ON", "on"),
        ("oN", "on"),
        ("OFF", "off"),
        ("oFf", "off"),
        ("ON,banking_stage=OFF", "on,banking_stage=off"),
        ("oFf,banking_stage=oN", "off,banking_stage=on"),
        (
            " \tON\n, banking_stage \t=\nOFF , network. = on ",
            "on,banking_stage=off,network.=on",
        ),
        ("network.=on,on", "on,network.=on"),
        ("network.=on,off,network.repair=off", "off,network.=on,network.repair=off"),
        ("net=on,rpc=off", "rpc=off,net=on"),
        ("net=on,Net=off", "Net=off,net=on"),
        (
            "network.repair=off,rpc=off,net=on,network.=on",
            "network.=on,net=on,rpc=off,network.repair=off",
        ),
    ];
    for (policy_format_1, policy_format_2) in cases {
        assert_ne!(policy_format_1, policy_format_2);
        assert_eq!(parse(policy_format_1), parse(policy_format_2));
    }
}

#[test]
fn ignores_empty_directives() {
    let cases = [
        (",", "off"),
        (" , ,\t,\n, ", "off"),
        ("on,", "on"),
        (",off", "off"),
        ("on,,banking_stage=off", "on,banking_stage=off"),
        ("on, \t\n ,banking_stage=off", "on,banking_stage=off"),
        ("network.=on, \t", "network.=on"),
    ];
    for (value, expected) in cases {
        assert_eq!(parse(value), parse(expected));
    }
}

#[test]
fn empty_prefix_sets_default_rule() {
    let cases = [
        ("=on", "on"),
        ("=off", "off"),
        ("=", "on"),
        (" \t =on", "on"),
        (" \t = \n", "on"),
        (" = oFf ", "off"),
    ];
    for (directive, default_rule) in cases {
        for (policy, expected) in [
            (directive.to_string(), default_rule.to_string()),
            (
                format!("on,network.=on,{directive},network.repair=off"),
                format!("{default_rule},network.=on,network.repair=off"),
            ),
        ] {
            assert_eq!(parse(&policy), parse(&expected));
        }
    }
}

#[test]
fn rejects_invalid_rule_values() {
    for invalid_rule_value in ["invalid", "allow", "on=off"] {
        for prefix in ["network.", ""] {
            for policy_string in [
                format!("{prefix}={invalid_rule_value}"),
                format!("on,network.=on,{prefix}={invalid_rule_value},network.repair=off"),
                format!("{prefix}={invalid_rule_value},{prefix}=on"),
            ] {
                assert_eq!(
                    policy_string.parse::<StreamPolicy>(),
                    Err(ParseStreamFilterError::InvalidStreamRuleValue(
                        invalid_rule_value.to_string()
                    ))
                );
            }
        }
    }
}

fn name(s: &str) -> StreamName {
    StreamName::try_new(s).unwrap()
}

#[test]
fn longest_matching_prefix_decides() {
    let policy = parse("off,network.=on,network.repair=off");
    assert_eq!(policy.stream_rule(&name("network.gossip")), StreamRule::On);
    assert_eq!(policy.stream_rule(&name("network.repair")), StreamRule::Off);
    assert_eq!(policy.stream_rule(&name("network.repair.requests")), StreamRule::Off);
    assert_eq!(policy.stream_rule(&name("banking")), StreamRule::Off);
}

#[test]
fn default_rule_applies_without_matching_prefix() {
    let policy = parse("on,network.repair=off");
    assert_eq!(policy.stream_rule(&name("rpc")), StreamRule::On);
    assert_eq!(policy.stream_rule(&name("network.repair")), StreamRule::Off);
    let all_on = parse("on");
    assert_eq!(all_on.stream_rule(&name("anything")), StreamRule::On);
    let all_off = parse("");
    assert_eq!(all_off.stream_rule(&name("anything")), StreamRule::Off);
}

#[test]
fn prefixes_are_case_sensitive() {
    let policy = parse("off,Network.=on");
    assert_eq!(policy.stream_rule(&name("network.gossip")), StreamRule::Off);
    assert_eq!(policy.stream_rule(&name("Network.gossip")), StreamRule::On);
}

#[test]
fn rule_names() {
    assert_eq!(StreamRule::On.as_str(), "on");
    assert_eq!(StreamRule::Off.as_str(), "off");
    assert_eq!(StreamRule::default(), StreamRule::Off);
}

#[test]
fn prefixes_are_trimmed() {
    let policy = parse(" \t net \n= off ,  rpc  ");
    assert_eq!(policy, parse("net=off,rpc=on"));
    assert_eq!(policy.stream_rule(&name("net.gossip")), StreamRule::Off);
    assert_eq!(policy.stream_rule(&name("rpc")), StreamRule::On);
    assert_eq!(policy.stream_rule(&name("banking")), StreamRule::Off);
}
