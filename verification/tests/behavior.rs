use std::str::FromStr;

use netrc::netrc::{Host, Machine, Macro, Netrc};

fn chars(s: &str) -> Vec<char> {
    s.chars().collect()
}

#[test]
fn parse_empty_input() {
    let netrc = Netrc::parse(chars("")).unwrap();
    assert_eq!(netrc, Netrc::default());
}

#[test]
fn parse_whitespace_only_input() {
    let netrc = Netrc::parse(chars("  \n\t\n   \n")).unwrap();
    assert_eq!(netrc, Netrc::default());
}

#[test]
fn parse_full_record() {
    let input = "machine m.example login u password s account a port 8080";
    let netrc = Netrc::parse(chars(input)).unwrap();
    let expected = Netrc {
        hosts: vec![Host(
            "m.example".into(),
            Machine {
                login: "u".into(),
                password: Some("s".into()),
                account: Some("a".into()),
                port: Some(8080),
            },
        )],
        ..Default::default()
    };
    assert_eq!(netrc, expected);
}

#[test]
fn parse_default_fields_leave_hosts_empty() {
    let input = "default login def password sec";
    let netrc = Netrc::parse(chars(input)).unwrap();
    assert!(netrc.hosts.is_empty());
    assert_eq!(
        netrc.default,
        Some(Machine {
            login: "def".into(),
            password: Some("sec".into()),
            ..Default::default()
        })
    );
}

#[test]
fn parse_default_port_sets_port() {
    let netrc = Netrc::parse(chars("default port 2021")).unwrap();
    assert!(netrc.hosts.is_empty());
    assert_eq!(
        netrc.default,
        Some(Machine { port: Some(2021), ..Default::default() })
    );
}

#[test]
fn parse_duplicate_hosts_kept_in_order() {
    let input = "machine a login one machine a login two";
    let netrc = Netrc::parse(chars(input)).unwrap();
    let expected_hosts = vec![
        Host("a".into(), Machine { login: "one".into(), ..Default::default() }),
        Host("a".into(), Machine { login: "two".into(), ..Default::default() }),
    ];
    assert_eq!(netrc.hosts, expected_hosts);
}

#[test]
fn parse_two_macros_in_order() {
    let input = "macdef first\nbody one\n\nmacdef second\nbody two\n\n";
    let netrc = Netrc::from_str(input).unwrap();
    let expected_macros = vec![
        Macro("first".into(), "\nbody one\n\n".into()),
        Macro("second".into(), "\nbody two\n\n".into()),
    ];
    assert_eq!(netrc.macros, expected_macros);
    assert!(netrc.hosts.is_empty());
    assert_eq!(netrc.default, None);
}

#[test]
fn macdef_body_runs_to_end_of_input_without_blank_line() {
    let input = "macdef m\ncd /tmp\nquit";
    let netrc = Netrc::from_str(input).unwrap();
    assert_eq!(netrc.macros, vec![Macro("m".into(), "\ncd /tmp\nquit".into())]);
}

#[test]
fn macdef_resets_current_target() {
    // A field keyword right after a macro block has no machine to attach to,
    // even though one was active before the macro.
    let input = "machine a login x macdef m\n\npassword y";
    let err = Netrc::parse(chars(input)).unwrap_err();
    assert_eq!(err.msg, "No machine defined for password");
    assert_eq!(err.line, 3);
}

#[test]
fn blank_lines_count_toward_line_numbers() {
    let input = "machine a\n\n\n\nfoo";
    let err = Netrc::parse(chars(input)).unwrap_err();
    assert_eq!(err.msg, "Unknown entry `foo'");
    assert_eq!(err.line, 5);
}

#[test]
fn eof_error_counts_trailing_blank_lines() {
    let input = "machine a login\n";
    let err = Netrc::parse(chars(input)).unwrap_err();
    assert_eq!(err.msg, "Unexpected end of file");
    assert_eq!(err.line, 1);
}

#[test]
fn machine_without_name_is_eof_error() {
    let input = "machine";
    let err = Netrc::parse(chars(input)).unwrap_err();
    assert_eq!(err.msg, "Unexpected end of file");
    assert_eq!(err.line, 1);
}

#[test]
fn port_bounds() {
    let ok = Netrc::parse(chars("machine a port 65535")).unwrap();
    assert_eq!(ok.hosts[0].1.port, Some(65535));

    let err = Netrc::parse(chars("machine a port 65536")).unwrap_err();
    assert_eq!(err.msg, "Unable to parse port number `65536'");
    assert_eq!(err.line, 1);
}

#[test]
fn port_with_leading_plus_and_zeros() {
    let netrc = Netrc::parse(chars("machine a port +0042")).unwrap();
    assert_eq!(netrc.hosts[0].1.port, Some(42));
}

#[test]
fn port_error_line_is_where_port_stands() {
    let input = "machine a\nlogin b\nport quux";
    let err = Netrc::parse(chars(input)).unwrap_err();
    assert_eq!(err.msg, "Unable to parse port number `quux'");
    assert_eq!(err.line, 3);
}

#[test]
fn port_error_names_keyword_line_not_argument_line() {
    // The argument sits on the next physical line: the failure is still
    // reported at the line containing `port`.
    let input = "machine a port\nquux";
    let err = Netrc::parse(chars(input)).unwrap_err();
    assert_eq!(err.msg, "Unable to parse port number `quux'");
    assert_eq!(err.line, 1);
}

#[test]
fn no_machine_error_for_each_field_keyword() {
    for kw in ["login", "password", "account", "port"] {
        let err = Netrc::parse(chars(&format!("{} x", kw))).unwrap_err();
        assert_eq!(err.msg, format!("No machine defined for {}", kw));
        assert_eq!(err.line, 1);
    }
}

#[test]
fn parsing_twice_gives_equal_results() {
    let input = "machine a login b password c\nmacdef m\nx\n\ndefault login d";
    let first = Netrc::from_str(input).unwrap();
    let second = Netrc::from_str(input).unwrap();
    assert_eq!(first, second);
}

#[test]
fn later_field_overwrites_earlier() {
    let netrc = Netrc::parse(chars("machine a login one login two")).unwrap();
    assert_eq!(netrc.hosts[0].1.login, "two");
}

#[test]
fn default_supersedes_current_machine() {
    let input = "machine a login one default login two";
    let netrc = Netrc::parse(chars(input)).unwrap();
    assert_eq!(netrc.hosts[0].1.login, "one");
    assert_eq!(netrc.default, Some(Machine { login: "two".into(), ..Default::default() }));
}
