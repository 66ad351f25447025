use std::str::FromStr;

use netrc::netrc::{Host, Machine, Macro, Netrc};

fn chars(s: &str) -> Vec<char> {
    s.chars().collect()
}

#[test]
fn parse_simple() {
    let input = "machine example.com
                         login test
                         password p@ssw0rd
                         port 42";
    let netrc = Netrc::parse(chars(input)).unwrap();
    let expected = Netrc {
        hosts: vec![Host(
            "example.com".into(),
            Machine {
                login: "test".into(),
                password: Some("p@ssw0rd".into()),
                port: Some(42),
                ..Default::default()
            },
        )],
        ..Default::default()
    };
    assert_eq!(netrc, expected);
}

#[test]
fn parse_macdef() {
    let input = "machine host1.com login login1
                 macdef uploadtest
                        cd /pub/tests
                        bin
                        put filename.tar.gz
                        quit

                 machine host2.com login login2";
    let netrc = Netrc::from_str(input).unwrap();

    let expected_macro = Macro(
        "uploadtest".into(),
        "
                        cd /pub/tests
                        bin
                        put filename.tar.gz
                        quit\n\n"
            .into(),
    );
    let expected_hosts = vec![
        Host(
            "host1.com".into(),
            Machine { login: "login1".into(), ..Default::default() },
        ),
        Host(
            "host2.com".into(),
            Machine { login: "login2".into(), ..Default::default() },
        ),
    ];

    let expected = Netrc {
        hosts: expected_hosts,
        macros: vec![expected_macro],
        ..Default::default()
    };

    assert_eq!(netrc, expected);
}

#[test]
fn parse_default() {
    let input = "machine example.com login test
                 default login def";
    let netrc = Netrc::parse(chars(input)).unwrap();

    let expected = Netrc {
        hosts: vec![Host(
            "example.com".into(),
            Machine { login: "test".into(), ..Default::default() },
        )],
        default: Some(Machine { login: "def".into(), ..Default::default() }),
        ..Default::default()
    };

    assert_eq!(netrc, expected);
}

#[test]
fn parse_error_unknown_entry() {
    let input = "machine foobar.com
                         foo";
    let err = Netrc::parse(chars(input)).unwrap_err();
    assert_eq!(err.msg, "Unknown entry `foo'");
    assert_eq!(err.line, 2);
}

#[test]
fn parse_error_unexpected_eof() {
    let input = "machine foobar.com
                         password quux
                         login";
    let err = Netrc::parse(chars(input)).unwrap_err();
    assert_eq!(err.msg, "Unexpected end of file");
    assert_eq!(err.line, 3);
}

#[test]
fn parse_error_no_machine() {
    let input = "password quux login foo";
    let err = Netrc::parse(chars(input)).unwrap_err();
    assert_eq!(err.msg, "No machine defined for password");
    assert_eq!(err.line, 1);
}

#[test]
fn parse_error_port() {
    let input = "machine foo.com login bar port quux";
    let err = Netrc::parse(chars(input)).unwrap_err();
    assert_eq!(err.msg, "Unable to parse port number `quux'");
    assert_eq!(err.line, 1);
}
