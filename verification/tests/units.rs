use netrc::lexer::Lexer;
use netrc::netrc::{Machine, MachineRef, Netrc};
use netrc::tokens::Tokens;

fn chars(s: &str) -> Vec<char> {
    s.chars().collect()
}

#[test]
fn tokens_split_on_whitespace() {
    let mut t = Tokens::new(chars("  one\ttwo  three "));
    assert_eq!(t.next(), Some("one".to_owned()));
    assert_eq!(t.next(), Some("two".to_owned()));
    assert_eq!(t.next(), Some("three".to_owned()));
    assert_eq!(t.next(), None);
}

#[test]
fn tokens_empty_line_yields_no_words() {
    let mut t = Tokens::empty();
    assert_eq!(t.next(), None);
    let mut ws = Tokens::new(chars("   \t "));
    assert_eq!(ws.next(), None);
}

#[test]
fn tokens_remaining_is_unconsumed_text() {
    let mut t = Tokens::new(chars("name rest of line"));
    assert_eq!(t.next(), Some("name".to_owned()));
    assert_eq!(t.remaining(), chars(" rest of line"));
}

#[test]
fn lexer_words_cross_line_boundaries() {
    let mut lx = Lexer::new(chars("one two\n\nthree\n"));
    assert_eq!(lx.next_word(), Some("one".to_owned()));
    assert_eq!(lx.lnum(), 1);
    assert_eq!(lx.next_word(), Some("two".to_owned()));
    assert_eq!(lx.lnum(), 1);
    assert_eq!(lx.next_word(), Some("three".to_owned()));
    assert_eq!(lx.lnum(), 3);
    assert_eq!(lx.next_word(), None);
}

#[test]
fn lexer_read_line_counts_every_line_once() {
    let mut lx = Lexer::new(chars("a\n\nb"));
    let mut buf: Vec<char> = Vec::new();
    assert_eq!(lx.read_line(&mut buf), 2);
    assert_eq!(lx.lnum(), 1);
    assert_eq!(lx.read_line(&mut buf), 1);
    assert_eq!(lx.lnum(), 2);
    assert_eq!(lx.read_line(&mut buf), 1);
    assert_eq!(lx.lnum(), 3);
    assert_eq!(lx.read_line(&mut buf), 0);
    assert_eq!(lx.lnum(), 3);
    assert_eq!(buf, chars("a\n\nb"));
}

#[test]
fn lexer_next_word_or_err_reports_eof() {
    let mut lx = Lexer::new(chars("word\n\n"));
    assert_eq!(lx.next_word_or_err().unwrap(), "word");
    let e = lx.next_word_or_err().unwrap_err();
    assert_eq!(e.msg, "Unexpected end of file");
    assert_eq!(e.line, 2);
}

#[test]
fn lexer_subcommands_capture_through_blank_line() {
    let mut lx = Lexer::new(chars("head tail\nbody line\n\nafter"));
    assert_eq!(lx.next_word(), Some("head".to_owned()));
    let body = lx.next_subcommands();
    assert_eq!(body, " tail\nbody line\n\n");
    assert_eq!(lx.next_word(), Some("after".to_owned()));
}

#[test]
fn find_machine_resolves_reference() {
    let netrc = Netrc::parse(chars("machine a login x default login d")).unwrap();
    assert_eq!(netrc.find_machine(&MachineRef::Nothing), None);
    assert_eq!(
        netrc.find_machine(&MachineRef::Default),
        Some(&Machine { login: "d".into(), ..Default::default() })
    );
    assert_eq!(
        netrc.find_machine(&MachineRef::Host(0)),
        Some(&Machine { login: "x".into(), ..Default::default() })
    );
}
