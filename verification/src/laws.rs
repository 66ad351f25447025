//! Proved laws of the parser: statements that hold of every input of a given
//! shape, checked against the reference parser [`crate::netrc::spec_parse`],
//! which the executable parser is proved to return exactly.

use vstd::prelude::*;

use crate::error::ParseErrorView;
use crate::lexer::{
    capture, empty_tokens, lex_next_word, lexer_wf, line_end, refilled, LexerView,
};
use crate::netrc::{
    default_machine, empty_netrc, eof_err, is_field_keyword, lemma_keywords_distinct, resolve,
    spec_dispatch, spec_parse, spec_parse_loop, HostView, MachineRef, MachineView, MacroView,
    NetrcView,
};
use crate::port::{all_digits, dec_value, is_digit, spec_parse_u16};
use crate::text::is_ws;
use crate::tokens::{skip_ws, token_next, word_end, TokensView};

verus! {

broadcast use vstd::string::group_string_axioms;

/// A word occupies a line from a run of whitespace `[cur, m)` to a boundary
/// `j` that ends the line or is whitespace again.
pub open spec fn word_at(buf: Seq<char>, cur: int, m: int, j: int) -> bool {
    &&& 0 <= cur <= m < j <= buf.len()
    &&& (forall|k: int| cur <= k < m ==> is_ws(buf[k]))
    &&& (forall|k: int| m <= k < j ==> !is_ws(buf[k]))
    &&& (j == buf.len() || is_ws(buf[j]))
}

proof fn lemma_skip_ws_at(buf: Seq<char>, cur: int, m: int)
    requires
        0 <= cur <= m <= buf.len(),
        forall|k: int| cur <= k < m ==> is_ws(buf[k]),
        m == buf.len() || !is_ws(buf[m]),
    ensures
        skip_ws(buf, cur) == m,
    decreases m - cur,
{
    if cur < m {
        lemma_skip_ws_at(buf, cur + 1, m);
    }
}

proof fn lemma_word_end_at(buf: Seq<char>, i: int, j: int)
    requires
        0 <= i <= j <= buf.len(),
        forall|k: int| i <= k < j ==> !is_ws(buf[k]),
        j == buf.len() || is_ws(buf[j]),
    ensures
        word_end(buf, i) == j,
    decreases j - i,
{
    if i < j {
        lemma_word_end_at(buf, i + 1, j);
    }
}

/// The tokenizer yields exactly the word spanning `[m, j)`.
proof fn lemma_token_at(t: TokensView, m: int, j: int)
    requires
        word_at(t.buf, t.cur, m, j),
    ensures
        token_next(t) == (Some(t.buf.subrange(m, j)), TokensView { buf: t.buf, cur: j }),
{
    lemma_skip_ws_at(t.buf, t.cur, m);
    lemma_word_end_at(t.buf, m, j);
}

/// The lexer, with its whole input already on the current line, yields
/// exactly the word spanning `[m, j)`.
proof fn lemma_lex_word_at(lx: LexerView, m: int, j: int)
    requires
        lexer_wf(lx),
        word_at(lx.line.buf, lx.line.cur, m, j),
    ensures
        lex_next_word(lx) == (
            Some(lx.line.buf.subrange(m, j)),
            LexerView {
                input: lx.input,
                pos: lx.pos,
                line: TokensView { buf: lx.line.buf, cur: j },
                lnum: lx.lnum,
            },
        ),
{
    lemma_token_at(lx.line, m, j);
}

proof fn lemma_line_end_at(s: Seq<char>, pos: int, q: int)
    requires
        0 <= pos <= q < s.len(),
        forall|k: int| pos <= k < q ==> s[k] != '\n',
        s[q] == '\n',
    ensures
        line_end(s, pos) == q + 1,
    decreases q - pos,
{
    if pos < q {
        lemma_line_end_at(s, pos + 1, q);
    }
}

proof fn lemma_line_end_no_newline(s: Seq<char>, pos: int)
    requires
        0 <= pos <= s.len(),
        forall|k: int| pos <= k < s.len() ==> s[k] != '\n',
    ensures
        line_end(s, pos) == s.len(),
    decreases s.len() - pos,
{
    if pos < s.len() {
        lemma_line_end_no_newline(s, pos + 1);
    }
}

/// Parsing is a function of the input text alone: any two outcomes of
/// parsing the same input are structurally equal.
pub proof fn lemma_parse_deterministic(
    input: Seq<char>,
    r1: Result<NetrcView, ParseErrorView>,
    r2: Result<NetrcView, ParseErrorView>,
)
    requires
        r1 == spec_parse(input),
        r2 == spec_parse(input),
    ensures
        r1 == r2,
{
}

/// The `default` entry and every field keyword applied while the default
/// record (or nothing) is current leave the host list untouched.
pub proof fn lemma_default_entries_leave_hosts(
    n: NetrcView,
    lx: LexerView,
    word: Seq<char>,
    cur: MachineRef,
)
    requires
        lexer_wf(lx),
        !(cur is Host),
        word == "default"@ || word == "login"@ || word == "password"@ || word == "account"@
            || word == "port"@,
    ensures
        (match spec_dispatch(n, lx, word, cur) {
            Ok((n2, _, _)) => n2.hosts == n.hosts,
            Err(_) => true,
        }),
{
    lemma_keywords_distinct();
}

/// A keyword that requires an argument, standing where the input has no
/// further word, fails with `Unexpected end of file` and the line count at
/// the point consumption failed — for a field keyword, provided a machine is
/// active (otherwise the target check fails first). This holds of every
/// input and every lexer state, so in particular of a trailing keyword at
/// the end of a whole input.
pub proof fn lemma_trailing_keyword_eof(
    n: NetrcView,
    lx: LexerView,
    word: Seq<char>,
    cur: MachineRef,
)
    requires
        lexer_wf(lx),
        lex_next_word(lx).0 is None,
        word == "machine"@ || word == "macdef"@ || (is_field_keyword(word) && resolve(n, cur)
            is Some),
    ensures
        spec_dispatch(n, lx, word, cur) == Err::<(NetrcView, LexerView, MachineRef), _>(
            eof_err(lex_next_word(lx).1.lnum),
        ),
{
    lemma_keywords_distinct();
}

/// Entries accumulate one at a time, in order: a successful dispatch keeps
/// every host already present (same position, same name) and appends a new
/// host exactly for `machine`, named by its argument; it keeps every macro
/// already present verbatim and appends a new macro exactly for `macdef`,
/// named by its argument. So consecutive `machine` or `macdef` entries yield
/// distinct entries in textual order, with no dedup or merge.
pub proof fn lemma_entries_accumulate(n: NetrcView, lx: LexerView, word: Seq<char>, cur: MachineRef)
    requires
        lexer_wf(lx),
    ensures
        (match spec_dispatch(n, lx, word, cur) {
            Ok((n2, lx2, c2)) => {
                &&& n.hosts.len() <= n2.hosts.len() <= n.hosts.len() + 1
                &&& (forall|j: int|
                    0 <= j < n.hosts.len() ==> #[trigger] n2.hosts[j].name == n.hosts[j].name)
                &&& (n2.hosts.len() == n.hosts.len() + 1 <==> word == "machine"@)
                &&& (word == "machine"@ ==> n2.hosts.last().name == lex_next_word(lx).0.unwrap()
                    && n2.hosts.last().machine == default_machine())
                &&& (word == "macdef"@ ==> n2.macros.len() == n.macros.len() + 1 && (forall|j: int|
                    0 <= j < n.macros.len() ==> #[trigger] n2.macros[j] == n.macros[j])
                    && n2.macros.last().name == lex_next_word(lx).0.unwrap())
                &&& (word != "macdef"@ ==> n2.macros == n.macros)
            },
            Err(_) => true,
        }),
{
    lemma_keywords_distinct();
}

/// A word of text: non-empty and free of whitespace, so the tokenizer hands
/// it back whole.
pub open spec fn is_word(w: Seq<char>) -> bool {
    w.len() > 0 && (forall|i: int| 0 <= i < w.len() ==> !is_ws(w[i]))
}

/// A run of separating whitespace: non-empty, whitespace throughout, and
/// free of line terminators (so the entry stays on one physical line).
pub open spec fn is_sep(w: Seq<char>) -> bool {
    w.len() > 0 && (forall|i: int| 0 <= i < w.len() ==> is_ws(w[i]) && w[i] != '\n')
}

/// For any well-formed input of one `machine <h>` followed by `login <l>`,
/// `password <p>` and `port <d>` (`<d>` denoting at most 65535), the words
/// separated by arbitrary whitespace runs, the parse succeeds with exactly
/// one host, named `<h>`, holding that login, password and port, and with no
/// default and no macros.
#[verifier::rlimit(100)]
pub proof fn lemma_single_machine_entry(
    w1: Seq<char>,
    w2: Seq<char>,
    w3: Seq<char>,
    w4: Seq<char>,
    w5: Seq<char>,
    w6: Seq<char>,
    w7: Seq<char>,
    h: Seq<char>,
    l: Seq<char>,
    p: Seq<char>,
    d: Seq<char>,
)
    requires
        is_sep(w1) && is_sep(w2) && is_sep(w3) && is_sep(w4) && is_sep(w5) && is_sep(w6)
            && is_sep(w7),
        is_word(h),
        is_word(l),
        is_word(p),
        d.len() > 0,
        all_digits(d),
        dec_value(d) <= 65535,
    ensures
        spec_parse(
            "machine"@ + w1 + h + w2 + "login"@ + w3 + l + w4 + "password"@ + w5 + p + w6
                + "port"@ + w7 + d,
        ) == Ok::<NetrcView, ParseErrorView>(
            NetrcView {
                hosts: seq![
                    HostView {
                        name: h,
                        machine: MachineView {
                            login: l,
                            password: Some(p),
                            account: None,
                            port: Some(dec_value(d) as u16),
                        },
                    },
                ],
                default: None,
                macros: Seq::<MacroView>::empty(),
            },
        ),
{
    lemma_keywords_distinct();
    reveal_strlit("machine");
    reveal_strlit("login");
    reveal_strlit("password");
    reveal_strlit("port");
    assert("machine"@.len() == 7 && "login"@.len() == 5 && "password"@.len() == 8
        && "port"@.len() == 4);
    assert(!is_ws('m') && !is_ws('a') && !is_ws('c') && !is_ws('h') && !is_ws('i') && !is_ws('n')
        && !is_ws('e') && !is_ws('l') && !is_ws('o') && !is_ws('g') && !is_ws('p') && !is_ws('s')
        && !is_ws('w') && !is_ws('r') && !is_ws('d') && !is_ws('t'));
    assert(forall|k: int| 0 <= k < 7 ==> !is_ws("machine"@[k]) && #[trigger] "machine"@[k]
        != '\n');
    assert(forall|k: int| 0 <= k < 5 ==> !is_ws("login"@[k]) && #[trigger] "login"@[k] != '\n');
    assert(forall|k: int| 0 <= k < 8 ==> !is_ws("password"@[k]) && #[trigger] "password"@[k]
        != '\n');
    assert(forall|k: int| 0 <= k < 4 ==> !is_ws("port"@[k]) && #[trigger] "port"@[k] != '\n');

    let s = "machine"@ + w1 + h + w2 + "login"@ + w3 + l + w4 + "password"@ + w5 + p + w6
        + "port"@ + w7 + d;
    let o2 = 7 + w1.len() as int;
    let o3 = o2 + h.len() as int;
    let o4 = o3 + w2.len() as int;
    let o5 = o4 + 5;
    let o6 = o5 + w3.len() as int;
    let o7 = o6 + l.len() as int;
    let o8 = o7 + w4.len() as int;
    let o9 = o8 + 8;
    let o10 = o9 + w5.len() as int;
    let o11 = o10 + p.len() as int;
    let o12 = o11 + w6.len() as int;
    let o13 = o12 + 4;
    let o14 = o13 + w7.len() as int;
    let o15 = o14 + d.len() as int;
    assert(s.len() == o15);

    assert forall|k: int| 0 <= k < d.len() implies !is_ws(d[k]) && d[k] != '+' && d[k] != '\n' by {
        assert(is_digit(d[k]));
    }

    // Where each piece of the input stands.
    assert forall|k: int| 0 <= k < 7 implies s[k] == "machine"@[k] by {}
    assert forall|k: int| 7 <= k < o2 implies s[k] == w1[k - 7] by {}
    assert forall|k: int| o2 <= k < o3 implies s[k] == h[k - o2] by {}
    assert forall|k: int| o3 <= k < o4 implies s[k] == w2[k - o3] by {}
    assert forall|k: int| o4 <= k < o5 implies s[k] == "login"@[k - o4] by {}
    assert forall|k: int| o5 <= k < o6 implies s[k] == w3[k - o5] by {}
    assert forall|k: int| o6 <= k < o7 implies s[k] == l[k - o6] by {}
    assert forall|k: int| o7 <= k < o8 implies s[k] == w4[k - o7] by {}
    assert forall|k: int| o8 <= k < o9 implies s[k] == "password"@[k - o8] by {}
    assert forall|k: int| o9 <= k < o10 implies s[k] == w5[k - o9] by {}
    assert forall|k: int| o10 <= k < o11 implies s[k] == p[k - o10] by {}
    assert forall|k: int| o11 <= k < o12 implies s[k] == w6[k - o11] by {}
    assert forall|k: int| o12 <= k < o13 implies s[k] == "port"@[k - o12] by {}
    assert forall|k: int| o13 <= k < o14 implies s[k] == w7[k - o13] by {}
    assert forall|k: int| o14 <= k < o15 implies s[k] == d[k - o14] by {}

    // The input is a single physical line.
    assert forall|k: int| 0 <= k < s.len() implies s[k] != '\n' by {}
    lemma_line_end_no_newline(s, 0);

    // The first pull refills the lexer with the whole input as one line.
    let n0 = empty_netrc();
    let lx0 = LexerView { input: s, pos: 0, line: empty_tokens(), lnum: 0 };
    let lx1 = LexerView {
        input: s,
        pos: s.len() as int,
        line: TokensView { buf: s, cur: 0 },
        lnum: 1,
    };
    assert(spec_parse(s) == spec_parse_loop(n0, lx0, MachineRef::Nothing));
    lemma_skip_ws_at(lx0.line.buf, 0, 0);
    assert(token_next(lx0.line).0 is None);
    assert(refilled(lx0).line.buf =~= s);
    assert(refilled(lx0) == lx1);
    assert(lex_next_word(lx0) == lex_next_word(lx1));

    // `machine`, then the host name.
    assert(word_at(s, 0, 0, 7));
    lemma_lex_word_at(lx1, 0, 7);
    assert(s.subrange(0, 7) =~= "machine"@);
    let lx2 = LexerView { input: s, pos: s.len() as int, line: TokensView { buf: s, cur: 7 }, lnum: 1 };
    assert(lex_next_word(lx0) == (Some("machine"@), lx2));

    assert(word_at(s, 7, o2, o3));
    lemma_lex_word_at(lx2, o2, o3);
    assert(s.subrange(o2, o3) =~= h);
    let lx3 = LexerView {
        input: s,
        pos: s.len() as int,
        line: TokensView { buf: s, cur: o3 },
        lnum: 1,
    };
    let n1 = NetrcView {
        hosts: seq![HostView { name: h, machine: default_machine() }],
        default: None,
        macros: Seq::<MacroView>::empty(),
    };
    assert(n0.hosts.push(HostView { name: h, machine: default_machine() }) =~= n1.hosts);
    assert(spec_dispatch(n0, lx2, "machine"@, MachineRef::Nothing) == Ok::<
        _,
        ParseErrorView,
    >((n1, lx3, MachineRef::Host(0))));
    assert(spec_parse_loop(n0, lx0, MachineRef::Nothing) == spec_parse_loop(
        n1,
        lx3,
        MachineRef::Host(0),
    ));

    // `login`, then its value.
    assert(word_at(s, o3, o4, o5));
    lemma_lex_word_at(lx3, o4, o5);
    assert(s.subrange(o4, o5) =~= "login"@);
    let lx4 = LexerView {
        input: s,
        pos: s.len() as int,
        line: TokensView { buf: s, cur: o5 },
        lnum: 1,
    };
    assert(word_at(s, o5, o6, o7));
    lemma_lex_word_at(lx4, o6, o7);
    assert(s.subrange(o6, o7) =~= l);
    let lx5 = LexerView {
        input: s,
        pos: s.len() as int,
        line: TokensView { buf: s, cur: o7 },
        lnum: 1,
    };
    let m1 = MachineView { login: l, password: None, account: None, port: None };
    let n2 = NetrcView { hosts: seq![HostView { name: h, machine: m1 }], default: None, macros: Seq::<MacroView>::empty() };
    assert(n1.hosts.update(0, HostView { name: h, machine: m1 }) =~= n2.hosts);
    assert(spec_dispatch(n1, lx4, "login"@, MachineRef::Host(0)) == Ok::<_, ParseErrorView>((
        n2,
        lx5,
        MachineRef::Host(0),
    )));
    assert(spec_parse_loop(n1, lx3, MachineRef::Host(0)) == spec_parse_loop(
        n2,
        lx5,
        MachineRef::Host(0),
    ));

    // The later entries are handled by the tail lemma, which picks up at the
    // state just after `login` was applied.
    lemma_single_machine_entry_tail(w1, w2, w3, w4, w5, w6, w7, h, l, p, d);
}

/// The tail of [`lemma_single_machine_entry`]: from the state just after
/// `login <l>` was applied, the `password` and `port` entries are dispatched
/// and the parse stops cleanly at end of input.
#[verifier::rlimit(100)]
proof fn lemma_single_machine_entry_tail(
    w1: Seq<char>,
    w2: Seq<char>,
    w3: Seq<char>,
    w4: Seq<char>,
    w5: Seq<char>,
    w6: Seq<char>,
    w7: Seq<char>,
    h: Seq<char>,
    l: Seq<char>,
    p: Seq<char>,
    d: Seq<char>,
)
    requires
        is_sep(w1) && is_sep(w2) && is_sep(w3) && is_sep(w4) && is_sep(w5) && is_sep(w6)
            && is_sep(w7),
        is_word(h),
        is_word(l),
        is_word(p),
        d.len() > 0,
        all_digits(d),
        dec_value(d) <= 65535,
    ensures
        ({
            let s = "machine"@ + w1 + h + w2 + "login"@ + w3 + l + w4 + "password"@ + w5 + p + w6
                + "port"@ + w7 + d;
            let o7 = 12 + w1.len() + h.len() + w2.len() + w3.len() + l.len();
            spec_parse_loop(
                NetrcView {
                    hosts: seq![
                        HostView {
                            name: h,
                            machine: MachineView {
                                login: l,
                                password: None,
                                account: None,
                                port: None,
                            },
                        },
                    ],
                    default: None,
                    macros: Seq::<MacroView>::empty(),
                },
                LexerView {
                    input: s,
                    pos: s.len() as int,
                    line: TokensView { buf: s, cur: o7 as int },
                    lnum: 1,
                },
                MachineRef::Host(0),
            ) == Ok::<NetrcView, ParseErrorView>(
                NetrcView {
                    hosts: seq![
                        HostView {
                            name: h,
                            machine: MachineView {
                                login: l,
                                password: Some(p),
                                account: None,
                                port: Some(dec_value(d) as u16),
                            },
                        },
                    ],
                    default: None,
                    macros: Seq::<MacroView>::empty(),
                },
            )
        }),
{
    lemma_keywords_distinct();
    reveal_strlit("machine");
    reveal_strlit("login");
    reveal_strlit("password");
    reveal_strlit("port");
    assert("machine"@.len() == 7 && "login"@.len() == 5 && "password"@.len() == 8
        && "port"@.len() == 4);
    assert(!is_ws('p') && !is_ws('a') && !is_ws('s') && !is_ws('w') && !is_ws('o') && !is_ws('r')
        && !is_ws('d') && !is_ws('t'));
    assert(forall|k: int| 0 <= k < 8 ==> !is_ws(#[trigger] "password"@[k]));
    assert(forall|k: int| 0 <= k < 4 ==> !is_ws(#[trigger] "port"@[k]));

    let s = "machine"@ + w1 + h + w2 + "login"@ + w3 + l + w4 + "password"@ + w5 + p + w6
        + "port"@ + w7 + d;
    let o7 = 12 + w1.len() as int + h.len() as int + w2.len() as int + w3.len() as int + l.len() as int;
    let o8 = o7 + w4.len() as int;
    let o9 = o8 + 8;
    let o10 = o9 + w5.len() as int;
    let o11 = o10 + p.len() as int;
    let o12 = o11 + w6.len() as int;
    let o13 = o12 + 4;
    let o14 = o13 + w7.len() as int;
    let o15 = o14 + d.len() as int;
    assert(s.len() == o15);

    assert forall|k: int| 0 <= k < d.len() implies !is_ws(d[k]) && d[k] != '+' by {
        assert(is_digit(d[k]));
    }

    // Where the pieces past `login`'s value stand.
    assert forall|k: int| o7 <= k < o8 implies s[k] == w4[k - o7] by {}
    assert forall|k: int| o8 <= k < o9 implies s[k] == "password"@[k - o8] by {}
    assert forall|k: int| o9 <= k < o10 implies s[k] == w5[k - o9] by {}
    assert forall|k: int| o10 <= k < o11 implies s[k] == p[k - o10] by {}
    assert forall|k: int| o11 <= k < o12 implies s[k] == w6[k - o11] by {}
    assert forall|k: int| o12 <= k < o13 implies s[k] == "port"@[k - o12] by {}
    assert forall|k: int| o13 <= k < o14 implies s[k] == w7[k - o13] by {}
    assert forall|k: int| o14 <= k < o15 implies s[k] == d[k - o14] by {}

    let m1 = MachineView { login: l, password: None, account: None, port: None };
    let n2 = NetrcView {
        hosts: seq![HostView { name: h, machine: m1 }],
        default: None,
        macros: Seq::<MacroView>::empty(),
    };
    let lx5 = LexerView {
        input: s,
        pos: s.len() as int,
        line: TokensView { buf: s, cur: o7 },
        lnum: 1,
    };

    // `password`, then its value.
    assert(word_at(s, o7, o8, o9));
    lemma_lex_word_at(lx5, o8, o9);
    assert(s.subrange(o8, o9) =~= "password"@);
    let lx6 = LexerView {
        input: s,
        pos: s.len() as int,
        line: TokensView { buf: s, cur: o9 },
        lnum: 1,
    };
    assert(word_at(s, o9, o10, o11));
    lemma_lex_word_at(lx6, o10, o11);
    assert(s.subrange(o10, o11) =~= p);
    let lx7 = LexerView {
        input: s,
        pos: s.len() as int,
        line: TokensView { buf: s, cur: o11 },
        lnum: 1,
    };
    let m2 = MachineView { login: l, password: Some(p), account: None, port: None };
    let n3 = NetrcView { hosts: seq![HostView { name: h, machine: m2 }], default: None, macros: Seq::<MacroView>::empty() };
    assert(n2.hosts.update(0, HostView { name: h, machine: m2 }) =~= n3.hosts);
    assert(spec_dispatch(n2, lx6, "password"@, MachineRef::Host(0)) == Ok::<_, ParseErrorView>((
        n3,
        lx7,
        MachineRef::Host(0),
    )));
    assert(spec_parse_loop(n2, lx5, MachineRef::Host(0)) == spec_parse_loop(
        n3,
        lx7,
        MachineRef::Host(0),
    ));

    // `port`, then its value.
    assert(word_at(s, o11, o12, o13));
    lemma_lex_word_at(lx7, o12, o13);
    assert(s.subrange(o12, o13) =~= "port"@);
    let lx8 = LexerView {
        input: s,
        pos: s.len() as int,
        line: TokensView { buf: s, cur: o13 },
        lnum: 1,
    };
    assert(word_at(s, o13, o14, o15));
    lemma_lex_word_at(lx8, o14, o15);
    assert(s.subrange(o14, o15) =~= d);
    let lx9 = LexerView {
        input: s,
        pos: s.len() as int,
        line: TokensView { buf: s, cur: o15 },
        lnum: 1,
    };
    assert(spec_parse_u16(d) == Some(dec_value(d) as u16));
    let m3 = MachineView {
        login: l,
        password: Some(p),
        account: None,
        port: Some(dec_value(d) as u16),
    };
    let n4 = NetrcView { hosts: seq![HostView { name: h, machine: m3 }], default: None, macros: Seq::<MacroView>::empty() };
    assert(n3.hosts.update(0, HostView { name: h, machine: m3 }) =~= n4.hosts);
    assert(spec_dispatch(n3, lx8, "port"@, MachineRef::Host(0)) == Ok::<_, ParseErrorView>((
        n4,
        lx9,
        MachineRef::Host(0),
    )));
    assert(spec_parse_loop(n3, lx7, MachineRef::Host(0)) == spec_parse_loop(
        n4,
        lx9,
        MachineRef::Host(0),
    ));

    // End of input at a word boundary: the parse stops cleanly.
    lemma_skip_ws_at(s, o15, s.len() as int);
    assert(token_next(lx9.line).0 is None);
    assert(spec_parse_loop(n4, lx9, MachineRef::Host(0)) == Ok::<_, ParseErrorView>(n4));
}

/// A `default <field> <v>` input with no preceding `machine` sets that
/// field of the aggregate's default record and leaves the host list empty,
/// for each of the four field keywords.
#[verifier::rlimit(100)]
pub proof fn lemma_default_field_sets_default(f: Seq<char>, v: Seq<char>)
    requires
        f == "login"@ || f == "password"@ || f == "account"@ || f == "port"@,
        is_word(v),
        f == "port"@ ==> all_digits(v) && dec_value(v) <= 65535,
    ensures
        spec_parse("default "@ + f + " "@ + v) == Ok::<NetrcView, ParseErrorView>(
            NetrcView {
                hosts: Seq::<HostView>::empty(),
                default: Some(
                    if f == "login"@ {
                        MachineView { login: v, password: None, account: None, port: None }
                    } else if f == "password"@ {
                        MachineView {
                            login: Seq::<char>::empty(),
                            password: Some(v),
                            account: None,
                            port: None,
                        }
                    } else if f == "account"@ {
                        MachineView {
                            login: Seq::<char>::empty(),
                            password: None,
                            account: Some(v),
                            port: None,
                        }
                    } else {
                        MachineView {
                            login: Seq::<char>::empty(),
                            password: None,
                            account: None,
                            port: Some(dec_value(v) as u16),
                        }
                    },
                ),
                macros: Seq::<MacroView>::empty(),
            },
        ),
{
    lemma_keywords_distinct();
    reveal_strlit("default ");
    reveal_strlit(" ");
    reveal_strlit("default");
    reveal_strlit("login");
    reveal_strlit("password");
    reveal_strlit("account");
    reveal_strlit("port");

    let a = "default "@;
    let sp = " "@;
    assert(a.len() == 8 && a[0] == 'd' && a[1] == 'e' && a[2] == 'f' && a[3] == 'a' && a[4] == 'u'
        && a[5] == 'l' && a[6] == 't' && a[7] == ' ');
    assert(sp.len() == 1 && sp[0] == ' ');
    assert("login"@[0] == 'l' && "login"@[1] == 'o' && "login"@[2] == 'g' && "login"@[3] == 'i'
        && "login"@[4] == 'n');
    assert("password"@[0] == 'p' && "password"@[1] == 'a' && "password"@[2] == 's'
        && "password"@[3] == 's' && "password"@[4] == 'w' && "password"@[5] == 'o'
        && "password"@[6] == 'r' && "password"@[7] == 'd');
    assert("account"@[0] == 'a' && "account"@[1] == 'c' && "account"@[2] == 'c'
        && "account"@[3] == 'o' && "account"@[4] == 'u' && "account"@[5] == 'n'
        && "account"@[6] == 't');
    assert("port"@[0] == 'p' && "port"@[1] == 'o' && "port"@[2] == 'r' && "port"@[3] == 't');
    assert(!is_ws('d') && !is_ws('e') && !is_ws('f') && !is_ws('a') && !is_ws('u') && !is_ws('l')
        && !is_ws('t') && !is_ws('o') && !is_ws('g') && !is_ws('i') && !is_ws('n') && !is_ws('p')
        && !is_ws('s') && !is_ws('w') && !is_ws('r') && !is_ws('c'));
    assert(is_word(f));

    let fn_ = f.len() as int;
    let vn = v.len() as int;
    let s = a + f + sp + v;
    assert(s.len() == 9 + fn_ + vn);
    assert forall|k: int| 0 <= k < 8 implies s[k] == a[k] by {}
    assert forall|k: int| 8 <= k < 8 + fn_ implies s[k] == f[k - 8] by {}
    assert(s[8 + fn_] == ' ');
    assert forall|k: int| 9 + fn_ <= k < s.len() implies s[k] == v[k - 9 - fn_] by {}
    assert forall|k: int| 0 <= k < s.len() implies s[k] != '\n' by {
        assert(' ' != '\n');
    }
    lemma_line_end_no_newline(s, 0);

    let n0 = empty_netrc();
    let lx0 = LexerView { input: s, pos: 0, line: empty_tokens(), lnum: 0 };
    let lx1 = LexerView {
        input: s,
        pos: s.len() as int,
        line: TokensView { buf: s, cur: 0 },
        lnum: 1,
    };
    assert(spec_parse(s) == spec_parse_loop(n0, lx0, MachineRef::Nothing));
    lemma_skip_ws_at(lx0.line.buf, 0, 0);
    assert(token_next(lx0.line).0 is None);
    assert(refilled(lx0).line.buf =~= s);
    assert(refilled(lx0) == lx1);
    assert(lex_next_word(lx0) == lex_next_word(lx1));

    // `default`.
    assert(word_at(s, 0, 0, 7));
    lemma_lex_word_at(lx1, 0, 7);
    assert(s.subrange(0, 7) =~= "default"@);
    let lx2 = LexerView { input: s, pos: s.len() as int, line: TokensView { buf: s, cur: 7 }, lnum: 1 };
    let n1 = NetrcView {
        hosts: Seq::<HostView>::empty(),
        default: Some(default_machine()),
        macros: Seq::<MacroView>::empty(),
    };
    assert(spec_dispatch(n0, lx2, "default"@, MachineRef::Nothing) == Ok::<_, ParseErrorView>((
        n1,
        lx2,
        MachineRef::Default,
    )));
    assert(spec_parse_loop(n0, lx0, MachineRef::Nothing) == spec_parse_loop(
        n1,
        lx2,
        MachineRef::Default,
    ));

    // The field keyword, then its value.
    assert(word_at(s, 7, 8, 8 + fn_));
    lemma_lex_word_at(lx2, 8, 8 + fn_);
    assert(s.subrange(8, 8 + fn_) =~= f);
    let lx3 = LexerView {
        input: s,
        pos: s.len() as int,
        line: TokensView { buf: s, cur: 8 + fn_ },
        lnum: 1,
    };
    assert(word_at(s, 8 + fn_, 9 + fn_, 9 + fn_ + vn));
    lemma_lex_word_at(lx3, 9 + fn_, 9 + fn_ + vn);
    assert(s.subrange(9 + fn_, 9 + fn_ + vn) =~= v);
    let lx4 = LexerView {
        input: s,
        pos: s.len() as int,
        line: TokensView { buf: s, cur: 9 + fn_ + vn },
        lnum: 1,
    };
    if f == "port"@ {
        assert(is_digit(v[0]));
        assert(v[0] != '+');
        assert(spec_parse_u16(v) == Some(dec_value(v) as u16));
    }
    let m1 = if f == "login"@ {
        MachineView { login: v, password: None, account: None, port: None }
    } else if f == "password"@ {
        MachineView { login: Seq::<char>::empty(), password: Some(v), account: None, port: None }
    } else if f == "account"@ {
        MachineView { login: Seq::<char>::empty(), password: None, account: Some(v), port: None }
    } else {
        MachineView {
            login: Seq::<char>::empty(),
            password: None,
            account: None,
            port: Some(dec_value(v) as u16),
        }
    };
    let n2 = NetrcView {
        hosts: Seq::<HostView>::empty(),
        default: Some(m1),
        macros: Seq::<MacroView>::empty(),
    };
    assert(spec_dispatch(n1, lx3, f, MachineRef::Default) == Ok::<_, ParseErrorView>((
        n2,
        lx4,
        MachineRef::Default,
    )));
    assert(spec_parse_loop(n1, lx2, MachineRef::Default) == spec_parse_loop(
        n2,
        lx4,
        MachineRef::Default,
    ));

    // End of input at a word boundary.
    lemma_skip_ws_at(s, 9 + fn_ + vn, s.len() as int);
    assert(token_next(lx4.line).0 is None);
    assert(spec_parse_loop(n2, lx4, MachineRef::Default) == Ok::<_, ParseErrorView>(n2));
}

/// One `macdef` block of text: the entry line naming the macro, one body
/// line, and the terminating blank line.
pub open spec fn macro_block(name: Seq<char>, b: Seq<char>) -> Seq<char> {
    "macdef "@ + name + "\n"@ + b + "\n\n"@
}

/// Dispatching a `macdef` block that stands at `pos0` of the input appends
/// exactly one macro — its body the text after the name up to and including
/// the blank line — reads its three lines, and resets the current target.
#[verifier::rlimit(100)]
proof fn lemma_macdef_block(
    n: NetrcView,
    cur: MachineRef,
    s: Seq<char>,
    pos0: int,
    lnum0: int,
    name: Seq<char>,
    b: Seq<char>,
)
    requires
        is_word(name),
        b.len() > 0,
        forall|k: int| 0 <= k < b.len() ==> b[k] != '\n',
        0 <= lnum0 <= pos0,
        pos0 + 10 + name.len() + b.len() <= s.len(),
        s.subrange(pos0, pos0 + 10 + name.len() + b.len()) == macro_block(name, b),
    ensures
        spec_parse_loop(
            n,
            LexerView { input: s, pos: pos0, line: empty_tokens(), lnum: lnum0 },
            cur,
        ) == spec_parse_loop(
            NetrcView {
                macros: n.macros.push(MacroView { name, body: "\n"@ + b + "\n\n"@ }),
                ..n
            },
            LexerView {
                input: s,
                pos: pos0 + 10 + name.len() + b.len(),
                line: empty_tokens(),
                lnum: lnum0 + 3,
            },
            MachineRef::Nothing,
        ),
{
    lemma_keywords_distinct();
    reveal_strlit("macdef ");
    reveal_strlit("macdef");
    reveal_strlit("\n");
    reveal_strlit("\n\n");

    let a = "macdef "@;
    let nl = "\n"@;
    assert(a.len() == 7 && a[0] == 'm' && a[1] == 'a' && a[2] == 'c' && a[3] == 'd' && a[4] == 'e'
        && a[5] == 'f' && a[6] == ' ');
    assert(nl.len() == 1 && nl[0] == '\n');
    assert("\n\n"@.len() == 2 && "\n\n"@[0] == '\n' && "\n\n"@[1] == '\n');
    assert(!is_ws('m') && !is_ws('a') && !is_ws('c') && !is_ws('d') && !is_ws('e') && !is_ws('f'));
    assert(is_ws(' ') && is_ws('\n'));

    let kn = name.len() as int;
    let vn = b.len() as int;
    let blk = macro_block(name, b);
    let bl = 10 + kn + vn;
    assert(blk.len() == bl);
    assert forall|k: int| pos0 <= k < pos0 + bl implies s[k] == blk[k - pos0] by {
        assert(s.subrange(pos0, pos0 + bl)[k - pos0] == s[k]);
    }
    let line1 = a + name + nl;
    assert forall|k: int| 0 <= k < 8 + kn implies blk[k] == line1[k] by {}
    assert forall|k: int| 8 + kn <= k < 8 + kn + vn implies blk[k] == b[k - 8 - kn] by {}
    assert(blk[8 + kn + vn] == '\n' && blk[9 + kn + vn] == '\n');

    let c1 = pos0 + 8 + kn;
    let c2 = c1 + vn + 1;
    let c3 = c2 + 1;

    let lx0 = LexerView { input: s, pos: pos0, line: empty_tokens(), lnum: lnum0 };
    lemma_skip_ws_at(lx0.line.buf, 0, 0);
    assert(token_next(lx0.line).0 is None);

    // The entry line holds `macdef` and the macro name.
    assert forall|k: int| pos0 <= k < c1 - 1 implies s[k] != '\n' by {
        if k - pos0 < 7 {
            assert(line1[k - pos0] == a[k - pos0]);
        } else {
            assert(line1[k - pos0] == name[k - pos0 - 7]);
        }
    }
    assert(s[c1 - 1] == '\n');
    lemma_line_end_at(s, pos0, c1 - 1);
    let lx1 = LexerView {
        input: s,
        pos: c1,
        line: TokensView { buf: line1, cur: 0 },
        lnum: lnum0 + 1,
    };
    assert(refilled(lx0).line.buf =~= line1);
    assert(refilled(lx0) == lx1);
    assert(lex_next_word(lx0) == lex_next_word(lx1));

    assert(word_at(line1, 0, 0, 6));
    lemma_lex_word_at(lx1, 0, 6);
    assert(line1.subrange(0, 6) =~= "macdef"@);
    let lx2 = LexerView {
        input: s,
        pos: c1,
        line: TokensView { buf: line1, cur: 6 },
        lnum: lnum0 + 1,
    };
    assert(lex_next_word(lx0) == (Some("macdef"@), lx2));

    assert(word_at(line1, 6, 7, 7 + kn));
    lemma_lex_word_at(lx2, 7, 7 + kn);
    assert(line1.subrange(7, 7 + kn) =~= name);

    // The capture: the rest of the entry line, the body line, and the
    // terminating blank line, which is itself part of the body.
    let acc0 = line1.subrange(7 + kn, line1.len() as int);
    assert(acc0 =~= nl);
    assert forall|k: int| c1 <= k < c2 - 1 implies s[k] != '\n' by {
        assert(s[k] == b[k - c1]);
    }
    assert(s[c2 - 1] == '\n');
    lemma_line_end_at(s, c1, c2 - 1);
    assert(s.subrange(c1, c2) =~= b + nl);
    lemma_line_end_at(s, c2, c2);
    assert(s.subrange(c2, c3) =~= nl);
    let body = "\n"@ + b + "\n\n"@;
    assert(capture(s, c1, acc0, lnum0 + 1) == capture(s, c2, acc0 + s.subrange(c1, c2), lnum0 + 2));
    assert(capture(s, c2, acc0 + s.subrange(c1, c2), lnum0 + 2) == (
        acc0 + s.subrange(c1, c2) + s.subrange(c2, c3),
        c3,
        lnum0 + 3,
    ));
    assert(acc0 + s.subrange(c1, c2) + s.subrange(c2, c3) =~= body);

    let n2 = NetrcView { macros: n.macros.push(MacroView { name, body }), ..n };
    let lx3 = LexerView { input: s, pos: c3, line: empty_tokens(), lnum: lnum0 + 3 };
    assert(spec_dispatch(n, lx2, "macdef"@, cur) == Ok::<_, ParseErrorView>((
        n2,
        lx3,
        MachineRef::Nothing,
    )));
    assert(spec_parse_loop(n, lx0, cur) == spec_parse_loop(n2, lx3, MachineRef::Nothing));
    assert(c3 == pos0 + bl);
}

/// Two consecutive `macdef` blocks produce two independent macro entries, in
/// order, each body being exactly the text following the macro name up to and
/// including the first blank line.
#[verifier::rlimit(100)]
pub proof fn lemma_two_macro_blocks(n1: Seq<char>, b1: Seq<char>, n2: Seq<char>, b2: Seq<char>)
    requires
        is_word(n1),
        is_word(n2),
        b1.len() > 0,
        b2.len() > 0,
        forall|k: int| 0 <= k < b1.len() ==> b1[k] != '\n',
        forall|k: int| 0 <= k < b2.len() ==> b2[k] != '\n',
    ensures
        spec_parse(
            "macdef "@ + n1 + "\n"@ + b1 + "\n\n"@ + "macdef "@ + n2 + "\n"@ + b2 + "\n\n"@,
        ) == Ok::<NetrcView, ParseErrorView>(
            NetrcView {
                hosts: Seq::<HostView>::empty(),
                default: None,
                macros: seq![
                    MacroView { name: n1, body: "\n"@ + b1 + "\n\n"@ },
                    MacroView { name: n2, body: "\n"@ + b2 + "\n\n"@ },
                ],
            },
        ),
{
    reveal_strlit("macdef ");
    reveal_strlit("\n");
    reveal_strlit("\n\n");
    assert("macdef "@.len() == 7 && "\n"@.len() == 1 && "\n\n"@.len() == 2);
    let blk1 = macro_block(n1, b1);
    let blk2 = macro_block(n2, b2);
    let s = "macdef "@ + n1 + "\n"@ + b1 + "\n\n"@ + "macdef "@ + n2 + "\n"@ + b2 + "\n\n"@;
    assert(s =~= blk1 + blk2);
    let l1 = blk1.len() as int;
    let l2 = blk2.len() as int;
    assert(s.subrange(0, l1) =~= blk1);
    assert(s.subrange(l1, l1 + l2) =~= blk2);

    let n0 = empty_netrc();
    let lx0 = LexerView { input: s, pos: 0, line: empty_tokens(), lnum: 0 };
    assert(spec_parse(s) == spec_parse_loop(n0, lx0, MachineRef::Nothing));

    lemma_macdef_block(n0, MachineRef::Nothing, s, 0, 0, n1, b1);
    let mac1 = MacroView { name: n1, body: "\n"@ + b1 + "\n\n"@ };
    let nv1 = NetrcView { hosts: Seq::<HostView>::empty(), default: None, macros: seq![mac1] };
    assert(n0.macros.push(mac1) =~= nv1.macros);
    assert((NetrcView { macros: n0.macros.push(mac1), ..n0 }) == nv1);

    lemma_macdef_block(nv1, MachineRef::Nothing, s, l1, 3, n2, b2);
    let mac2 = MacroView { name: n2, body: "\n"@ + b2 + "\n\n"@ };
    let nv2 = NetrcView {
        hosts: Seq::<HostView>::empty(),
        default: None,
        macros: seq![mac1, mac2],
    };
    assert(nv1.macros.push(mac2) =~= nv2.macros);
    assert((NetrcView { macros: nv1.macros.push(mac2), ..nv1 }) == nv2);

    // End of input: the parse stops cleanly with both macros, in order.
    let lxd = LexerView { input: s, pos: l1 + l2, line: empty_tokens(), lnum: 6 };
    lemma_skip_ws_at(lxd.line.buf, 0, 0);
    assert(token_next(lxd.line).0 is None);
    assert(spec_parse_loop(nv2, lxd, MachineRef::Nothing) == Ok::<_, ParseErrorView>(nv2));
}

} // verus!
