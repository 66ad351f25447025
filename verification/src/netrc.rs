//! The data model and the entry dispatcher: consumes words from the lexer,
//! recognizes entry keywords, and builds the parsed aggregate, keeping track
//! of which machine record field keywords currently mutate.

use vstd::prelude::*;
use vstd::pervasive::unreached;
use vstd::string::StringExecFns;

use crate::error::{ParseError, ParseErrorView};
use crate::lexer::{
    capture, empty_tokens, lemma_capture_props, lemma_next_word_props, lex_measure, lex_next_word,
    lexer_wf, Lexer, LexerView,
};
use crate::port::{parse_port_word, spec_parse_u16};
use crate::text::{str_eq, str_to_chars};

verus! {

/// Mathematical model of a [`Machine`].
pub ghost struct MachineView {
    pub login: Seq<char>,
    pub password: Option<Seq<char>>,
    pub account: Option<Seq<char>>,
    pub port: Option<u16>,
}

/// Mathematical model of a [`Host`].
pub ghost struct HostView {
    pub name: Seq<char>,
    pub machine: MachineView,
}

/// Mathematical model of a [`Macro`].
pub ghost struct MacroView {
    pub name: Seq<char>,
    pub body: Seq<char>,
}

/// Mathematical model of a [`Netrc`].
pub ghost struct NetrcView {
    pub hosts: Seq<HostView>,
    pub default: Option<MachineView>,
    pub macros: Seq<MacroView>,
}

pub open spec fn opt_view(o: Option<String>) -> Option<Seq<char>> {
    match o {
        Some(s) => Some(s@),
        None => None,
    }
}

/// One credential record; all fields absent or default until a field keyword
/// sets them.
#[derive(Debug, PartialEq, Clone)]
pub struct Machine {
    pub login: String,
    pub password: Option<String>,
    pub account: Option<String>,
    pub port: Option<u16>,
}

impl View for Machine {
    type V = MachineView;

    open spec fn view(&self) -> MachineView {
        MachineView {
            login: self.login@,
            password: opt_view(self.password),
            account: opt_view(self.account),
            port: self.port,
        }
    }
}

/// The record every field starts from: empty login, nothing else set.
pub open spec fn default_machine() -> MachineView {
    MachineView { login: Seq::<char>::empty(), password: None, account: None, port: None }
}

impl Default for Machine {
    /// A machine record with no field set.
    fn default() -> (m: Machine)
        ensures
            m@ == default_machine(),
    {
        let m = Machine { login: String::new(), password: None, account: None, port: None };
        proof {
            assert(m@.login =~= default_machine().login);
        }
        m
    }
}

/// A `machine` entry as it appeared in the file: its name and its record.
#[derive(Debug, PartialEq, Clone)]
pub struct Host(pub String, pub Machine);

impl View for Host {
    type V = HostView;

    open spec fn view(&self) -> HostView {
        HostView { name: self.0@, machine: self.1@ }
    }
}

/// A named, raw-text command block: its name and its captured body.
#[derive(Debug, PartialEq, Clone)]
pub struct Macro(pub String, pub String);

impl View for Macro {
    type V = MacroView;

    open spec fn view(&self) -> MacroView {
        MacroView { name: self.0@, body: self.1@ }
    }
}

/// The parsed aggregate: hosts and macros in order of appearance (later
/// entries with the same name are legal and kept distinct), and at most one
/// default record.
#[derive(Debug, PartialEq, Clone)]
pub struct Netrc {
    pub hosts: Vec<Host>,
    pub default: Option<Machine>,
    pub macros: Vec<Macro>,
}

impl View for Netrc {
    type V = NetrcView;

    open spec fn view(&self) -> NetrcView {
        NetrcView {
            hosts: self.hosts@.map_values(|h: Host| h@),
            default: match self.default {
                Some(m) => Some(m@),
                None => None,
            },
            macros: self.macros@.map_values(|m: Macro| m@),
        }
    }
}

/// The aggregate a parse starts from.
pub open spec fn empty_netrc() -> NetrcView {
    NetrcView { hosts: Seq::<HostView>::empty(), default: None, macros: Seq::<MacroView>::empty() }
}

impl Default for Netrc {
    /// An aggregate with no hosts, no default, and no macros.
    fn default() -> (n: Netrc)
        ensures
            n@ == empty_netrc(),
    {
        let n = Netrc { hosts: Vec::new(), default: None, macros: Vec::new() };
        proof {
            assert(n@.hosts =~= empty_netrc().hosts);
            assert(n@.macros =~= empty_netrc().macros);
        }
        n
    }
}

/// The transient parse-time reference selecting which machine record field
/// keywords currently mutate: none, the default record, or a host by index.
#[derive(Clone, Copy)]
pub enum MachineRef {
    Nothing,
    Default,
    Host(usize),
}

/// A host index in the reference stays within the aggregate.
pub open spec fn ref_ok(n: NetrcView, r: MachineRef) -> bool {
    match r {
        MachineRef::Host(i) => (i as int) < n.hosts.len(),
        _ => true,
    }
}

/// The machine record the reference selects, if any.
pub open spec fn resolve(n: NetrcView, r: MachineRef) -> Option<MachineView> {
    match r {
        MachineRef::Nothing => None,
        MachineRef::Default => n.default,
        MachineRef::Host(i) => if (i as int) < n.hosts.len() {
            Some(n.hosts[i as int].machine)
        } else {
            None
        },
    }
}

/// The aggregate with the record the reference selects replaced by `m`.
pub open spec fn with_machine(n: NetrcView, r: MachineRef, m: MachineView) -> NetrcView {
    match r {
        MachineRef::Nothing => n,
        MachineRef::Default => NetrcView { default: Some(m), ..n },
        MachineRef::Host(i) => NetrcView {
            hosts: n.hosts.update(
                i as int,
                HostView { name: n.hosts[i as int].name, machine: m },
            ),
            ..n
        },
    }
}

pub open spec fn eof_err(line: int) -> ParseErrorView {
    ParseErrorView { msg: "Unexpected end of file"@, line }
}

/// The seven entry keywords denote pairwise distinct words.
pub proof fn lemma_keywords_distinct()
    ensures
        "machine"@ != "default"@,
        "machine"@ != "login"@,
        "machine"@ != "password"@,
        "machine"@ != "account"@,
        "machine"@ != "port"@,
        "machine"@ != "macdef"@,
        "default"@ != "login"@,
        "default"@ != "password"@,
        "default"@ != "account"@,
        "default"@ != "port"@,
        "default"@ != "macdef"@,
        "login"@ != "password"@,
        "login"@ != "account"@,
        "login"@ != "port"@,
        "login"@ != "macdef"@,
        "password"@ != "account"@,
        "password"@ != "port"@,
        "password"@ != "macdef"@,
        "account"@ != "port"@,
        "account"@ != "macdef"@,
        "port"@ != "macdef"@,
{
    reveal_strlit("machine");
    reveal_strlit("default");
    reveal_strlit("login");
    reveal_strlit("password");
    reveal_strlit("account");
    reveal_strlit("port");
    reveal_strlit("macdef");
    assert("machine"@.len() == 7 && "machine"@[0] == 'm');
    assert("default"@.len() == 7 && "default"@[0] == 'd');
    assert("login"@.len() == 5 && "login"@[0] == 'l');
    assert("password"@.len() == 8 && "password"@[0] == 'p');
    assert("account"@.len() == 7 && "account"@[0] == 'a');
    assert("port"@.len() == 4 && "port"@[0] == 'p');
    assert("macdef"@.len() == 6 && "macdef"@[0] == 'm');
}

/// The keywords that attach a field to the current machine record.
pub open spec fn is_field_keyword(w: Seq<char>) -> bool {
    w == "login"@ || w == "password"@ || w == "account"@ || w == "port"@
}

/// The entry keywords the dispatcher recognizes.
pub open spec fn is_entry_keyword(w: Seq<char>) -> bool {
    w == "machine"@ || w == "default"@ || w == "macdef"@ || is_field_keyword(w)
}

/// Where the lexer stands after a failed dispatch of `word`: untouched where
/// the failure precedes any argument read (a field keyword with no active
/// machine, or an unknown keyword), else just past the argument word it read.
pub open spec fn lexer_after_failure(
    nv: NetrcView,
    lx: LexerView,
    word: Seq<char>,
    cur: MachineRef,
) -> LexerView {
    if !is_entry_keyword(word) || (is_field_keyword(word) && resolve(nv, cur) is None) {
        lx
    } else {
        lex_next_word(lx).1
    }
}

/// What dispatching one entry keyword does: how the aggregate, the lexer and
/// the current-target reference change, or the failure raised. This is the
/// transition table of the parse loop.
pub open spec fn spec_dispatch(
    n: NetrcView,
    lx: LexerView,
    word: Seq<char>,
    cur: MachineRef,
) -> Result<(NetrcView, LexerView, MachineRef), ParseErrorView> {
    if word == "machine"@ {
        let (t, lx1) = lex_next_word(lx);
        match t {
            None => Err(eof_err(lx1.lnum)),
            Some(name) => Ok(
                (
                    NetrcView {
                        hosts: n.hosts.push(HostView { name, machine: default_machine() }),
                        ..n
                    },
                    lx1,
                    MachineRef::Host(n.hosts.len() as usize),
                ),
            ),
        }
    } else if word == "default"@ {
        Ok((NetrcView { default: Some(default_machine()), ..n }, lx, MachineRef::Default))
    } else if word == "login"@ || word == "password"@ || word == "account"@ {
        match resolve(n, cur) {
            None => Err(
                ParseErrorView { msg: "No machine defined for "@ + word, line: lx.lnum },
            ),
            Some(m) => {
                let (t, lx1) = lex_next_word(lx);
                match t {
                    None => Err(eof_err(lx1.lnum)),
                    Some(v) => {
                        let m2 = if word == "login"@ {
                            MachineView { login: v, ..m }
                        } else if word == "password"@ {
                            MachineView { password: Some(v), ..m }
                        } else {
                            MachineView { account: Some(v), ..m }
                        };
                        Ok((with_machine(n, cur, m2), lx1, cur))
                    },
                }
            },
        }
    } else if word == "port"@ {
        match resolve(n, cur) {
            None => Err(
                ParseErrorView { msg: "No machine defined for "@ + word, line: lx.lnum },
            ),
            Some(m) => {
                let (t, lx1) = lex_next_word(lx);
                match t {
                    None => Err(eof_err(lx1.lnum)),
                    Some(v) => match spec_parse_u16(v) {
                        Some(p) => Ok(
                            (with_machine(n, cur, MachineView { port: Some(p), ..m }), lx1, cur),
                        ),
                        None => Err(
                            ParseErrorView {
                                msg: "Unable to parse port number `"@ + v + "'"@,
                                line: lx.lnum,
                            },
                        ),
                    },
                }
            },
        }
    } else if word == "macdef"@ {
        let (t, lx1) = lex_next_word(lx);
        match t {
            None => Err(eof_err(lx1.lnum)),
            Some(name) => {
                let (body, pos2, lnum2) = capture(
                    lx1.input,
                    lx1.pos,
                    lx1.line.buf.subrange(lx1.line.cur, lx1.line.buf.len() as int),
                    lx1.lnum,
                );
                Ok(
                    (
                        NetrcView { macros: n.macros.push(MacroView { name, body }), ..n },
                        LexerView { input: lx1.input, pos: pos2, line: empty_tokens(), lnum: lnum2 },
                        MachineRef::Nothing,
                    ),
                )
            },
        }
    } else {
        Err(ParseErrorView { msg: "Unknown entry `"@ + word + "'"@, line: lx.lnum })
    }
}

/// Dispatching keeps the lexer well-formed, on the same input, and never
/// grows the unconsumed measure.
pub proof fn lemma_dispatch_props(n: NetrcView, lx: LexerView, word: Seq<char>, cur: MachineRef)
    requires
        lexer_wf(lx),
    ensures
        (match spec_dispatch(n, lx, word, cur) {
            Ok((n2, lx2, c2)) => lexer_wf(lx2) && lx2.input == lx.input && lex_measure(lx2)
                <= lex_measure(lx),
            Err(_) => true,
        }),
{
    lemma_next_word_props(lx);
    let (t, lx1) = lex_next_word(lx);
    if word == "macdef"@ && t is Some {
        lemma_capture_props(
            lx1.input,
            lx1.pos,
            lx1.line.buf.subrange(lx1.line.cur, lx1.line.buf.len() as int),
            lx1.lnum,
        );
    }
}

/// The reference parser: pulls words one at a time and dispatches each,
/// stopping cleanly at end of input or on the first failure.
pub open spec fn spec_parse_loop(
    n: NetrcView,
    lx: LexerView,
    cur: MachineRef,
) -> Result<NetrcView, ParseErrorView>
    decreases lex_measure(lx),
    when lexer_wf(lx)
    via spec_parse_loop_decreases
{
    let (t, lx1) = lex_next_word(lx);
    match t {
        None => Ok(n),
        Some(w) => match spec_dispatch(n, lx1, w, cur) {
            Err(e) => Err(e),
            Ok((n2, lx2, c2)) => spec_parse_loop(n2, lx2, c2),
        },
    }
}

#[via_fn]
proof fn spec_parse_loop_decreases(n: NetrcView, lx: LexerView, cur: MachineRef) {
    if lexer_wf(lx) {
        lemma_next_word_props(lx);
        let (t, lx1) = lex_next_word(lx);
        if t is Some {
            lemma_dispatch_props(n, lx1, t.unwrap(), cur);
        }
    }
}

/// What parsing a whole input yields: the aggregate, or the first failure.
pub open spec fn spec_parse(input: Seq<char>) -> Result<NetrcView, ParseErrorView> {
    spec_parse_loop(
        empty_netrc(),
        LexerView { input, pos: 0, line: empty_tokens(), lnum: 0 },
        MachineRef::Nothing,
    )
}

fn no_machine_err(entry: &str, line: usize) -> (e: ParseError)
    ensures
        e@ == (ParseErrorView { msg: "No machine defined for "@ + entry@, line: line as int }),
{
    let mut msg = "No machine defined for ".to_owned();
    msg.append(entry);
    ParseError { msg, line }
}

fn clone_opt(o: &Option<String>) -> (r: Option<String>)
    ensures
        r == *o,
{
    match o {
        Some(s) => Some(s.clone()),
        None => None,
    }
}

impl Netrc {
    /// The machine record the current-target reference selects, if any.
    pub fn find_machine(&self, reference: &MachineRef) -> (r: Option<&Machine>)
        requires
            ref_ok(self@, *reference),
        ensures
            (match r {
                Some(m) => resolve(self@, *reference) == Some(m@),
                None => resolve(self@, *reference) is None,
            }),
    {
        match *reference {
            MachineRef::Nothing => None,
            MachineRef::Default => self.default.as_ref(),
            MachineRef::Host(n) => Some(&self.hosts[n].1),
        }
    }

    /// Replaces the record the reference selects; the reference must select
    /// one.
    fn set_machine(&mut self, r: MachineRef, m: Machine)
        requires
            ref_ok(old(self)@, r),
            resolve(old(self)@, r) is Some,
        ensures
            final(self)@ == with_machine(old(self)@, r, m@),
    {
        match r {
            MachineRef::Nothing => unreached(),
            MachineRef::Default => {
                self.default = Some(m);
            },
            MachineRef::Host(i) => {
                let name = self.hosts[i].0.clone();
                let ghost before = self@;
                self.hosts[i] = Host(name, m);
                proof {
                    assert(self@.hosts =~= with_machine(before, r, m@).hosts);
                }
            },
        }
    }

    /// Dispatches one entry keyword, exactly as [`spec_dispatch`] describes:
    /// mutates the aggregate and consumes the keyword's argument (if any)
    /// from the lexer, and returns the next current-target reference, or the
    /// failure with its message and line number.
    pub fn parse_entry(
        &mut self,
        lexer: &mut Lexer,
        item: &str,
        current_machine: MachineRef,
    ) -> (r: Result<MachineRef, ParseError>)
        requires
            old(lexer).wf(),
            ref_ok(old(self)@, current_machine),
        ensures
            final(lexer).wf(),
            final(lexer)@.input == old(lexer)@.input,
            (match r {
                Ok(c) => spec_dispatch(old(self)@, old(lexer)@, item@, current_machine)
                    == Ok::<_, ParseErrorView>((final(self)@, final(lexer)@, c)) && ref_ok(
                    final(self)@,
                    c,
                ),
                Err(e) => spec_dispatch(old(self)@, old(lexer)@, item@, current_machine)
                    == Err::<(NetrcView, LexerView, MachineRef), _>(e@) && final(self)@ == old(
                    self,
                )@ && final(lexer)@ == lexer_after_failure(
                    old(self)@,
                    old(lexer)@,
                    item@,
                    current_machine,
                ),
            }),
    {
        proof {
            lemma_next_word_props(old(lexer)@);
            lemma_keywords_distinct();
        }
        if str_eq(item, "machine") {
            let host_name = match lexer.next_word_or_err() {
                Ok(w) => w,
                Err(e) => return Err(e),
            };
            let idx = self.hosts.len();
            self.hosts.push(Host(host_name, Machine::default()));
            proof {
                assert(self@.hosts =~= old(self)@.hosts.push(
                    HostView { name: lex_next_word(old(lexer)@).0.unwrap(), machine: default_machine() },
                ));
            }
            Ok(MachineRef::Host(idx))
        } else if str_eq(item, "default") {
            self.default = Some(Machine::default());
            Ok(MachineRef::Default)
        } else if str_eq(item, "login") {
            match self.find_machine(&current_machine) {
                None => return Err(no_machine_err(item, lexer.lnum())),
                Some(_) => {},
            }
            let v = match lexer.next_word_or_err() {
                Ok(w) => w,
                Err(e) => return Err(e),
            };
            let new_m = match self.find_machine(&current_machine) {
                Some(mach) => Machine {
                    login: v,
                    password: clone_opt(&mach.password),
                    account: clone_opt(&mach.account),
                    port: mach.port,
                },
                None => unreached(),
            };
            self.set_machine(current_machine, new_m);
            Ok(current_machine)
        } else if str_eq(item, "password") {
            match self.find_machine(&current_machine) {
                None => return Err(no_machine_err(item, lexer.lnum())),
                Some(_) => {},
            }
            let v = match lexer.next_word_or_err() {
                Ok(w) => w,
                Err(e) => return Err(e),
            };
            let new_m = match self.find_machine(&current_machine) {
                Some(mach) => Machine {
                    login: mach.login.clone(),
                    password: Some(v),
                    account: clone_opt(&mach.account),
                    port: mach.port,
                },
                None => unreached(),
            };
            self.set_machine(current_machine, new_m);
            Ok(current_machine)
        } else if str_eq(item, "account") {
            match self.find_machine(&current_machine) {
                None => return Err(no_machine_err(item, lexer.lnum())),
                Some(_) => {},
            }
            let v = match lexer.next_word_or_err() {
                Ok(w) => w,
                Err(e) => return Err(e),
            };
            let new_m = match self.find_machine(&current_machine) {
                Some(mach) => Machine {
                    login: mach.login.clone(),
                    password: clone_opt(&mach.password),
                    account: Some(v),
                    port: mach.port,
                },
                None => unreached(),
            };
            self.set_machine(current_machine, new_m);
            Ok(current_machine)
        } else if str_eq(item, "port") {
            match self.find_machine(&current_machine) {
                None => return Err(no_machine_err(item, lexer.lnum())),
                Some(_) => {},
            }
            // The line the `port` keyword was read on: a later parse failure
            // is reported there, not at its argument's line.
            let keyword_line = lexer.lnum();
            let v = match lexer.next_word_or_err() {
                Ok(w) => w,
                Err(e) => return Err(e),
            };
            match parse_port_word(v.as_str()) {
                Some(p) => {
                    let new_m = match self.find_machine(&current_machine) {
                        Some(mach) => Machine {
                            login: mach.login.clone(),
                            password: clone_opt(&mach.password),
                            account: clone_opt(&mach.account),
                            port: Some(p),
                        },
                        None => unreached(),
                    };
                    self.set_machine(current_machine, new_m);
                    Ok(current_machine)
                },
                None => {
                    let mut msg = "Unable to parse port number `".to_owned();
                    msg.append(v.as_str());
                    msg.append("'");
                    Err(ParseError { msg, line: keyword_line })
                },
            }
        } else if str_eq(item, "macdef") {
            let name = match lexer.next_word_or_err() {
                Ok(w) => w,
                Err(e) => return Err(e),
            };
            let cmds = lexer.next_subcommands();
            let ghost name_view = name@;
            let ghost body_view = cmds@;
            self.macros.push(Macro(name, cmds));
            proof {
                assert(self@.macros =~= old(self)@.macros.push(
                    MacroView { name: name_view, body: body_view },
                ));
            }
            Ok(MachineRef::Nothing)
        } else {
            let mut msg = "Unknown entry `".to_owned();
            msg.append(item);
            msg.append("'");
            Err(ParseError { msg, line: lexer.lnum() })
        }
    }

    /// Parses a whole input text: returns exactly what the reference parser
    /// [`spec_parse`] yields on it — the parsed aggregate, or the first
    /// failure with its message and 1-based line number.
    pub fn parse(input: Vec<char>) -> (r: Result<Netrc, ParseError>)
        ensures
            (match r {
                Ok(n) => spec_parse(input@) == Ok::<_, ParseErrorView>(n@),
                Err(e) => spec_parse(input@) == Err::<NetrcView, _>(e@),
            }),
    {
        let ghost iv = input@;
        let mut netrc = Netrc::default();
        let mut lexer = Lexer::new(input);
        let mut current_machine = MachineRef::Nothing;
        loop
            invariant
                iv == input@,
                lexer.wf(),
                lexer@.input == iv,
                ref_ok(netrc@, current_machine),
                spec_parse_loop(netrc@, lexer@, current_machine) == spec_parse(iv),
            decreases lex_measure(lexer@),
        {
            let ghost n0 = netrc@;
            let ghost lx0 = lexer@;
            let ghost c0 = current_machine;
            proof {
                lemma_next_word_props(lx0);
            }
            match lexer.next_word() {
                None => {
                    proof {
                        assert(spec_parse_loop(n0, lx0, c0) == Ok::<_, ParseErrorView>(n0));
                    }
                    return Ok(netrc);
                },
                Some(w) => {
                    let ghost lx1 = lexer@;
                    proof {
                        lemma_dispatch_props(n0, lx1, w@, c0);
                    }
                    match netrc.parse_entry(&mut lexer, w.as_str(), current_machine) {
                        Ok(c) => {
                            current_machine = c;
                            proof {
                                assert(spec_parse_loop(n0, lx0, c0) == spec_parse_loop(
                                    netrc@,
                                    lexer@,
                                    current_machine,
                                ));
                            }
                        },
                        Err(e) => {
                            proof {
                                assert(spec_parse_loop(n0, lx0, c0) == Err::<NetrcView, _>(e@));
                            }
                            return Err(e);
                        },
                    }
                },
            }
        }
    }
}

impl core::str::FromStr for Netrc {
    type Err = ParseError;

    /// Parses the aggregate from a string slice.
    fn from_str(s: &str) -> Result<Netrc, ParseError> {
        Netrc::parse(str_to_chars(s))
    }
}

} // verus!
