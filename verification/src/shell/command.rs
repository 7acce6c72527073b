//! Recognising a shell command line: its words, the command they name and
//! the arguments it takes, or the usage line to show instead.

use vstd::prelude::*;
use crate::text::{is_ws, is_ws_spec, trim, trim_spec};
use crate::shell::args::first_ws_from;
use crate::shell::history::str_eq;

verus! {

/// Index of the first non-whitespace character from `i`.
pub open spec fn skip_ws(s: Seq<char>, i: int) -> int
    decreases s.len() - i,
{
    if 0 <= i < s.len() && is_ws_spec(s[i]) { skip_ws(s, i + 1) } else { i }
}

proof fn lemma_skip_ws(s: Seq<char>, i: int)
    requires
        0 <= i <= s.len(),
    ensures
        i <= skip_ws(s, i) <= s.len(),
        skip_ws(s, i) < s.len() ==> !is_ws_spec(s[skip_ws(s, i)]),
    decreases s.len() - i,
{
    if i < s.len() && is_ws_spec(s[i]) {
        lemma_skip_ws(s, i + 1);
    }
}

proof fn lemma_word_end(s: Seq<char>, i: int)
    requires
        0 <= i <= s.len(),
    ensures
        i <= first_ws_from(s, i) <= s.len(),
        i < s.len() && !is_ws_spec(s[i]) ==> i < first_ws_from(s, i),
    decreases s.len() - i,
{
    if i < s.len() && !is_ws_spec(s[i]) {
        lemma_word_end(s, i + 1);
    }
}

/// The whitespace-separated words of `s` from position `i`.
pub open spec fn words_from(s: Seq<char>, i: int) -> Seq<Seq<char>>
    decreases s.len() - i,
{
    let a = skip_ws(s, i);
    let b = first_ws_from(s, a);
    if 0 <= i <= a < b <= s.len() {
        seq![s.subrange(a, b)] + words_from(s, b)
    } else {
        Seq::empty()
    }
}

pub open spec fn words(s: Seq<char>) -> Seq<Seq<char>> {
    words_from(s, 0)
}

pub open spec fn string_views(v: Seq<String>) -> Seq<Seq<char>> {
    v.map_values(|w: String| w@)
}

/// The whitespace-separated words of `s`.
pub fn split_words(s: &str) -> (r: Vec<String>)
    ensures
        string_views(r@) == words(s@),
{
    let n = s.unicode_len();
    let mut out: Vec<String> = Vec::new();
    let mut i: usize = 0;
    while i < n
        invariant
            n == s@.len(),
            i <= n,
            words(s@) == string_views(out@) + words_from(s@, i as int),
        decreases n - i,
    {
        proof {
            lemma_skip_ws(s@, i as int);
        }
        let mut a = i;
        while a < n && is_ws(s.get_char(a))
            invariant
                n == s@.len(),
                i <= a <= n,
                skip_ws(s@, a as int) == skip_ws(s@, i as int),
            decreases n - a,
        {
            a = a + 1;
        }
        if a >= n {
            assert(words_from(s@, i as int) =~= Seq::<Seq<char>>::empty());
            assert(string_views(out@) + words_from(s@, i as int) =~= string_views(out@));
            i = n;
        } else {
            proof {
                lemma_word_end(s@, a as int);
            }
            let mut b = a;
            while b < n && !is_ws(s.get_char(b))
                invariant
                    n == s@.len(),
                    a <= b <= n,
                    first_ws_from(s@, b as int) == first_ws_from(s@, a as int),
                decreases n - b,
            {
                b = b + 1;
            }
            let w = s.substring_char(a, b).to_owned();
            let ghost before = string_views(out@);
            out.push(w);
            assert(string_views(out@) =~= before.push(s@.subrange(a as int, b as int)));
            assert(words_from(s@, i as int) == seq![s@.subrange(a as int, b as int)] + words_from(s@, b as int));
            assert(before + words_from(s@, i as int) =~= before.push(s@.subrange(a as int, b as int)) + words_from(s@, b as int));
            i = b;
        }
    }
    assert(words_from(s@, i as int) =~= Seq::<Seq<char>>::empty());
    assert(string_views(out@) + words_from(s@, i as int) =~= string_views(out@));
    out
}

/// Which usage line a command shows when its arguments are missing.
#[derive(Clone, Copy, Debug, PartialEq, Eq, Structural)]
pub enum Usage {
    Touch,
    Cat,
    Rm,
    Cp,
    Mv,
    Calc,
    Spawn,
    Edit,
    Ping,
    TcpListen,
    TcpConnect,
    TcpSend,
    TcpRecv,
    TcpClose,
}

impl Usage {
    pub open spec fn text_spec(self) -> &'static str {
        match self {
            Usage::Touch => "usage: touch <file>",
            Usage::Cat => "usage: cat <file>",
            Usage::Rm => "usage: rm <file>",
            Usage::Cp => "usage: cp <source> <dest>",
            Usage::Mv => "usage: mv <source> <dest>",
            Usage::Calc => "usage: calc <expr>",
            Usage::Spawn => "usage: spawn <name>",
            Usage::Edit => "usage: edit <file>",
            Usage::Ping => "usage: ping <ip>",
            Usage::TcpListen => "usage: tcplisten <port>",
            Usage::TcpConnect => "usage: tcpconnect <ip> <port>",
            Usage::TcpSend => "usage: tcpsend <idx> <data>",
            Usage::TcpRecv => "usage: tcprecv <idx>",
            Usage::TcpClose => "usage: tcpclose <idx>",
        }
    }

    /// The usage line.
    pub fn text(self) -> (r: &'static str)
        ensures
            r == self.text_spec(),
    {
        match self {
            Usage::Touch => "usage: touch <file>",
            Usage::Cat => "usage: cat <file>",
            Usage::Rm => "usage: rm <file>",
            Usage::Cp => "usage: cp <source> <dest>",
            Usage::Mv => "usage: mv <source> <dest>",
            Usage::Calc => "usage: calc <expr>",
            Usage::Spawn => "usage: spawn <name>",
            Usage::Edit => "usage: edit <file>",
            Usage::Ping => "usage: ping <ip>",
            Usage::TcpListen => "usage: tcplisten <port>",
            Usage::TcpConnect => "usage: tcpconnect <ip> <port>",
            Usage::TcpSend => "usage: tcpsend <idx> <data>",
            Usage::TcpRecv => "usage: tcprecv <idx>",
            Usage::TcpClose => "usage: tcpclose <idx>",
        }
    }
}

/// A recognised command line, with its arguments as text `S`.
pub enum Cmd<S> {
    Empty,
    Help,
    Ls,
    Touch(S),
    Write(S),
    Cat(S),
    Rm(S),
    Cp(S, S),
    Mv(S, S),
    Mem(bool),
    Free,
    Lspci,
    Ifconfig,
    Cpuinfo,
    Netinfo,
    Calc(S),
    Arpwhois,
    Looptest,
    Netdiag,
    Panic,
    Spawn(S),
    Ps,
    Shutdown,
    Clear,
    Edit(S),
    Hexdump(Option<S>, Option<S>),
    Uptime,
    Dhcp,
    Env,
    Ping(S),
    TcpListen(S),
    TcpConnect(S, S),
    TcpSend(S, S),
    TcpRecv(S),
    TcpClose(S),
    TcpStat,
    Usage(Usage),
    Unknown(S),
}

pub type Command = Cmd<String>;

pub open spec fn opt_view(o: Option<String>) -> Option<Seq<char>> {
    match o {
        Some(s) => Some(s@),
        None => None,
    }
}

/// The command with its arguments as character sequences.
pub open spec fn command_view(c: Command) -> Cmd<Seq<char>> {
    match c {
        Cmd::Empty => Cmd::Empty,
        Cmd::Help => Cmd::Help,
        Cmd::Ls => Cmd::Ls,
        Cmd::Touch(a) => Cmd::Touch(a@),
        Cmd::Write(a) => Cmd::Write(a@),
        Cmd::Cat(a) => Cmd::Cat(a@),
        Cmd::Rm(a) => Cmd::Rm(a@),
        Cmd::Cp(a, b) => Cmd::Cp(a@, b@),
        Cmd::Mv(a, b) => Cmd::Mv(a@, b@),
        Cmd::Mem(v) => Cmd::Mem(v),
        Cmd::Free => Cmd::Free,
        Cmd::Lspci => Cmd::Lspci,
        Cmd::Ifconfig => Cmd::Ifconfig,
        Cmd::Cpuinfo => Cmd::Cpuinfo,
        Cmd::Netinfo => Cmd::Netinfo,
        Cmd::Calc(a) => Cmd::Calc(a@),
        Cmd::Arpwhois => Cmd::Arpwhois,
        Cmd::Looptest => Cmd::Looptest,
        Cmd::Netdiag => Cmd::Netdiag,
        Cmd::Panic => Cmd::Panic,
        Cmd::Spawn(a) => Cmd::Spawn(a@),
        Cmd::Ps => Cmd::Ps,
        Cmd::Shutdown => Cmd::Shutdown,
        Cmd::Clear => Cmd::Clear,
        Cmd::Edit(a) => Cmd::Edit(a@),
        Cmd::Hexdump(a, b) => Cmd::Hexdump(opt_view(a), opt_view(b)),
        Cmd::Uptime => Cmd::Uptime,
        Cmd::Dhcp => Cmd::Dhcp,
        Cmd::Env => Cmd::Env,
        Cmd::Ping(a) => Cmd::Ping(a@),
        Cmd::TcpListen(a) => Cmd::TcpListen(a@),
        Cmd::TcpConnect(a, b) => Cmd::TcpConnect(a@, b@),
        Cmd::TcpSend(a, b) => Cmd::TcpSend(a@, b@),
        Cmd::TcpRecv(a) => Cmd::TcpRecv(a@),
        Cmd::TcpClose(a) => Cmd::TcpClose(a@),
        Cmd::TcpStat => Cmd::TcpStat,
        Cmd::Usage(u) => Cmd::Usage(u),
        Cmd::Unknown(a) => Cmd::Unknown(a@),
    }
}

/// The text after the first word, trimmed.
pub open spec fn after_first_word(t: Seq<char>) -> Seq<char> {
    trim_spec(t.subrange(first_ws_from(t, skip_ws(t, 0)), t.len() as int))
}

/// The command a (trimmed) line names.
pub open spec fn parse_spec(line: Seq<char>) -> Cmd<Seq<char>> {
    let t = trim_spec(line);
    let w = words(t);
    if w.len() == 0 {
        Cmd::Empty
    } else {
        let c = w[0];
        let n = w.len();
        if c == "help"@ { Cmd::Help }
        else if c == "ls"@ { Cmd::Ls }
        else if c == "touch"@ { if n > 1 { Cmd::Touch(w[1]) } else { Cmd::Usage(Usage::Touch) } }
        else if c == "write"@ { Cmd::Write(after_first_word(t)) }
        else if c == "cat"@ { if n > 1 { Cmd::Cat(w[1]) } else { Cmd::Usage(Usage::Cat) } }
        else if c == "rm"@ { if n > 1 { Cmd::Rm(w[1]) } else { Cmd::Usage(Usage::Rm) } }
        else if c == "cp"@ { if n > 2 { Cmd::Cp(w[1], w[2]) } else { Cmd::Usage(Usage::Cp) } }
        else if c == "mv"@ { if n > 2 { Cmd::Mv(w[1], w[2]) } else { Cmd::Usage(Usage::Mv) } }
        else if c == "mem"@ { Cmd::Mem(n > 1 && w[1] == "-v"@) }
        else if c == "free"@ { Cmd::Free }
        else if c == "lspci"@ { Cmd::Lspci }
        else if c == "ifconfig"@ { Cmd::Ifconfig }
        else if c == "cpuinfo"@ { Cmd::Cpuinfo }
        else if c == "netinfo"@ { Cmd::Netinfo }
        else if c == "calc"@ {
            if after_first_word(t).len() > 0 { Cmd::Calc(after_first_word(t)) } else { Cmd::Usage(Usage::Calc) }
        }
        else if c == "arpwhois"@ { Cmd::Arpwhois }
        else if c == "looptest"@ { Cmd::Looptest }
        else if c == "netdiag"@ { Cmd::Netdiag }
        else if c == "panic"@ { Cmd::Panic }
        else if c == "spawn"@ { if n > 1 { Cmd::Spawn(w[1]) } else { Cmd::Usage(Usage::Spawn) } }
        else if c == "ps"@ { Cmd::Ps }
        else if c == "shutdown"@ { Cmd::Shutdown }
        else if c == "clear"@ { Cmd::Clear }
        else if c == "edit"@ { if n > 1 { Cmd::Edit(w[1]) } else { Cmd::Usage(Usage::Edit) } }
        else if c == "hexdump"@ {
            Cmd::Hexdump(if n > 1 { Some(w[1]) } else { None }, if n > 2 { Some(w[2]) } else { None })
        }
        else if c == "uptime"@ { Cmd::Uptime }
        else if c == "dhcp"@ { Cmd::Dhcp }
        else if c == "env"@ { Cmd::Env }
        else if c == "ping"@ { if n > 1 { Cmd::Ping(w[1]) } else { Cmd::Usage(Usage::Ping) } }
        else if c == "tcplisten"@ { if n > 1 { Cmd::TcpListen(w[1]) } else { Cmd::Usage(Usage::TcpListen) } }
        else if c == "tcpconnect"@ { if n > 2 { Cmd::TcpConnect(w[1], w[2]) } else { Cmd::Usage(Usage::TcpConnect) } }
        else if c == "tcpsend"@ {
            if n > 1 { Cmd::TcpSend(w[1], if n > 2 { w[2] } else { ""@ }) } else { Cmd::Usage(Usage::TcpSend) }
        }
        else if c == "tcprecv"@ { if n > 1 { Cmd::TcpRecv(w[1]) } else { Cmd::Usage(Usage::TcpRecv) } }
        else if c == "tcpclose"@ { if n > 1 { Cmd::TcpClose(w[1]) } else { Cmd::Usage(Usage::TcpClose) } }
        else if c == "tcpstat"@ { Cmd::TcpStat }
        else { Cmd::Unknown(c) }
    }
}


/// Recognises a command line (see `parse_spec`).
pub fn parse_command(line: &str) -> (r: Command)
    ensures
        command_view(r) == parse_spec(line@),
{
    let t = trim(line);
    let w = split_words(t);
    let n = w.len();
    if n == 0 {
        return Cmd::Empty;
    }
    assert(w@[0]@ == words(t@)[0]);
    proof {
        if n > 1 {
            assert(w@[1]@ == words(t@)[1]);
        }
        if n > 2 {
            assert(w@[2]@ == words(t@)[2]);
        }
    }
    let len = t.unicode_len();
    proof {
        lemma_skip_ws(t@, 0);
    }
    let mut a: usize = 0;
    while a < len && is_ws(t.get_char(a))
        invariant
            len == t@.len(),
            a <= len,
            skip_ws(t@, a as int) == skip_ws(t@, 0),
        decreases len - a,
    {
        a = a + 1;
    }
    proof {
        lemma_word_end(t@, a as int);
    }
    let mut b: usize = a;
    while b < len && !is_ws(t.get_char(b))
        invariant
            len == t@.len(),
            a <= b <= len,
            first_ws_from(t@, b as int) == first_ws_from(t@, a as int),
        decreases len - b,
    {
        b = b + 1;
    }
    let rest = trim(t.substring_char(b, len));
    assert(rest@ == after_first_word(t@));
    let c = w[0].as_str();
    if str_eq(c, "help") {
        return Cmd::Help;
    }
    if str_eq(c, "ls") {
        return Cmd::Ls;
    }
    if str_eq(c, "touch") {
        if n > 1 { return Cmd::Touch(w[1].clone()); } else { return Cmd::Usage(Usage::Touch); }
    }
    if str_eq(c, "write") {
        return Cmd::Write(rest.to_owned());
    }
    if str_eq(c, "cat") {
        if n > 1 { return Cmd::Cat(w[1].clone()); } else { return Cmd::Usage(Usage::Cat); }
    }
    if str_eq(c, "rm") {
        if n > 1 { return Cmd::Rm(w[1].clone()); } else { return Cmd::Usage(Usage::Rm); }
    }
    if str_eq(c, "cp") {
        if n > 2 { return Cmd::Cp(w[1].clone(), w[2].clone()); } else { return Cmd::Usage(Usage::Cp); }
    }
    if str_eq(c, "mv") {
        if n > 2 { return Cmd::Mv(w[1].clone(), w[2].clone()); } else { return Cmd::Usage(Usage::Mv); }
    }
    if str_eq(c, "mem") {
        return Cmd::Mem(n > 1 && str_eq(w[1].as_str(), "-v"));
    }
    if str_eq(c, "free") {
        return Cmd::Free;
    }
    if str_eq(c, "lspci") {
        return Cmd::Lspci;
    }
    if str_eq(c, "ifconfig") {
        return Cmd::Ifconfig;
    }
    if str_eq(c, "cpuinfo") {
        return Cmd::Cpuinfo;
    }
    if str_eq(c, "netinfo") {
        return Cmd::Netinfo;
    }
    if str_eq(c, "calc") {
        if rest.unicode_len() > 0 { return Cmd::Calc(rest.to_owned()); } else { return Cmd::Usage(Usage::Calc); }
    }
    if str_eq(c, "arpwhois") {
        return Cmd::Arpwhois;
    }
    if str_eq(c, "looptest") {
        return Cmd::Looptest;
    }
    if str_eq(c, "netdiag") {
        return Cmd::Netdiag;
    }
    if str_eq(c, "panic") {
        return Cmd::Panic;
    }
    if str_eq(c, "spawn") {
        if n > 1 { return Cmd::Spawn(w[1].clone()); } else { return Cmd::Usage(Usage::Spawn); }
    }
    if str_eq(c, "ps") {
        return Cmd::Ps;
    }
    if str_eq(c, "shutdown") {
        return Cmd::Shutdown;
    }
    if str_eq(c, "clear") {
        return Cmd::Clear;
    }
    if str_eq(c, "edit") {
        if n > 1 { return Cmd::Edit(w[1].clone()); } else { return Cmd::Usage(Usage::Edit); }
    }
    if str_eq(c, "hexdump") {
        let a = if n > 1 { Some(w[1].clone()) } else { None };
        let b = if n > 2 { Some(w[2].clone()) } else { None };
        return Cmd::Hexdump(a, b);
    }
    if str_eq(c, "uptime") {
        return Cmd::Uptime;
    }
    if str_eq(c, "dhcp") {
        return Cmd::Dhcp;
    }
    if str_eq(c, "env") {
        return Cmd::Env;
    }
    if str_eq(c, "ping") {
        if n > 1 { return Cmd::Ping(w[1].clone()); } else { return Cmd::Usage(Usage::Ping); }
    }
    if str_eq(c, "tcplisten") {
        if n > 1 { return Cmd::TcpListen(w[1].clone()); } else { return Cmd::Usage(Usage::TcpListen); }
    }
    if str_eq(c, "tcpconnect") {
        if n > 2 { return Cmd::TcpConnect(w[1].clone(), w[2].clone()); } else { return Cmd::Usage(Usage::TcpConnect); }
    }
    if str_eq(c, "tcpsend") {
        if n > 1 {
            let data = if n > 2 { w[2].clone() } else { "".to_owned() };
            return Cmd::TcpSend(w[1].clone(), data);
        } else {
            return Cmd::Usage(Usage::TcpSend);
        }
    }
    if str_eq(c, "tcprecv") {
        if n > 1 { return Cmd::TcpRecv(w[1].clone()); } else { return Cmd::Usage(Usage::TcpRecv); }
    }
    if str_eq(c, "tcpclose") {
        if n > 1 { return Cmd::TcpClose(w[1].clone()); } else { return Cmd::Usage(Usage::TcpClose); }
    }
    if str_eq(c, "tcpstat") {
        return Cmd::TcpStat;
    }
    Cmd::Unknown(w[0].clone())
}
} // verus!
