use kernel_core::shell::calc::eval;
use kernel_core::shell::command::{parse_command, split_words, Cmd, Usage};
use kernel_core::shell::history::History;
use kernel_core::shell::args::{is_valid_filename, parse_write_args, parse_hex, parse_u16, parse_usize, parse_ip, parse_ipv4};
use kernel_core::shell::editor::{line_count, line_len, offset_to_pos, Editor};
use kernel_core::fs::ramfs::{self, RamFs};
use kernel_core::shell::line::{LineEditor, LineInput, LineAction, LineOutcome};
use kernel_core::shell::hexdump::{dump_args, dump_line};
use kernel_core::shell::netcmd::{hms, percent, ephemeral_port, fallback_mac, known_gateway_mac};
use kernel_core::keyboard::KeyEvent;

#[test]
fn calc_precedence_and_parens() {
    assert_eq!(eval("2+3*4"), Ok(14));
    assert_eq!(eval("(2+3)*4"), Ok(20));
    assert_eq!(eval(" 7 / 2 "), Ok(3));
    assert_eq!(eval("7%3"), Ok(1));
}

#[test]
fn calc_left_associative() {
    assert_eq!(eval("10-4-3"), Ok(3));
    assert_eq!(eval("100/10/5"), Ok(2));
}

#[test]
fn calc_negative_numbers() {
    assert_eq!(eval("-5+2"), Ok(-3));
    assert_eq!(eval("2*-3"), Ok(-6));
    assert_eq!(eval("1--2"), Ok(3));
    assert_eq!(eval("-7/2"), Ok(-3));
}

#[test]
fn calc_errors() {
    assert_eq!(eval("1/0"), Err("overflow/div0"));
    assert_eq!(eval("5%0"), Err("overflow/div0"));
    assert_eq!(eval("9223372036854775807+1"), Err("overflow/div0"));
    assert_eq!(eval("abc"), Err("invalid token"));
    assert_eq!(eval("(1+2"), Err("mismatched parens"));
    assert_eq!(eval("-"), Err("bad number"));
    assert_eq!(eval("99999999999999999999"), Err("bad number"));
    assert_eq!(eval("+"), Err("stack underflow"));
    assert_eq!(eval("1 2"), Err("bad expression"));
    assert_eq!(eval(""), Err("bad expression"));
    assert_eq!(eval("()"), Err("bad expression"));
}

#[test]
fn calc_stray_close_paren_is_ignored() {
    assert_eq!(eval("1+2)"), Ok(3));
}

#[test]
fn split_words_on_whitespace() {
    let w = split_words("  cp   a.txt\tb.txt ");
    assert_eq!(w, vec!["cp".to_string(), "a.txt".to_string(), "b.txt".to_string()]);
    assert!(split_words("   ").is_empty());
}

#[test]
fn parse_command_cases() {
    assert!(matches!(parse_command("   "), Cmd::Empty));
    assert!(matches!(parse_command("help"), Cmd::Help));
    assert!(matches!(parse_command("  ls  "), Cmd::Ls));
    match parse_command("touch a.txt extra") {
        Cmd::Touch(f) => assert_eq!(f, "a.txt"),
        _ => panic!("touch"),
    }
    assert!(matches!(parse_command("touch"), Cmd::Usage(Usage::Touch)));
    match parse_command("write f.txt \"hello world\"") {
        Cmd::Write(rest) => assert_eq!(rest, "f.txt \"hello world\""),
        _ => panic!("write"),
    }
    match parse_command("cp a b") {
        Cmd::Cp(a, b) => { assert_eq!(a, "a"); assert_eq!(b, "b"); }
        _ => panic!("cp"),
    }
    assert!(matches!(parse_command("mv a"), Cmd::Usage(Usage::Mv)));
    assert!(matches!(parse_command("mem -v"), Cmd::Mem(true)));
    assert!(matches!(parse_command("mem"), Cmd::Mem(false)));
    match parse_command("calc  1 + 2 ") {
        Cmd::Calc(e) => assert_eq!(e, "1 + 2"),
        _ => panic!("calc"),
    }
    assert!(matches!(parse_command("calc"), Cmd::Usage(Usage::Calc)));
    match parse_command("hexdump 0x1000") {
        Cmd::Hexdump(a, l) => { assert_eq!(a, Some("0x1000".to_string())); assert_eq!(l, None); }
        _ => panic!("hexdump"),
    }
    match parse_command("tcpsend 0 hi there") {
        Cmd::TcpSend(i, d) => { assert_eq!(i, "0"); assert_eq!(d, "hi"); }
        _ => panic!("tcpsend"),
    }
    match parse_command("tcpsend 3") {
        Cmd::TcpSend(i, d) => { assert_eq!(i, "3"); assert_eq!(d, ""); }
        _ => panic!("tcpsend"),
    }
    match parse_command("frobnicate now") {
        Cmd::Unknown(c) => assert_eq!(c, "frobnicate"),
        _ => panic!("unknown"),
    }
    assert_eq!(Usage::TcpConnect.text(), "usage: tcpconnect <ip> <port>");
}

#[test]
fn history_push_prev_next() {
    let mut h = History::new();
    assert_eq!(h.prev(), None);
    h.push("ls");
    h.push("help");
    h.push("help");
    h.push("");
    assert_eq!(h.prev(), Some("help".to_string()));
    assert_eq!(h.prev(), Some("ls".to_string()));
    assert_eq!(h.prev(), Some("ls".to_string()));
    assert_eq!(h.next(), Some("help".to_string()));
    assert_eq!(h.next(), None);
    assert_eq!(h.next(), None);
}

#[test]
fn history_keeps_sixteen_newest() {
    let mut h = History::new();
    for i in 0..20 {
        h.push(&format!("cmd{}", i));
    }
    let mut seen = Vec::new();
    for _ in 0..20 {
        seen.push(h.prev().unwrap());
    }
    assert_eq!(seen[0], "cmd19");
    assert_eq!(seen[15], "cmd4");
    assert_eq!(seen[19], "cmd4");
}

#[test]
fn push_then_prev_gives_the_command() {
    let mut h = History::new();
    h.push("uptime");
    h.push("ps");
    assert_eq!(h.prev(), Some("ps".to_string()));
}

#[test]
fn filenames_and_write_arguments() {
    assert!(is_valid_filename("notes.txt"));
    assert!(!is_valid_filename(""));
    assert!(!is_valid_filename("a/b"));
    assert!(!is_valid_filename("a\\b"));
    assert!(!is_valid_filename("a\0b"));
    assert!(!is_valid_filename(&"x".repeat(256)));
    assert!(is_valid_filename(&"x".repeat(255)));
    assert_eq!(parse_write_args("f.txt \"hello world\""), Some(("f.txt", "hello world".to_string())));
    assert_eq!(parse_write_args("f.txt plain"), Some(("f.txt", "plain".to_string())));
    assert_eq!(parse_write_args("f.txt \""), Some(("f.txt", "\"".to_string())));
    assert_eq!(parse_write_args("f.txt"), None);
    assert_eq!(parse_write_args("   "), None);
    assert_eq!(parse_write_args("a/b text"), None);
}

#[test]
fn number_parsers() {
    assert_eq!(parse_hex("0x1F"), Some(31));
    assert_eq!(parse_hex("ff"), Some(255));
    assert_eq!(parse_hex("0x"), None);
    assert_eq!(parse_hex("100000000"), None);
    assert_eq!(parse_u16("8080"), Some(8080));
    assert_eq!(parse_u16("65536"), None);
    assert_eq!(parse_u16("+5"), Some(5));
    assert_eq!(parse_usize("12"), Some(12));
    assert_eq!(parse_usize("1x"), None);
}

#[test]
fn ip_parsers() {
    assert_eq!(parse_ip("10.0.2.2"), Some([10, 0, 2, 2]));
    assert_eq!(parse_ip("10.0.2"), None);
    assert_eq!(parse_ip("10.0.2.256"), None);
    assert_eq!(parse_ip("+1.2.3.4"), Some([1, 2, 3, 4]));
    assert_eq!(parse_ipv4("192.168.1.1"), Some([192, 168, 1, 1]));
    assert_eq!(parse_ipv4("1..2.3"), None);
}

#[test]
fn editor_text_positions() {
    let s = "ab\ncde\n";
    assert_eq!(line_count(s), 2);
    assert_eq!(line_count(""), 1);
    assert_eq!(line_len(s, 0), 2);
    assert_eq!(line_len(s, 1), 3);
    assert_eq!(line_len(s, 5), 0);
    assert_eq!(offset_to_pos(s, 0), (0, 0));
    assert_eq!(offset_to_pos(s, 3), (1, 0));
    assert_eq!(offset_to_pos(s, 5), (1, 2));
    assert_eq!(offset_to_pos(s, 7), (1, 3));
    assert_eq!(line_len("a\r\nb", 0), 1);
}

#[test]
fn editor_type_then_erase() {
    let mut fs = RamFs::new();
    ramfs::write(&mut fs, "n.txt", b"abc").unwrap();
    let mut ed = Editor::open(&fs, "n.txt");
    assert_eq!(ed.contents(), "abc\n");
    assert!(!ed.unsaved());
    assert!(ed.can_step(Some(KeyEvent::Char(b'x'))));
    ed.step(Some(KeyEvent::Char(b'x')), &mut fs, "n.txt");
    assert_eq!(ed.contents(), "abc\nx");
    ed.step(Some(KeyEvent::Backspace), &mut fs, "n.txt");
    assert_eq!(ed.contents(), "abc\n");
    assert!(ed.unsaved());
    assert_eq!(ramfs::read(&fs, "n.txt"), Ok(b"abc".to_vec()));
}

#[test]
fn editor_saves_on_ctrl_s_only() {
    let mut fs = RamFs::new();
    let mut ed = Editor::open(&fs, "notes");
    ed.step(Some(KeyEvent::Char(b'x')), &mut fs, "notes");
    ed.step(Some(KeyEvent::Escape), &mut fs, "notes");
    assert!(ramfs::read(&fs, "notes").is_err());
    let mut ed = Editor::open(&fs, "notes");
    ed.step(Some(KeyEvent::Char(b'h')), &mut fs, "notes");
    ed.step(Some(KeyEvent::Char(b'i')), &mut fs, "notes");
    ed.step(Some(KeyEvent::Ctrl('s')), &mut fs, "notes");
    assert!(!ed.unsaved());
    assert_eq!(ramfs::read(&fs, "notes"), Ok(b"hi".to_vec()));
}

#[test]
fn line_editor_typing_and_submit() {
    let mut h = History::new();
    let mut ed = LineEditor::new();
    assert!(matches!(ed.step(&mut h, LineInput::Key(KeyEvent::Char(b'l'))), LineAction::Echo(b'l')));
    assert!(matches!(ed.step(&mut h, LineInput::Serial(b's')), LineAction::Echo(b's')));
    assert!(matches!(ed.step(&mut h, LineInput::Serial(b'x')), LineAction::Echo(b'x')));
    assert!(matches!(ed.step(&mut h, LineInput::Serial(0x7F)), LineAction::Erase));
    assert!(matches!(ed.step(&mut h, LineInput::Serial(0x01)), LineAction::Nothing));
    assert!(matches!(ed.step(&mut h, LineInput::Key(KeyEvent::Enter)), LineAction::Submit));
    match ed.submit(&mut h) {
        LineOutcome::Command(c) => assert_eq!(c, "ls"),
        _ => panic!("command"),
    }
    assert!(matches!(ed.step(&mut h, LineInput::Key(KeyEvent::Up)), LineAction::Load(0, ref t) if t == b"ls"));
    assert!(matches!(ed.step(&mut h, LineInput::Key(KeyEvent::Down)), LineAction::Clear(2)));
    assert!(matches!(ed.submit(&mut h), LineOutcome::Empty));
}

#[test]
fn line_editor_cancel_and_limit() {
    let mut h = History::new();
    let mut ed = LineEditor::new();
    for _ in 0..300 {
        ed.step(&mut h, LineInput::Serial(b'a'));
    }
    assert!(matches!(ed.step(&mut h, LineInput::Serial(b'a')), LineAction::Nothing));
    assert!(matches!(ed.step(&mut h, LineInput::Serial(3)), LineAction::Cancel(256)));
    assert!(matches!(ed.submit(&mut h), LineOutcome::Empty));
}

#[test]
fn line_with_control_character_is_invalid() {
    let mut h = History::new();
    let mut ed = LineEditor::new();
    ed.step(&mut h, LineInput::Key(KeyEvent::Char(b'a')));
    ed.step(&mut h, LineInput::Key(KeyEvent::Char(0x07)));
    ed.step(&mut h, LineInput::Key(KeyEvent::Char(b'b')));
    assert!(matches!(ed.submit(&mut h), LineOutcome::Invalid));
    assert_eq!(h.prev(), None);
}

#[test]
fn hexdump_arguments_and_lines() {
    assert_eq!(dump_args(None, None), Some((0, 128)));
    assert_eq!(dump_args(Some("0x100"), Some("32")), Some((0x100, 32)));
    assert_eq!(dump_args(Some("zz"), Some("0")), None);
    assert_eq!(dump_args(None, Some("4097")), None);
    assert_eq!(dump_args(None, Some("4096")), Some((0, 4096)));
    let line = dump_line(0x10, b"AB\x00");
    let text = String::from_utf8(line).unwrap();
    let expected = format!("00000010  41 42 00 {} {} |AB.|", "   ".repeat(5), "   ".repeat(8));
    assert_eq!(text, expected);
    let full = String::from_utf8(dump_line(0xdeadbeef, b"0123456789abcdef")).unwrap();
    assert_eq!(full, "deadbeef  30 31 32 33 34 35 36 37  38 39 61 62 63 64 65 66  |0123456789abcdef|");
}

#[test]
fn small_numeric_helpers() {
    assert_eq!(hms(3725), (1, 2, 5));
    assert_eq!(percent(1, 3), 33);
    assert_eq!(ephemeral_port(64512 + 5), 1029);
    assert_eq!(fallback_mac([10, 0, 2, 99]), [0x52, 0x55, 0x0a, 10, 0, 2]);
    assert_eq!(known_gateway_mac([10, 0, 2, 2]), Some([0x52, 0x55, 0x0a, 0, 2, 2]));
    assert_eq!(known_gateway_mac([10, 0, 2, 3]), None);
}
