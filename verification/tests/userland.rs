use elminux::elinit::{driver_order, spawn_driver, spawn_shell};
use elminux::elstd::env::{set_var, var};
use elminux::elstd::io::{ReadError, WriteError};
use elminux::elstd::ipc::{self, Channel, RecvError, SendError};
use elminux::elstd::string::{encode_char, ElString};
use elminux::elstd::thread::{Mutex, Thread};
use elminux::epkg::{cmd_build, cmd_install, cmd_list, cmd_remove, cmd_verify, Command};
use elminux::modsh::builtin::Builtin;
use elminux::modsh::interactive::{read_line, LineEditor};
use elminux::modsh::pipeline::{Pipeline, Stage};
use elminux::modsh::{run, Config};

#[test]
fn utf8_encoding_of_chars() {
    assert_eq!(encode_char('A'), vec![0x41]);
    assert_eq!(encode_char('é'), vec![0xC3, 0xA9]);
    assert_eq!(encode_char('€'), vec![0xE2, 0x82, 0xAC]);
    assert_eq!(encode_char('😀'), vec![0xF0, 0x9F, 0x98, 0x80]);
    for c in ['\0', '\u{7F}', '\u{80}', '\u{7FF}', '\u{800}', '\u{FFFF}', '\u{10000}', '\u{10FFFF}'] {
        let mut buf = [0u8; 4];
        assert_eq!(encode_char(c), c.encode_utf8(&mut buf).as_bytes().to_vec());
    }
}

#[test]
fn elstring_builds_text() {
    let mut s = ElString::new();
    assert!(s.is_empty());
    assert_eq!(s.len(), 0);
    s.push('h');
    s.push_str("éllo");
    s.push('!');
    assert_eq!(s.as_str(), "héllo!");
    assert_eq!(s.len(), 7);
    assert!(!s.is_empty());
    let t = ElString::from_str("grüße");
    assert_eq!(t.as_str(), "grüße");
    assert_eq!(t.len(), 7);
    assert!(ElString::default().is_empty());
}

#[test]
fn line_editor_editing() {
    let mut e = LineEditor::new();
    assert_eq!(e.as_str(), "");
    for b in b"lsx" {
        e.insert(*b);
    }
    e.backspace();
    assert_eq!(e.as_str(), "ls");
    e.clear();
    assert_eq!(e.as_str(), "");
    e.backspace();
    assert_eq!(e.as_str(), "");
}

#[test]
fn line_editor_ignores_input_when_full() {
    let mut e = LineEditor::new();
    for _ in 0..300 {
        e.insert(b'a');
    }
    assert_eq!(e.as_str().len(), 256);
    e.backspace();
    e.insert(b'b');
    assert!(e.as_str().ends_with("ab"));
    assert_eq!(read_line("$ ").as_str(), "");
}

#[test]
fn builtins_by_name() {
    assert!(Builtin::from_str("cd") == Some(Builtin::Cd));
    assert!(Builtin::from_str("echo") == Some(Builtin::Echo));
    assert!(Builtin::from_str("exit") == Some(Builtin::Exit));
    assert!(Builtin::from_str("ls") == Some(Builtin::Ls));
    assert!(Builtin::from_str("cat") == Some(Builtin::Cat));
    assert!(Builtin::from_str("rm").is_none());
    assert!(Builtin::from_str("").is_none());
    assert!(Builtin::from_str("CD").is_none());
    assert_eq!(Builtin::Echo.execute(&["hi"]), 0);
    assert_eq!(Builtin::Cat.execute(&[]), 0);
}

#[test]
fn pipeline_holds_four_stages() {
    let mut p = Pipeline::new();
    for _ in 0..6 {
        p.add(Stage { command: "ls", args: &[] });
    }
    assert_eq!(p.execute(), 0);
}

#[test]
fn shell_config() {
    let c = Config::new();
    assert!(c.interactive);
    assert!(!c.echo);
    run(c);
}

#[test]
fn std_stubs() {
    assert!(var("PATH").is_none());
    set_var("PATH", "/bin");
    assert!(ipc::send(1, &[1, 2]).is_ok());
    let mut buf = [7u64; 2];
    assert!(ipc::recv(1, &mut buf).is_ok());
    assert_eq!(buf, [7, 7]);
    let ch: Channel<u32> = Channel::new(3);
    assert!(ch.send(5).is_ok());
    assert!(matches!(ch.recv(), Err(RecvError::WouldBlock)));
    assert!(SendError::InvalidCap != SendError::Other);
    assert!(ReadError::WouldBlock != ReadError::Other);
    assert!(WriteError::Interrupted == WriteError::Interrupted);
    elminux::elstd::init();
}

#[test]
fn threads_and_mutex() {
    let t = Thread::spawn(|| {});
    t.join();
    let mut m = Mutex::new(1u8);
    *m.lock() += 2;
    assert_eq!(*m.lock(), 3);
}

#[test]
fn init_process_order() {
    let names = driver_order();
    assert_eq!(names, vec!["serial", "keyboard", "framebuffer", "block", "fs"]);
    for n in names {
        spawn_driver(n);
    }
    spawn_shell();
}

#[test]
fn package_commands() {
    let c = Command::Install(String::from("hello"));
    assert!(matches!(c, Command::Install(ref p) if p == "hello"));
    cmd_install("hello");
    cmd_remove("hello");
    cmd_list();
    cmd_verify();
    cmd_build("epkg.toml");
}
