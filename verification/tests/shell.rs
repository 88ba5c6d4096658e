use zerosh::cd::{cd_target, run_cd, CdTarget};
use zerosh::effect::ShellMsg;
use zerosh::shell::{AnswerStep, ReadEvent, ReadStep, Session, Shell};
use zerosh::syscall::{syscall, Attempt, ErrorKind, SysError};

#[test]
fn keeps_the_name_of_the_history() {
    assert_eq!(Shell::new(".zerosh_history").logfile(), ".zerosh_history");
}

#[test]
fn prompt_shows_the_last_code() {
    assert_eq!(Shell::prompt(0), "ZeroSh \u{1F642} %>");
    assert_eq!(Shell::prompt(1), "ZeroSh \u{1F480} %>");
    assert_eq!(Shell::prompt(-1), "ZeroSh \u{1F480} %>");
}

#[test]
fn blank_lines_are_passed_over() {
    assert_eq!(Shell::on_read(ReadEvent::Line("".to_string())), ReadStep::Again);
    assert_eq!(Shell::on_read(ReadEvent::Line(" \t ".to_string())), ReadStep::Again);
}

#[test]
fn history_keeps_the_trimmed_line() {
    assert_eq!(
        Shell::on_read(ReadEvent::Line("  ls -l ".to_string())),
        ReadStep::Submit { entry: "ls -l".to_string(), line: "  ls -l ".to_string() }
    );
}

#[test]
fn other_reads() {
    assert_eq!(
        Shell::on_read(ReadEvent::Interrupted),
        ReadStep::Warn("ZeroSh: 終了はCtrl + D".to_string())
    );
    assert_eq!(
        Shell::on_read(ReadEvent::Eof),
        ReadStep::SubmitLast { line: "exit".to_string() }
    );
    assert_eq!(
        Shell::on_read(ReadEvent::Failed("broken".to_string())),
        ReadStep::Leave { warning: "Zerosh: 組み込みエラー\nbroken".to_string(), code: 1 }
    );
}

#[test]
fn answers_are_followed() {
    assert_eq!(Shell::on_answer(false, ShellMsg::Continue(3)), AnswerStep::Read(3));
    assert_eq!(Shell::on_answer(false, ShellMsg::Quit(4)), AnswerStep::Leave(4));
    assert_eq!(Shell::on_answer(true, ShellMsg::Quit(5)), AnswerStep::Leave(5));
}

#[test]
fn cd_goes_where_it_is_told() {
    let home = std::path::PathBuf::from("/home/me");
    assert!(matches!(cd_target(&["cd"], Some(home.clone())), CdTarget::Home(p) if p == home));
    assert!(matches!(cd_target(&["cd"], None), CdTarget::Named(n) if n == "/"));
    assert!(matches!(cd_target(&["cd", "a", "b"], Some(home)), CdTarget::Named(n) if n == "a"));
    assert!(matches!(run_cd(&["cd", "/tmp"]), CdTarget::Named(n) if n == "/tmp"));
}

#[test]
fn cd_alone_goes_home() {
    match (run_cd(&["cd"]), dirs::home_dir()) {
        (CdTarget::Home(dir), Some(home)) => assert_eq!(dir, home),
        (CdTarget::Named(name), None) => assert_eq!(name, "/"),
        other => panic!("{:?}", other),
    }
}

#[test]
fn interrupted_calls_are_made_again() {
    let e = |kind: ErrorKind| SysError { kind, text: "text".to_string() };
    assert!(matches!(syscall::<i32>(Err(e(ErrorKind::Interrupted))), Attempt::Again));
    assert!(matches!(syscall(Ok(7)), Attempt::Done(Ok(7))));
    match syscall::<i32>(Err(e(ErrorKind::NoChild))) {
        Attempt::Done(Err(e)) => {
            assert_eq!(e.kind, ErrorKind::NoChild);
            assert_eq!(e.text, "text");
        }
        other => panic!("{:?}", other),
    }
}

#[test]
fn prompt_follows_the_answers_of_a_session() {
    let smile = "ZeroSh \u{1F642} %>";
    let skull = "ZeroSh \u{1F480} %>";
    let mut s = Session::new();
    assert_eq!(s.prompt(), smile);
    s.read(ReadEvent::Line("false".to_string()));
    assert_eq!(s.prompt(), smile);
    assert_eq!(s.answered(ShellMsg::Continue(2)), AnswerStep::Read(2));
    assert_eq!(s.prompt(), skull);
    assert_eq!(s.read(ReadEvent::Line("  ".to_string())), ReadStep::Again);
    assert_eq!(s.prompt(), skull);
    assert!(matches!(s.read(ReadEvent::Interrupted), ReadStep::Warn(_)));
    assert_eq!(s.prompt(), skull);
    s.read(ReadEvent::Line("true".to_string()));
    assert_eq!(s.answered(ShellMsg::Continue(0)), AnswerStep::Read(0));
    assert_eq!(s.prompt(), smile);
}

#[test]
fn end_of_input_has_to_be_answered_by_leaving() {
    let mut s = Session::new();
    assert!(s.accepts(ShellMsg::Continue(1)));
    assert_eq!(s.read(ReadEvent::Eof), ReadStep::SubmitLast { line: "exit".to_string() });
    assert!(!s.accepts(ShellMsg::Continue(1)));
    assert!(s.accepts(ShellMsg::Quit(3)));
    assert_eq!(s.answered(ShellMsg::Quit(3)), AnswerStep::Leave(3));
}
