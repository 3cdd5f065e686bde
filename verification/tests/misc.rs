use async_std::buf_read::SliceReader;
use async_std::buf_writer::WriteOutcome;
use async_std::copy::{copy, copy_advance, copy_next, CopyAction, CopyStep};
use async_std::driver::Readiness;
use async_std::error::{ErrorKind, IoError};
use async_std::path::PathBuf;
use async_std::process::{ChildDropGuard, ChildWait, WaitAction, WaitOutcome};
use async_std::stdio::{decide_flush, decide_read, decide_read_line, decide_write, Decision, Operation};
use async_std::timeout::timeout_outcome;
use async_std::write::WriteAllFuture;

#[test]
fn copy_moves_everything() {
    let mut reader = SliceReader::new(b"hello world".to_vec());
    let mut writer = b">".to_vec();
    assert_eq!(copy(&mut reader, &mut writer), Ok(11));
    assert_eq!(writer, b">hello world");
    assert_eq!(reader.fill_buf(), b"");
    assert_eq!(copy_advance(5, WriteOutcome::Wrote(0)), CopyStep::Stop(ErrorKind::WriteZero));
    assert_eq!(copy_advance(5, WriteOutcome::Wrote(3)), CopyStep::Advance(3, 8));
    assert_eq!(copy_advance(5, WriteOutcome::Interrupted), CopyStep::Retry);
    assert_eq!(copy_advance(5, WriteOutcome::Failed), CopyStep::Failed);
    assert_eq!(copy_advance(5, WriteOutcome::Pending), CopyStep::Pending);
    assert_eq!(copy_next(0), CopyAction::Flush);
    assert_eq!(copy_next(2), CopyAction::Write);
}

#[test]
fn write_all_progress() {
    let mut w = WriteAllFuture::new(5);
    assert!(!w.is_done());
    assert_eq!(w.record_written(2), Ok(()));
    assert_eq!(w.position(), 2);
    assert_eq!(w.record_written(0), Err(ErrorKind::WriteZero));
    assert_eq!(w.record_written(3), Ok(()));
    assert!(w.is_done());
    assert!(WriteAllFuture::new(0).is_done());
}

#[test]
fn timeouts() {
    assert_eq!(timeout_outcome::<u8, u8>(Some(Ok(1)), true), Some(Ok(1)));
    assert_eq!(timeout_outcome::<u8, u8>(Some(Err(2)), true), Some(Err(IoError::Inner(2))));
    assert_eq!(timeout_outcome::<u8, u8>(None, false), None);
    assert_eq!(
        timeout_outcome::<u8, u8>(None, true),
        Some(Err(IoError::Kind(ErrorKind::TimedOut)))
    );
}

#[test]
fn stdio_decisions() {
    assert_eq!(decide_read::<u8>(Some(Operation::Read(Ok(3))), 4), Decision::Ready(Ok(3)));
    assert_eq!(decide_read::<u8>(Some(Operation::Read(Ok(5))), 4), Decision::Start);
    assert_eq!(decide_read::<u8>(Some(Operation::Read(Err(9))), 4), Decision::Ready(Err(9)));
    assert_eq!(decide_read::<u8>(Some(Operation::ReadLine(Ok(1))), 4), Decision::Start);
    assert_eq!(decide_read::<u8>(None, 4), Decision::Start);
    assert_eq!(decide_read_line::<u8>(Some(Operation::ReadLine(Ok(6)))), Decision::Ready(Ok(6)));
    assert_eq!(decide_read_line::<u8>(Some(Operation::Read(Ok(6)))), Decision::Start);
    assert_eq!(decide_write::<u8>(Some(Operation::Write(Ok(2))), 2), Decision::Ready(Ok(2)));
    assert_eq!(decide_write::<u8>(Some(Operation::Write(Ok(3))), 2), Decision::Start);
    assert_eq!(decide_write::<u8>(Some(Operation::Flush(Ok(()))), 2), Decision::Start);
    assert_eq!(decide_flush::<u8>(Some(Operation::Flush(Err(1)))), Decision::Ready(Err(1)));
    assert_eq!(decide_flush::<u8>(None), Decision::Start);
}

#[test]
fn drop_guard_disarms() {
    let mut g = ChildDropGuard::new(7);
    assert!(g.kills_on_drop());
    g.record_kill(false);
    assert!(g.kills_on_drop());
    g.record_poll(false);
    assert!(g.kills_on_drop());
    g.record_poll(true);
    assert!(!g.kills_on_drop());
    let mut g = ChildDropGuard::new(7);
    g.record_kill(true);
    assert!(!g.kills_on_drop());
    let mut g = ChildDropGuard::new(7);
    g.forget();
    assert!(!g.kills_on_drop());
    *g.get_mut() = 8;
    assert_eq!(*g.get_ref(), 8);
}

#[test]
fn pathbuf_push_and_pop() {
    let mut path = PathBuf::new();
    assert_eq!(path.as_path(), "");
    path.push("/tmp");
    path.push("file.bk");
    assert_eq!(path.as_path(), "/tmp/file.bk");
    path.push("/etc");
    assert_eq!(path.as_path(), "/etc");

    let mut p = PathBuf::from_string("/spirited/away.rs".to_string());
    assert!(p.pop());
    assert_eq!(p.as_path(), "/spirited");
    assert!(p.pop());
    assert_eq!(p.as_path(), "/");
    assert!(!p.pop());
    assert_eq!(p.as_path(), "/");
}

#[test]
fn pathbuf_file_name_and_extension() {
    let mut buf = PathBuf::from_string("/".to_string());
    buf.set_file_name("bar");
    assert_eq!(buf.as_path(), "/bar");
    buf.set_file_name("baz.txt");
    assert_eq!(buf.as_path(), "/baz.txt");

    let mut p = PathBuf::from_string("/feel/the".to_string());
    assert!(p.set_extension("force"));
    assert_eq!(p.as_path(), "/feel/the.force");
    assert!(p.set_extension("dark_side"));
    assert_eq!(p.into_string(), "/feel/the.dark_side");
    let mut root = PathBuf::from_string("/".to_string());
    assert!(!root.set_extension("x"));
}

#[test]
fn readiness_wakes_and_clears() {
    let mut r = Readiness::new();
    assert!(!r.is_readable());
    assert!(!r.is_writable());
    assert_eq!(r.record_event(1), (true, false));
    assert!(r.is_readable());
    assert!(!r.is_writable());
    assert_eq!(r.record_event(2), (false, true));
    assert!(r.is_writable());
    r.clear_readable();
    assert!(!r.is_readable());
    assert!(r.is_writable());
    r.clear_writable();
    assert!(!r.is_writable());
    assert_eq!(r.record_event(8), (true, true));
    r.clear_readable();
    r.clear_writable();
    assert!(r.is_readable());
    assert!(r.is_writable());
}

#[test]
fn pathbuf_collects_and_extends_from_paths() {
    let p = PathBuf::from_stream(vec!["/tmp".to_string(), "a".to_string(), "b.txt".to_string()]);
    assert_eq!(p.as_path(), "/tmp/a/b.txt");

    let mut q = PathBuf::from_string("usr".to_string());
    q.stream_extend(vec!["lib".to_string(), "/etc".to_string(), "hosts".to_string()]);
    assert_eq!(q.as_path(), "/etc/hosts");

    let empty = PathBuf::from_stream(Vec::new());
    assert_eq!(empty.as_path(), "");
}

#[test]
fn pathbuf_extending_twice_is_extending_once() {
    let mut twice = PathBuf::from_string("base".to_string());
    twice.stream_extend(vec!["x".to_string(), "/abs".to_string()]);
    twice.stream_extend(vec!["y".to_string()]);
    let mut once = PathBuf::from_string("base".to_string());
    once.stream_extend(vec!["x".to_string(), "/abs".to_string(), "y".to_string()]);
    assert_eq!(twice.as_path(), once.as_path());
    assert_eq!(once.as_path(), "/abs/y");
}

#[test]
fn child_wait_registers_then_waits_for_the_signal() {
    let mut w = ChildWait::new();
    assert_eq!(w.start(), WaitAction::TryWait);
    assert_eq!(w.record_try_wait::<u32, String>(Ok(None)), WaitOutcome::Next(WaitAction::RegisterWait));
    assert_eq!(w.record_register::<String>(Ok(())), WaitOutcome::Next(WaitAction::PollSignal));
    assert_eq!(w.start(), WaitAction::PollSignal);
    assert_eq!(w.record_signal(false), None);
    assert_eq!(w.record_signal(true), Some(WaitAction::TryWait));
    assert_eq!(w.record_try_wait::<u32, String>(Ok(Some(3))), WaitOutcome::Ready(Ok(3)));
    // Signalled, yet the child has not exited.
    assert_eq!(w.record_try_wait::<u32, String>(Ok(None)), WaitOutcome::NotExited);
}

#[test]
fn child_wait_reports_errors() {
    let mut w = ChildWait::new();
    assert_eq!(w.record_try_wait::<u32, String>(Err("gone".to_string())), WaitOutcome::Ready(Err("gone".to_string())));
    assert_eq!(w.record_try_wait::<u32, String>(Ok(Some(0))), WaitOutcome::Ready(Ok(0)));
    assert_eq!(w.record_register::<String>(Err("no wait".to_string())), WaitOutcome::Ready(Err("no wait".to_string())));
    assert_eq!(w.start(), WaitAction::TryWait);
}

#[test]
fn readiness_error_bit_wakes_readers() {
    let mut r = Readiness::new();
    assert_eq!(r.record_event(4), (true, false));
    assert!(r.is_readable());
    let mut custom = Readiness::with_ready(0b100_1111, 2, 8);
    assert_eq!(custom.record_event(64), (true, false));
    assert_eq!(custom.record_event(2), (false, true));
}

#[test]
fn pathbuf_push_adds_a_separator_only_when_needed() {
    let mut p = PathBuf::from_string("a".to_string());
    p.push("");
    assert_eq!(p.as_path(), "a/");
    p.push("b");
    assert_eq!(p.as_path(), "a/b");
    let mut q = PathBuf::new();
    q.push("rel");
    assert_eq!(q.as_path(), "rel");
    let mut empty = PathBuf::new();
    assert!(!empty.pop());
    assert_eq!(empty.as_path(), "");
}
