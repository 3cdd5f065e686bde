use async_std::buf_writer::{BufWriter, FlushError, FlushStep, WriteOutcome, WritePlan};

#[test]
fn test_buffered_writer() {
    let inner = Vec::new();
    let mut writer = BufWriter::with_capacity(2, inner);

    writer.write(&[0, 1]).unwrap();
    assert_eq!(writer.buffer(), []);
    assert_eq!(*writer.get_ref(), [0, 1]);

    writer.write(&[2]).unwrap();
    assert_eq!(writer.buffer(), [2]);
    assert_eq!(*writer.get_ref(), [0, 1]);

    writer.write(&[3]).unwrap();
    assert_eq!(writer.buffer(), [2, 3]);
    assert_eq!(*writer.get_ref(), [0, 1]);

    writer.flush().unwrap();
    assert_eq!(writer.buffer(), []);
    assert_eq!(*writer.get_ref(), [0, 1, 2, 3]);

    writer.write(&[4]).unwrap();
    writer.write(&[5]).unwrap();
    assert_eq!(writer.buffer(), [4, 5]);
    assert_eq!(*writer.get_ref(), [0, 1, 2, 3]);

    writer.write(&[6]).unwrap();
    assert_eq!(writer.buffer(), [6]);
    assert_eq!(*writer.get_ref(), [0, 1, 2, 3, 4, 5]);

    writer.write(&[7, 8]).unwrap();
    assert_eq!(writer.buffer(), []);
    assert_eq!(*writer.get_ref(), [0, 1, 2, 3, 4, 5, 6, 7, 8]);

    writer.write(&[9, 10, 11]).unwrap();
    assert_eq!(writer.buffer(), []);
    assert_eq!(*writer.get_ref(), [0, 1, 2, 3, 4, 5, 6, 7, 8, 9, 10, 11]);

    writer.flush().unwrap();
    assert_eq!(writer.buffer(), []);
    assert_eq!(*writer.get_ref(), [0, 1, 2, 3, 4, 5, 6, 7, 8, 9, 10, 11]);
}

#[test]
fn test_buffered_writer_inner_into_inner_does_not_flush() {
    let mut w = BufWriter::with_capacity(3, Vec::new());
    w.write(&[0, 1]).unwrap();
    assert_eq!(*w.get_ref(), []);
    let w = w.into_inner();
    assert_eq!(w, []);
}

#[test]
fn new_writer_has_default_capacity() {
    let w: BufWriter<Vec<u8>> = BufWriter::new(Vec::new());
    assert_eq!(w.capacity(), 8192);
    assert_eq!(w.buffer(), []);
}

#[test]
fn write_all_keeps_order_across_small_buffer() {
    let mut w = BufWriter::with_capacity(3, Vec::new());
    w.write_all(&[0, 1, 2, 3, 4, 5]).unwrap();
    w.write_all(&[6, 7]).unwrap();
    assert_eq!(*w.get_ref(), [0, 1, 2, 3, 4, 5]);
    assert_eq!(w.buffer(), [6, 7]);
    w.close().unwrap();
    assert_eq!(*w.get_ref(), [0, 1, 2, 3, 4, 5, 6, 7]);
    assert_eq!(w.buffer(), []);
}

#[test]
fn get_mut_changes_inner_writer() {
    let mut w = BufWriter::with_capacity(4, vec![9u8]);
    w.get_mut().push(8);
    assert_eq!(*w.get_ref(), [9, 8]);
}

#[test]
fn plan_and_flush_decisions() {
    let mut w = BufWriter::with_capacity(4, ());
    assert_eq!(w.plan_write(4), WritePlan::Direct);
    assert_eq!(w.plan_write(3), WritePlan::Buffer);
    assert!(!w.must_flush_before(4));
    assert_eq!(w.buffer_write(&[1, 2, 3]), 3);
    assert!(w.must_flush_before(2));
    assert!(!w.must_flush_before(1));
    assert!(w.flush_in_progress());
    assert_eq!(w.record_flush_write(WriteOutcome::Wrote(2)), FlushStep::Continue);
    assert_eq!(w.unflushed(), [3]);
    assert_eq!(w.record_flush_write(WriteOutcome::Interrupted), FlushStep::Continue);
    assert_eq!(w.record_flush_write(WriteOutcome::Pending), FlushStep::Pending);
    assert_eq!(w.unflushed(), [3]);
    assert_eq!(
        w.record_flush_write(WriteOutcome::Wrote(0)),
        FlushStep::Stop(FlushError::WriteZero)
    );
    w.finish_flush();
    assert_eq!(w.buffer(), [3]);
    assert_eq!(w.record_flush_write(WriteOutcome::Failed), FlushStep::Stop(FlushError::Inner));
    w.finish_flush();
    assert_eq!(w.buffer(), [3]);
    assert_eq!(w.record_flush_write(WriteOutcome::Wrote(1)), FlushStep::Continue);
    assert!(!w.flush_in_progress());
    w.finish_flush();
    assert_eq!(w.buffer(), []);
}

#[test]
fn direct_write_is_recorded_without_touching_the_buffer() {
    let mut w = BufWriter::with_capacity(2, Vec::<u8>::new());
    assert_eq!(w.plan_write(5), WritePlan::Direct);
    assert_eq!(w.record_direct_write(&[1, 2, 3, 4, 5], 3), 3);
    assert_eq!(w.buffer(), []);
}
