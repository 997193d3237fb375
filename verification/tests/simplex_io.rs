use dandelion::simplex_io::{Incoming, ReadOutcome, ShutdownStep, SimplexStream};

#[test]
fn simplex_stream_buffers_and_reads_data() {
    let mut s = SimplexStream::new();
    assert!(s.buffered().is_none());
    assert_eq!(s.on_message(Incoming::Data(vec![1, 2, 3, 4, 5])), ReadOutcome::Data);
    assert_eq!(s.buffered(), Some(&vec![1, 2, 3, 4, 5]));
    assert_eq!(s.read(2), vec![1, 2]);
    assert_eq!(s.buffered(), Some(&vec![3, 4, 5]));
    s.consume(0);
    assert_eq!(s.buffered(), Some(&vec![3, 4, 5]));
    assert_eq!(s.read(10), vec![3, 4, 5]);
    assert!(s.buffered().is_none());
}

#[test]
fn simplex_stream_text_is_data_unless_eof() {
    let mut s = SimplexStream::new();
    assert_eq!(s.on_message(Incoming::Text("hi".to_string())), ReadOutcome::Data);
    assert_eq!(s.buffered(), Some(&b"hi".to_vec()));
    s.consume(2);
    assert_eq!(s.on_message(Incoming::Text("EOF".to_string())), ReadOutcome::Eof { wake: false });
    assert!(s.buffered().is_none());
}

#[test]
fn simplex_stream_shutdown_waits_for_both_eofs() {
    let mut s = SimplexStream::new();
    assert_eq!(s.shutdown_step(), ShutdownStep::SendEof);
    s.eof_sent();
    assert_eq!(s.shutdown_step(), ShutdownStep::Wait);
    assert_eq!(s.on_message(Incoming::Failed), ReadOutcome::Error);
    assert_eq!(s.shutdown_step(), ShutdownStep::Wait);
    assert_eq!(s.on_message(Incoming::Text("EOF".to_string())), ReadOutcome::Eof { wake: true });
    assert_eq!(s.shutdown_step(), ShutdownStep::Close);
    assert_eq!(s.on_message(Incoming::Ended), ReadOutcome::Eof { wake: false });
}

#[test]
fn simplex_stream_end_before_eof() {
    let mut s = SimplexStream::new();
    s.eof_sent();
    assert_eq!(s.on_message(Incoming::Ended), ReadOutcome::Eof { wake: true });
    assert_eq!(s.shutdown_step(), ShutdownStep::Close);
}
