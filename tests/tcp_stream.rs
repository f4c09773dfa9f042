use bevy_net::socket_manager::ErrorAction;
use bevy_net::tcp_stream::{
    FlushStep, IoErrorKind, PeakIter, TcpStreamBuffer, TcpStreamDiagnostics,
    TcpStreamTerminalError,
};

fn fresh() -> TcpStreamBuffer {
    TcpStreamBuffer::build(&()).unwrap()
}

fn front(buffer: &TcpStreamBuffer) -> Option<Vec<u8>> {
    buffer.front_chunk().map(|c| c.iter().copied().collect())
}

fn peek_all(buffer: &TcpStreamBuffer) -> Vec<u8> {
    let mut it = PeakIter::new(buffer);
    let mut out = Vec::new();
    while let Some(b) = it.next() {
        out.push(b);
    }
    out
}

#[test]
fn peek_yields_bytes_in_arrival_order() {
    let mut buffer = fresh();
    let mut data = TcpStreamDiagnostics::new();
    assert_eq!(buffer.fill_read_bufs(Ok(vec![1, 2, 3]), &mut data), Ok(()));
    assert_eq!(buffer.fill_read_bufs(Ok(vec![4, 5]), &mut data), Ok(()));
    assert_eq!(peek_all(&buffer), vec![1, 2, 3, 4, 5]);
    assert_eq!(peek_all(&buffer), vec![1, 2, 3, 4, 5]);
}

#[test]
fn peek_skips_empty_chunks_and_ends() {
    let mut buffer = fresh();
    let mut data = TcpStreamDiagnostics::new();
    assert_eq!(peek_all(&buffer), Vec::<u8>::new());
    buffer.fill_read_bufs(Ok(vec![]), &mut data).unwrap();
    buffer.fill_read_bufs(Ok(vec![9]), &mut data).unwrap();
    let mut it = PeakIter::new(&buffer);
    assert_eq!(it.next(), Some(9));
    assert_eq!(it.next(), None);
    assert_eq!(it.next(), None);
}

#[test]
fn read_records_bytes_and_capacity_hint() {
    let mut buffer = fresh();
    let mut data = TcpStreamDiagnostics::new();
    assert_eq!(buffer.read_capacity(), 0);
    assert_eq!(buffer.fill_read_bufs(Ok(vec![7; 10]), &mut data), Ok(()));
    assert_eq!(data.read, 10);
    assert_eq!(buffer.read_capacity(), 20);
    assert_eq!(buffer.terminal_error(), None);
}

#[test]
fn read_would_block_is_benign() {
    let mut buffer = fresh();
    let mut data = TcpStreamDiagnostics { written: 0, read: 4 };
    assert_eq!(buffer.fill_read_bufs(Err(IoErrorKind::WouldBlock), &mut data), Ok(()));
    assert_eq!(data.read, 0);
    assert_eq!(buffer.terminal_error(), None);
    assert_eq!(peek_all(&buffer), Vec::<u8>::new());
}

#[test]
fn read_failure_is_terminal_unexpected() {
    let mut buffer = fresh();
    let mut data = TcpStreamDiagnostics::new();
    assert_eq!(
        buffer.fill_read_bufs(Err(IoErrorKind::Other), &mut data),
        Err(ErrorAction::Drop)
    );
    assert_eq!(
        buffer.terminal_error(),
        Some(TcpStreamTerminalError::Unexpected(IoErrorKind::Other))
    );
}

#[test]
fn partial_write_drains_front_of_first_chunk() {
    let mut buffer = fresh();
    let mut data = TcpStreamDiagnostics::new();
    buffer.queue_write(&[1, 2, 3, 4]);
    buffer.queue_write(&[5, 6]);
    assert!(buffer.start_flush(&mut data));
    assert_eq!(buffer.flush_write_bufs(Ok(3), &mut data), FlushStep::Continue);
    assert_eq!(data.written, 3);
    assert_eq!(front(&buffer), Some(vec![4]));
    assert_eq!(buffer.flush_write_bufs(Ok(1), &mut data), FlushStep::Continue);
    assert_eq!(front(&buffer), Some(vec![5, 6]));
    assert_eq!(data.written, 4);
}

#[test]
fn exact_write_pops_chunk() {
    let mut buffer = fresh();
    let mut data = TcpStreamDiagnostics::new();
    buffer.queue_write(&[1, 2]);
    buffer.queue_write(&[]);
    buffer.queue_write(&[3]);
    assert!(buffer.start_flush(&mut data));
    assert_eq!(buffer.flush_write_bufs(Ok(2), &mut data), FlushStep::Continue);
    assert_eq!(front(&buffer), Some(vec![3]));
    assert_eq!(buffer.flush_write_bufs(Ok(1), &mut data), FlushStep::Done(Ok(())));
    assert_eq!(front(&buffer), None);
    assert_eq!(data.written, 3);
    assert!(!buffer.start_flush(&mut data));
    assert_eq!(data.written, 0);
}

#[test]
fn benign_write_stops_set_no_error() {
    for outcome in [Ok(0), Err(IoErrorKind::WouldBlock), Err(IoErrorKind::WriteZero)] {
        let mut buffer = fresh();
        let mut data = TcpStreamDiagnostics::new();
        buffer.queue_write(&[1, 2]);
        assert_eq!(buffer.flush_write_bufs(outcome, &mut data), FlushStep::Done(Ok(())));
        assert_eq!(buffer.terminal_error(), None);
        assert_eq!(front(&buffer), Some(vec![1, 2]));
        assert_eq!(data.written, 0);
    }
}

#[test]
fn disconnects_on_write_are_not_connected() {
    for kind in [
        IoErrorKind::ConnectionReset,
        IoErrorKind::ConnectionAborted,
        IoErrorKind::ConnectionRefused,
        IoErrorKind::NotConnected,
    ] {
        let mut buffer = fresh();
        let mut data = TcpStreamDiagnostics::new();
        buffer.queue_write(&[1]);
        assert_eq!(
            buffer.flush_write_bufs(Err(kind), &mut data),
            FlushStep::Done(Err(ErrorAction::Drop))
        );
        assert_eq!(buffer.terminal_error(), Some(TcpStreamTerminalError::NotConnected));
    }
}

#[test]
fn other_write_failure_is_unexpected() {
    let mut buffer = fresh();
    let mut data = TcpStreamDiagnostics::new();
    buffer.queue_write(&[1]);
    assert_eq!(
        buffer.flush_write_bufs(Err(IoErrorKind::BrokenPipe), &mut data),
        FlushStep::Done(Err(ErrorAction::Drop))
    );
    assert_eq!(
        buffer.terminal_error(),
        Some(TcpStreamTerminalError::Unexpected(IoErrorKind::BrokenPipe))
    );
}

#[test]
fn terminal_error_descriptions() {
    assert_eq!(TcpStreamTerminalError::NotConnected.description(), "Not Connected");
    assert_eq!(TcpStreamTerminalError::Reset.description(), "Reset");
    assert_eq!(
        TcpStreamTerminalError::Unexpected(IoErrorKind::TimedOut).description(),
        "timed out"
    );
}

#[test]
fn additional_updates_do_nothing() {
    let mut buffer = fresh();
    let mut data = TcpStreamDiagnostics { written: 2, read: 3 };
    assert_eq!(buffer.additional_updates(&mut data), Ok(()));
    assert_eq!(data, TcpStreamDiagnostics { written: 2, read: 3 });
}

#[test]
fn write_report_beyond_front_chunk_pops_only_that_chunk() {
    let mut buffer = fresh();
    let mut data = TcpStreamDiagnostics::new();
    buffer.queue_write(&[1, 2]);
    buffer.queue_write(&[3]);
    assert_eq!(buffer.flush_write_bufs(Ok(5), &mut data), FlushStep::Continue);
    assert_eq!(front(&buffer), Some(vec![3]));
    assert_eq!(data.written, 2);
}

#[test]
fn write_on_empty_queue_finishes() {
    let mut buffer = fresh();
    let mut data = TcpStreamDiagnostics { written: 1, read: 0 };
    assert_eq!(buffer.flush_write_bufs(Ok(4), &mut data), FlushStep::Done(Ok(())));
    assert_eq!(data.written, 1);
    assert_eq!(front(&buffer), None);
}

#[test]
fn written_count_saturates() {
    let mut buffer = fresh();
    let mut data = TcpStreamDiagnostics { written: usize::MAX - 1, read: 0 };
    buffer.queue_write(&[1, 2, 3]);
    assert_eq!(buffer.flush_write_bufs(Ok(3), &mut data), FlushStep::Done(Ok(())));
    assert_eq!(data.written, usize::MAX);
}

#[test]
fn error_kind_descriptions() {
    assert_eq!(IoErrorKind::WouldBlock.description(), "operation would block");
    assert_eq!(IoErrorKind::ConnectionReset.description(), "connection reset");
    assert_eq!(IoErrorKind::Other.description(), "other error");
}
