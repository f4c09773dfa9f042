use bevy_net::socket_manager::{BufferUpdateResult, ErrorAction, SocketManger};
use bevy_net::tcp_stream::{
    FlushStep, IoErrorKind, TcpStreamManager, TcpStreamTerminalError,
};

struct MockSocket {
    reads: Vec<Result<Vec<u8>, IoErrorKind>>,
    write: Result<usize, IoErrorKind>,
}

impl MockSocket {
    fn read(&mut self) -> Result<Vec<u8>, IoErrorKind> {
        if self.reads.is_empty() {
            Err(IoErrorKind::WouldBlock)
        } else {
            self.reads.remove(0)
        }
    }
}

fn run_cycle(manager: &mut TcpStreamManager<MockSocket>) {
    let entries = manager.inner.take_entries();
    for mut e in entries {
        let results = if e.needs_io() {
            let socket = e.socket.as_mut().unwrap();
            let write_result = if e.buffer.start_flush(&mut e.data) {
                loop {
                    let len = e.buffer.front_chunk().unwrap().len();
                    let outcome = socket.write.map(|n| n.min(len));
                    match e.buffer.flush_write_bufs(outcome, &mut e.data) {
                        FlushStep::Continue => {}
                        FlushStep::Done(r) => break r,
                    }
                }
            } else {
                Ok(())
            };
            let read_result = e.buffer.fill_read_bufs(socket.read(), &mut e.data);
            let additional_result = e.buffer.additional_updates(&mut e.data);
            Some(BufferUpdateResult { write_result, read_result, additional_result })
        } else {
            None
        };
        e.update(results);
        manager.inner.readmit(e);
    }
}

#[test]
fn read_once_then_would_block_scenario() {
    let mut manager = TcpStreamManager::new();
    let socket = MockSocket {
        reads: vec![Ok(vec![1; 10])],
        write: Err(IoErrorKind::WouldBlock),
    };
    let stream = manager.register(socket, true).unwrap();
    assert!(stream.write(&mut manager.inner, &[1, 2, 3]));
    run_cycle(&mut manager);
    assert_eq!(manager.inner.len(), 1);
    let e = manager.inner.entry(0);
    assert_eq!(e.data.read, 10);
    assert_eq!(e.data.written, 0);
    assert!(e.socket.is_some());
    assert_eq!(e.buffer.terminal_error(), None);
}

#[test]
fn read_error_detaches_socket_but_keeps_entry() {
    let mut manager = TcpStreamManager::new();
    let socket = MockSocket { reads: vec![Err(IoErrorKind::Other)], write: Ok(0) };
    let stream = manager.register(socket, true).unwrap();
    run_cycle(&mut manager);
    assert_eq!(manager.inner.len(), 1);
    assert!(manager.inner.entry(0).socket.is_none());
    assert_eq!(
        manager.inner.entry(0).buffer.terminal_error(),
        Some(TcpStreamTerminalError::Unexpected(IoErrorKind::Other))
    );
    run_cycle(&mut manager);
    assert_eq!(manager.inner.len(), 1);
    assert!(stream.peak_iter(&manager.inner).is_some());
}

#[test]
fn disconnect_on_write_detaches_socket() {
    let mut manager = TcpStreamManager::new();
    let socket = MockSocket { reads: vec![], write: Err(IoErrorKind::ConnectionReset) };
    let stream = manager.register(socket, true).unwrap();
    assert!(stream.write(&mut manager.inner, &[4, 5]));
    run_cycle(&mut manager);
    assert_eq!(manager.inner.len(), 1);
    assert!(manager.inner.entry(0).socket.is_none());
    assert_eq!(
        manager.inner.entry(0).buffer.terminal_error(),
        Some(TcpStreamTerminalError::NotConnected)
    );
}

#[test]
fn writes_drain_through_the_cycle() {
    let mut manager = TcpStreamManager::new();
    let socket = MockSocket { reads: vec![], write: Ok(2) };
    let stream = manager.register(socket, true).unwrap();
    assert!(stream.write(&mut manager.inner, &[1, 2, 3]));
    assert!(stream.write(&mut manager.inner, &[4]));
    run_cycle(&mut manager);
    let e = manager.inner.entry(0);
    assert_eq!(e.data.written, 4);
    assert!(e.buffer.front_chunk().is_none());
    assert!(e.socket.is_some());
}

#[test]
fn released_handle_is_retired_after_one_cycle() {
    let mut manager = TcpStreamManager::new();
    let a = manager.register(MockSocket { reads: vec![], write: Ok(0) }, true).unwrap();
    let b = manager.register(MockSocket { reads: vec![], write: Ok(0) }, true).unwrap();
    manager.release(a);
    assert_eq!(manager.inner.len(), 2);
    run_cycle(&mut manager);
    assert_eq!(manager.inner.len(), 1);
    assert!(b.peak_iter(&manager.inner).is_some());
}

#[test]
fn update_retires_released_entries() {
    let mut manager = TcpStreamManager::new();
    let a = manager.register(MockSocket { reads: vec![], write: Ok(0) }, true).unwrap();
    let b = manager.register(MockSocket { reads: vec![], write: Ok(0) }, true).unwrap();
    manager.release(b);
    let drop_write = BufferUpdateResult {
        write_result: Err(ErrorAction::Drop),
        read_result: Ok(()),
        additional_result: Ok(()),
    };
    manager.inner.update(&vec![Some(drop_write), None]);
    assert_eq!(manager.inner.len(), 1);
    assert!(manager.inner.entry(0).socket.is_none());
    assert!(a.peak_iter(&manager.inner).is_some());
}

#[test]
fn retry_keeps_socket() {
    let mut manager = TcpStreamManager::new();
    let _a = manager.register(MockSocket { reads: vec![], write: Ok(0) }, true).unwrap();
    let retry = BufferUpdateResult {
        write_result: Err(ErrorAction::Retry),
        read_result: Err(ErrorAction::Retry),
        additional_result: Ok(()),
    };
    assert!(!retry.should_drop_socket());
    manager.inner.update(&vec![Some(retry)]);
    assert!(manager.inner.entry(0).socket.is_some());
}

#[test]
fn register_needs_initialisation() {
    let mut manager: TcpStreamManager<MockSocket> = TcpStreamManager::new();
    assert!(manager.register(MockSocket { reads: vec![], write: Ok(0) }, false).is_none());
    assert_eq!(manager.inner.len(), 0);
}

#[test]
fn failed_build_returns_socket() {
    let mut manager: SocketManger<u8, &str, ()> = SocketManger::new();
    let r = manager.register("sock", Err::<u8, &str>("bad"), ());
    match r {
        Err((s, e)) => {
            assert_eq!(s, "sock");
            assert_eq!(e, "bad");
        }
        Ok(_) => panic!("registration should fail"),
    }
    assert_eq!(manager.len(), 0);
    let h = manager.register("sock", Ok::<u8, &str>(7), ()).ok().unwrap();
    assert_eq!(h.id(), 0);
    assert_eq!(*manager.buffer(0), 7);
    *manager.buffer_mut(0) = 9;
    assert_eq!(*manager.buffer(0), 9);
    assert_eq!(manager.position(&h), Some(0));
}

#[test]
fn peek_through_stream_handle() {
    let mut manager = TcpStreamManager::new();
    let socket = MockSocket { reads: vec![Ok(vec![1, 2, 3]), Ok(vec![4, 5])], write: Ok(0) };
    let stream = manager.register(socket, true).unwrap();
    run_cycle(&mut manager);
    run_cycle(&mut manager);
    let mut it = stream.peak_iter(&manager.inner).unwrap();
    let mut seen = Vec::new();
    while let Some(b) = it.next() {
        seen.push(b);
    }
    assert_eq!(seen, vec![1, 2, 3, 4, 5]);
}

#[test]
fn handles_get_fresh_keys() {
    let mut manager: SocketManger<u8, u8, ()> = SocketManger::new();
    let a = manager.register(1, Ok::<u8, ()>(10), ()).ok().unwrap();
    let b = manager.register(2, Ok::<u8, ()>(20), ()).ok().unwrap();
    assert_eq!(a.id(), 0);
    assert_eq!(b.id(), 1);
    assert!(manager.contains(&b));
    manager.release(b);
    assert!(manager.entry(1).drop_flag() == false);
    assert!(!manager.entry(1).owner_alive());
    manager.update(&vec![None, None]);
    assert_eq!(manager.len(), 1);
    assert!(manager.contains(&a));
    assert!(!manager.is_exhausted());
}
