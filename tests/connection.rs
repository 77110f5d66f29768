use lsp_rpc::connection::{Connection, LoopStep};
use lsp_rpc::framing::{frame_message, ReadError};

#[test]
fn loop_hands_out_messages_in_order() {
    let mut c = Connection::new();
    let mut bytes = frame_message("{\"id\":1}");
    bytes.extend(frame_message("{\"id\":2}"));
    c.feed(&bytes);
    assert!(matches!(c.poll(false), Ok(LoopStep::Handle(b)) if b == "{\"id\":1}"));
    assert!(matches!(c.poll(false), Ok(LoopStep::Handle(b)) if b == "{\"id\":2}"));
    assert!(matches!(c.poll(false), Ok(LoopStep::ReadMore)));
    c.close();
    assert!(matches!(c.poll(false), Ok(LoopStep::Stop)));
}

#[test]
fn loop_stops_on_exit_between_messages() {
    let mut c = Connection::new();
    c.feed(&frame_message("{}"));
    assert!(matches!(c.poll(true), Ok(LoopStep::Stop)));
}

#[test]
fn exit_does_not_interrupt_a_partial_message() {
    let mut c = Connection::new();
    let framed = frame_message("{\"id\":3}");
    c.feed(&framed[..10]);
    assert!(matches!(c.poll(false), Ok(LoopStep::ReadMore)));
    c.feed(&framed[10..]);
    assert!(matches!(c.poll(true), Ok(LoopStep::Handle(b)) if b == "{\"id\":3}"));
    assert!(matches!(c.poll(true), Ok(LoopStep::Stop)));
}

#[test]
fn loop_fails_on_corrupt_framing() {
    let mut c = Connection::new();
    c.feed(b"Hello\r\n");
    assert!(matches!(c.poll(false), Err(ReadError::UnexpectedHeader)));
}
