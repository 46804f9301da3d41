//! Echo scenarios over a loopback stream model: each direction of a
//! bidirectional stream is a byte buffer, the client frames requests
//! into one direction, and the verified responder answers into the
//! other. This exercises exactly the logic the harness runs per stream;
//! only the transport underneath is absent.

use quicframe::driver::{check_response, make_payload, Driver};
use quicframe::frame::{read_frame, write_frame, FrameError};
use quicframe::server::{
    responder_step, ReadEvent, ResponderAction, ResponseMode, ServerCtx,
};

/// One bidirectional stream: what the client wrote toward the server,
/// and what the server wrote back, with each side's read position.
struct LoopbackStream {
    to_server: Vec<u8>,
    to_client: Vec<u8>,
    server_pos: usize,
    client_pos: usize,
}

impl LoopbackStream {
    fn new() -> Self {
        LoopbackStream { to_server: Vec::new(), to_client: Vec::new(), server_pos: 0, client_pos: 0 }
    }

    /// Let the responder consume every whole frame the client has
    /// written so far, answering each in order.
    fn serve(&mut self, ctx: &ServerCtx) {
        loop {
            let event = match read_frame(&self.to_server, self.server_pos) {
                Ok((payload, end)) => {
                    self.server_pos = end;
                    ReadEvent::Frame(payload)
                }
                Err(FrameError::ShortRead) => ReadEvent::StreamEnded,
            };
            match responder_step(ctx, event) {
                ResponderAction::Reply(response) => write_frame(&mut self.to_client, &response),
                ResponderAction::Stop => return,
            }
        }
    }

    fn client_write(&mut self, payload: &[u8]) {
        write_frame(&mut self.to_server, payload);
    }

    fn client_read(&mut self) -> Vec<u8> {
        let (payload, end) = read_frame(&self.to_client, self.client_pos).unwrap();
        self.client_pos = end;
        payload
    }
}

#[test]
fn scenario_basic_echo() {
    let ctx = ServerCtx::new(ResponseMode::Echo);
    let mut stream = LoopbackStream::new();
    stream.client_write(b"ping");
    stream.serve(&ctx);
    assert_eq!(stream.client_read(), b"ping".to_vec());
}

#[test]
fn scenario_fixed_ack_mode() {
    let ctx = ServerCtx::new(ResponseMode::FixedAck);
    let mut stream = LoopbackStream::new();
    stream.client_write(b"whatever was asked");
    stream.serve(&ctx);
    assert_eq!(stream.client_read(), b"ack".to_vec());
}

#[test]
fn scenario_varying_payload_sizes_in_order() {
    let ctx = ServerCtx::new(ResponseMode::Echo);
    let mut stream = LoopbackStream::new();
    let mut driver = Driver::new(vec![100, 10_000, 1_000_000]);
    let mut sent = Vec::new();
    let mut fill = 0u8;
    while let Some(size) = driver.next_size() {
        fill += 1;
        let payload = make_payload(size as usize, fill);
        stream.client_write(&payload);
        sent.push(payload);
    }
    stream.serve(&ctx);
    for payload in &sent {
        let reply = stream.client_read();
        assert!(check_response(ResponseMode::Echo, payload, &reply));
    }
    assert_eq!(stream.client_pos, stream.to_client.len());
}

#[test]
fn scenario_zero_length_frame() {
    let ctx = ServerCtx::new(ResponseMode::Echo);
    let mut stream = LoopbackStream::new();
    stream.client_write(&[]);
    stream.client_write(b"after");
    stream.serve(&ctx);
    // The empty frame comes back as an empty payload, not as an error
    // or a closed stream: the next frame still follows it.
    assert_eq!(stream.client_read(), Vec::<u8>::new());
    assert_eq!(stream.client_read(), b"after".to_vec());
}

#[test]
fn scenario_two_streams_no_cross_interleaving() {
    // Two bidirectional streams on one connection: their writes are
    // interleaved in time, yet each stream's frames come back whole and
    // in that stream's own write order.
    let ctx = ServerCtx::new(ResponseMode::Echo);
    let mut first = LoopbackStream::new();
    let mut second = LoopbackStream::new();
    let first_payloads = [make_payload(10, 0xaa), make_payload(2000, 0xaa), make_payload(300, 0xaa)];
    let second_payloads = [make_payload(17, 0xbb), make_payload(5000, 0xbb), make_payload(1, 0xbb)];
    for i in 0..3 {
        second.client_write(&second_payloads[i]);
        first.client_write(&first_payloads[i]);
        second.serve(&ctx);
        first.serve(&ctx);
    }
    for i in 0..3 {
        assert_eq!(first.client_read(), first_payloads[i]);
        assert_eq!(second.client_read(), second_payloads[i]);
    }
}

#[test]
fn scenario_partial_frame_is_not_answered() {
    // The client wrote a header declaring ten bytes but only part of the
    // payload: the responder must not answer a truncated frame.
    let ctx = ServerCtx::new(ResponseMode::Echo);
    let mut stream = LoopbackStream::new();
    stream.to_server.extend_from_slice(&[10, 0, 0, 0, 1, 2, 3]);
    stream.serve(&ctx);
    assert!(stream.to_client.is_empty());
    assert_eq!(read_frame(&stream.to_client, 0), Err(FrameError::ShortRead));
}
