use mc_honeypot::packet::{
    adapt_from_1_18, assemble_frame, frame_body_length, safe_check_packet_id, try_get_packet,
    ConnectionIntent, HandshakePacket, LoginPacket, PossiblePacket,
};
use mc_honeypot::varint::{decode_varint, VarintReader};

/// Reads one frame from `stream` at `pos` the way the proxy does with a byte
/// slice as its input: returns the inspected body, the forwarded bytes and the
/// new position.
fn split_frame(stream: &[u8], mut pos: usize) -> (Vec<u8>, Vec<u8>, usize) {
    let mut reader = VarintReader::new();
    while !reader.is_finished() {
        if pos < stream.len() {
            reader.feed(Some(stream[pos]));
            pos += 1;
        } else {
            reader.feed(None);
        }
    }
    let (len, prefix) = reader.into_parts();
    assert!(len >= 0);
    match frame_body_length(len) {
        None => (vec![], prefix, pos),
        Some(n) => {
            let mut body = vec![];
            while body.len() < n && pos < stream.len() {
                body.push(stream[pos]);
                pos += 1;
            }
            let (read, forwarded) = assemble_frame(prefix, body);
            (read, forwarded, pos)
        }
    }
}

fn handshake_frame() -> Vec<u8> {
    // ClientIntentionPacket { protocol_version: 758, hostname: "localhost", port: 25565, intention: Login }
    let mut body = vec![0x00, 0xf6, 0x05, 9];
    body.extend_from_slice(b"localhost");
    body.extend_from_slice(&[0x63, 0xdd, 0x02]);
    let mut frame = vec![body.len() as u8];
    frame.extend(body);
    frame
}

#[test]
fn test_adapt_1_18() {
    assert_eq!(
        adapt_from_1_18(&vec![6, 0, 4, 50, 57, 55, 56]),
        vec![8, 0, 4, 50, 57, 55, 56, 0, 0]
    );
}

#[test]
fn check_packets() {
    let mut buf = handshake_frame();
    // old 1.18.2 hello packet
    buf.extend_from_slice(&[6, 0, 4, 50, 57, 55, 56]);

    let mut orig_data = vec![];
    let mut candidates = 0;
    let mut pos = 0;
    loop {
        let (read, forwarded, next) = split_frame(&buf, pos);
        pos = next;
        orig_data.extend_from_slice(&forwarded);
        let handshake = if candidates == 0 {
            Some(HandshakePacket {
                protocol_version: 758,
                hostname: "localhost".to_string(),
                port: 25565,
                intention: ConnectionIntent::Login,
            })
        } else {
            None
        };
        let login = Some(LoginPacket::Hello { username: "2978".to_string() });
        match try_get_packet(&read, &forwarded, handshake, login) {
            Some(_) => candidates += 1,
            None => break,
        }
    }
    assert_eq!(candidates, 2);
    assert_eq!(buf, orig_data);
}

#[test]
fn frame_forwards_every_byte_read() {
    let frame = handshake_frame();
    let (read, forwarded, pos) = split_frame(&frame, 0);
    assert_eq!(forwarded, frame);
    assert_eq!(read, frame[1..].to_vec());
    assert_eq!(pos, frame.len());
}

#[test]
fn frame_with_wrong_packet_id_is_forwarded_but_not_inspected() {
    let frame = vec![3, 0x01, 0xaa, 0xbb];
    let (read, forwarded, _) = split_frame(&frame, 0);
    assert!(read.is_empty());
    assert_eq!(forwarded, frame);
}

#[test]
fn short_frame_forwards_what_came() {
    let frame = vec![10, 0x00, 0x01];
    let (read, forwarded, _) = split_frame(&frame, 0);
    assert_eq!(read, vec![0x00, 0x01]);
    assert_eq!(forwarded, frame);
}

#[test]
fn frame_length_limits() {
    assert_eq!(frame_body_length(0), None);
    assert_eq!(frame_body_length(1), Some(1));
    assert_eq!(frame_body_length(1024), Some(1024));
    assert_eq!(frame_body_length(1025), None);
}

#[test]
fn oversized_frame_is_forwarded_without_body() {
    // 1025 as a VarInt
    let stream = vec![0x81, 0x08, 1, 2, 3];
    let (read, forwarded, pos) = split_frame(&stream, 0);
    assert!(read.is_empty());
    assert_eq!(forwarded, vec![0x81, 0x08]);
    assert_eq!(pos, 2);
}

#[test]
fn varint_values() {
    assert_eq!(decode_varint(&[0x00]), (0, vec![0x00]));
    assert_eq!(decode_varint(&[0x7f, 0x05]), (127, vec![0x7f]));
    assert_eq!(decode_varint(&[0xf6, 0x05]), (758, vec![0xf6, 0x05]));
    assert_eq!(decode_varint(&[0xff, 0xff, 0xff, 0xff, 0x07]), (i32::MAX, vec![0xff, 0xff, 0xff, 0xff, 0x07]));
    assert_eq!(decode_varint(&[0xff, 0xff, 0xff, 0xff, 0x0f]), (-1, vec![0xff, 0xff, 0xff, 0xff, 0x0f]));
    // five bytes at most, even without a final byte
    assert_eq!(decode_varint(&[0x80, 0x80, 0x80, 0x80, 0x80, 0x01]).1.len(), 5);
    // an empty buffer reads as zero
    assert_eq!(decode_varint(&[]), (0, vec![]));
    // an unfinished VarInt keeps what it read
    assert_eq!(decode_varint(&[0x81]), (1, vec![0x81]));
}

#[test]
fn varint_reader_counts_failed_reads() {
    let mut reader = VarintReader::new();
    reader.feed(None);
    reader.feed(Some(0x01));
    assert!(reader.is_finished());
    // the byte came on the second attempt, so it is the second group
    assert_eq!(reader.value(), 128);
    assert_eq!(reader.bytes(), &vec![0x01]);
}

#[test]
fn packet_id_check() {
    assert_eq!(safe_check_packet_id(&[0x00, 0x05]), (true, vec![0x00]));
    assert_eq!(safe_check_packet_id(&[0x01, 0x05]), (false, vec![0x01]));
    assert_eq!(safe_check_packet_id(&[0x80, 0x00]), (true, vec![0x80, 0x00]));
    assert_eq!(safe_check_packet_id(&[]), (true, vec![]));
}

#[test]
fn handshake_wins_over_login() {
    let h = HandshakePacket {
        protocol_version: 760,
        hostname: "mc.example".to_string(),
        port: 25565,
        intention: ConnectionIntent::Status,
    };
    let r = try_get_packet(&[0], &[1, 0], Some(h), Some(LoginPacket::Key));
    match r {
        Some(PossiblePacket::Status { packet }) => assert_eq!(packet.hostname, "mc.example"),
        other => panic!("unexpected {:?}", other),
    }
    let r = try_get_packet(&[0], &[1, 0], None, Some(LoginPacket::Key));
    assert!(matches!(r, Some(PossiblePacket::LoginStart { packet: LoginPacket::Key })));
    assert!(try_get_packet(&[0], &[1, 0], None, None).is_none());
}

#[test]
fn non_candidates_yield_nothing() {
    let login = || Some(LoginPacket::Hello { username: "x".to_string() });
    assert!(try_get_packet(&[], &[1, 0], None, login()).is_none());
    assert!(try_get_packet(&[0], &[], None, login()).is_none());
    let big = vec![0u8; 20001];
    assert!(try_get_packet(&[0], &big, None, login()).is_none());
    let ok = vec![0u8; 20000];
    assert!(try_get_packet(&[0], &ok, None, login()).is_some());
}

#[test]
fn bytes_after_a_varint_do_not_change_it() {
    assert_eq!(decode_varint(&[0xf6, 0x05]), decode_varint(&[0xf6, 0x05, 0xff, 0x01]));
    assert_eq!(
        decode_varint(&[0x80, 0x80, 0x80, 0x80, 0x80]),
        decode_varint(&[0x80, 0x80, 0x80, 0x80, 0x80, 0x7f])
    );
}
