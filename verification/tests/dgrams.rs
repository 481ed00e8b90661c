use qmux_endpoint::dgram::decode_h3_dgram;
use qmux_endpoint::dgram::echo_h3_dgram;
use qmux_endpoint::dgram::encode_h3_dgram;
use qmux_endpoint::dgram::DgramBurst;
use qmux_endpoint::dgram::DgramReceiver;
use qmux_endpoint::varint::MAX_VAR_INT;

fn flow_id_bytes(flow_id: u64) -> Vec<u8> {
    encode_h3_dgram(flow_id, &[]).unwrap()
}

#[test]
fn dgram_has_flow_id_and_content() {
    assert_eq!(encode_h3_dgram(0, b"quack").unwrap(), b"\x00quack".to_vec());
    assert_eq!(encode_h3_dgram(37, b"").unwrap(), vec![0x25]);
    assert_eq!(encode_h3_dgram(15_293, b"!").unwrap(), vec![0x7b, 0xbd, b'!']);
}

#[test]
fn flow_ids_have_one_two_four_or_eight_bytes() {
    assert_eq!(flow_id_bytes(63), vec![0x3f]);
    assert_eq!(flow_id_bytes(64), vec![0x40, 0x40]);
    assert_eq!(flow_id_bytes(16_383), vec![0x7f, 0xff]);
    assert_eq!(flow_id_bytes(16_384), vec![0x80, 0x00, 0x40, 0x00]);
    assert_eq!(flow_id_bytes(494_878_333), vec![0x9d, 0x7f, 0x3e, 0x7d]);
    assert_eq!(flow_id_bytes(1_073_741_823), vec![0xbf, 0xff, 0xff, 0xff]);
    assert_eq!(flow_id_bytes(1_073_741_824), vec![0xc0, 0, 0, 0, 0x40, 0, 0, 0]);
    assert_eq!(
        flow_id_bytes(151_288_809_941_952_652),
        vec![0xc2, 0x19, 0x7c, 0x5e, 0xff, 0x14, 0xe8, 0x8c]
    );
    assert_eq!(flow_id_bytes(MAX_VAR_INT), vec![0xff; 8]);
}

#[test]
fn largest_flow_id_is_that_of_the_octets_crate() {
    assert_eq!(MAX_VAR_INT, octets::MAX_VAR_INT);
}

#[test]
fn dgram_round_trip() {
    for flow_id in [0, 1, 63, 64, 16_383, 16_384, 1_073_741_823, 1_073_741_824, MAX_VAR_INT] {
        let dgram = encode_h3_dgram(flow_id, b"some data").unwrap();
        let d = decode_h3_dgram(&dgram).unwrap();
        assert_eq!(d.flow_id, flow_id);
        assert_eq!(d.data, b"some data");
    }
}

#[test]
fn dgram_without_a_whole_flow_id() {
    assert!(decode_h3_dgram(&[]).is_none());
    assert!(decode_h3_dgram(&[0x40]).is_none());
    assert!(decode_h3_dgram(&[0x80, 1, 2]).is_none());
    assert!(decode_h3_dgram(&[0xc0, 1, 2, 3, 4, 5, 6]).is_none());
    assert!(echo_h3_dgram(&[0x40]).is_none());
}

#[test]
fn echo_keeps_flow_id_and_data() {
    assert_eq!(echo_h3_dgram(b"\x00quack").unwrap(), b"\x00quack".to_vec());
    // A flow id in more bytes than it needs comes back in as few as it needs.
    assert_eq!(echo_h3_dgram(&[0x40, 0x25, 7, 8]).unwrap(), vec![0x25, 7, 8]);
}

#[test]
fn receiver_counts_dgrams_without_flow_id_too() {
    let mut receiver = DgramReceiver::new();
    assert_eq!(receiver.count, 0);
    assert_eq!(receiver.on_dgram(&[5, 1, 2]).unwrap().flow_id, 5);
    assert!(receiver.on_dgram(&[]).is_none());
    assert_eq!(receiver.on_dgram(&[6]).unwrap().data, b"");
    assert_eq!(receiver.count, 3);
}

#[test]
fn burst_sends_as_many_as_asked_for() {
    let mut burst = DgramBurst::new(3);
    let mut tries = 0;
    while burst.is_due() {
        burst.on_send(true);
        tries += 1;
    }
    assert_eq!(tries, 3);
    assert_eq!(burst.sent(), 3);
}

#[test]
fn burst_stops_at_the_first_refusal() {
    let mut burst = DgramBurst::new(5);
    burst.on_send(true);
    burst.on_send(true);
    burst.on_send(false);
    assert!(!burst.is_due());
    assert_eq!(burst.sent(), 2);
    burst.on_send(true);
    assert_eq!(burst.sent(), 2);
    assert!(!DgramBurst::new(0).is_due());
}
