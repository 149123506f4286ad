use katcp_relay::framing::strip_line_terminator;
use katcp_relay::transcode::{client_to_device, device_to_client, TranscodeError};

#[test]
fn test_bad_to_good() {
    let deadbeef = [0xde, 0xad, 0xbe, 0xef];
    let mut bad_read = [0u8; 13];
    bad_read[0..9].clone_from_slice(b"!read ok ");
    bad_read[9..].clone_from_slice(&deadbeef);
    assert_eq!(device_to_client(&bad_read).unwrap(), b"!read ok 3q2+7w==".to_vec());
    let mut bad_write = [0u8; 28];
    bad_write[0..24].clone_from_slice(b"?write sys_scratchpad 0 ");
    bad_write[24..].clone_from_slice(&deadbeef);
    assert_eq!(
        device_to_client(&bad_write).unwrap(),
        b"?write sys_scratchpad 0 3q2+7w==".to_vec()
    );
    let normal_command = b"?help my_device";
    assert_eq!(device_to_client(normal_command).unwrap(), normal_command.to_vec());
}

#[test]
fn test_good_to_bad() {
    let good_write = "?write sys 0 3q2+7w==";
    let good_read = "!read ok 3q2+7w==";
    let normal_command = "?help my_device";
    assert_eq!(
        client_to_device(good_read.as_bytes()).unwrap(),
        vec![b'!', b'r', b'e', b'a', b'd', b' ', b'o', b'k', b' ', 0xde, 0xad, 0xbe, 0xef]
    );
    assert_eq!(
        client_to_device(good_write.as_bytes()).unwrap(),
        vec![
            b'?', b'w', b'r', b'i', b't', b'e', b' ', b's', b'y', b's', b' ', b'0', b' ', 0xde,
            0xad, 0xbe, 0xef
        ]
    );
    assert_eq!(client_to_device(normal_command.as_bytes()).unwrap(), normal_command.as_bytes());
}

#[test]
fn test_roundtrip() {
    let good_write = "?write sys 0 3q2+7w==";
    let good_read = "!read ok 3q2+7w==";
    let normal_command = "?help my_device";

    assert_eq!(
        device_to_client(&client_to_device(good_write.as_bytes()).unwrap()).unwrap(),
        good_write.as_bytes()
    );
    assert_eq!(
        device_to_client(&client_to_device(good_read.as_bytes()).unwrap()).unwrap(),
        good_read.as_bytes()
    );
    assert_eq!(
        device_to_client(&client_to_device(normal_command.as_bytes()).unwrap()).unwrap(),
        normal_command.as_bytes()
    );
}

// A device-form read reply round-trips through the client form even when
// the payload holds newline, carriage-return, space, or arbitrary bytes.
#[test]
fn test_roundtrip_read_binary_payload() {
    let mut line = b"!read ok ".to_vec();
    line.extend_from_slice(&[0x0a, 0x0d, 0x20, 0x00, 0xff, 0x21]);
    let client = device_to_client(&line).unwrap();
    assert_eq!(client_to_device(&client).unwrap(), line);
}

// A device-form write request round-trips through the client form with a
// binary payload.
#[test]
fn test_roundtrip_write_binary_payload() {
    let mut line = b"?write some_register 16 ".to_vec();
    line.extend_from_slice(&[0x00, 0x0a, 0x20, 0x0d, 0x7f, 0xfe]);
    let client = device_to_client(&line).unwrap();
    assert_eq!(client_to_device(&client).unwrap(), line);
}

// The payload segment that device_to_client emits is plain base64 text:
// decodable, free of spaces, and exactly as the base64 of the payload reads.
#[test]
fn test_client_form_is_base64() {
    let mut line = b"!read ok ".to_vec();
    line.extend_from_slice(&[0xde, 0xad, 0xbe, 0xef]);
    let client = device_to_client(&line).unwrap();
    assert_eq!(client[..9].to_vec(), b"!read ok ".to_vec());
    let payload_text = &client[9..];
    assert_eq!(payload_text.to_vec(), b"3q2+7w==".to_vec());
    assert!(payload_text.iter().all(|b| *b != b' ' && *b != b'\n' && *b != b'\r'));
}

// An empty payload encodes to empty base64 text and decodes back to zero
// bytes, in both directions.
#[test]
fn test_empty_payload() {
    assert_eq!(device_to_client(b"!read ok ").unwrap(), b"!read ok ".to_vec());
    assert_eq!(client_to_device(b"!read ok ").unwrap(), b"!read ok ".to_vec());
    assert_eq!(device_to_client(b"?write reg 0 ").unwrap(), b"?write reg 0 ".to_vec());
    assert_eq!(client_to_device(b"?write reg 0 ").unwrap(), b"?write reg 0 ".to_vec());
}

// The second token of a client-form read reply is an acknowledgement,
// discarded by position and rewritten as `ok`; tokens after the payload
// token are discarded too.
#[test]
fn test_read_acknowledgement_discarded() {
    let mut want = b"!read ok ".to_vec();
    want.extend_from_slice(&[0xde, 0xad, 0xbe, 0xef]);
    assert_eq!(client_to_device(b"!read fail 3q2+7w==").unwrap(), want);
    assert_eq!(client_to_device(b"!read ok 3q2+7w== trailing").unwrap(), want);
}

// An empty line is opaque in both directions.
#[test]
fn test_empty_line_is_opaque() {
    assert_eq!(device_to_client(b"").unwrap(), Vec::<u8>::new());
    assert_eq!(client_to_device(b"").unwrap(), Vec::<u8>::new());
}

// A device-form write request whose tokens never end in a space lacks a
// payload, as does a client-form line with too few tokens.
#[test]
fn test_missing_token() {
    assert_eq!(device_to_client(b"?write nothing_more"), Err(TranscodeError::MissingToken));
    assert_eq!(device_to_client(b"?write reg 0"), Err(TranscodeError::MissingToken));
    assert_eq!(client_to_device(b"!read"), Err(TranscodeError::MissingToken));
    assert_eq!(client_to_device(b"!read ok"), Err(TranscodeError::MissingToken));
    assert_eq!(client_to_device(b"?write reg 0"), Err(TranscodeError::MissingToken));
}

// A client-form payload token that is not valid base64 is rejected.
#[test]
fn test_invalid_base64() {
    assert_eq!(client_to_device(b"!read ok #$%&"), Err(TranscodeError::InvalidBase64));
    assert_eq!(client_to_device(b"?write reg 0 not*base64"), Err(TranscodeError::InvalidBase64));
}

// An opaque device-form line that is not valid UTF-8 cannot be handed to
// the text-only client side.
#[test]
fn test_invalid_utf8() {
    assert_eq!(device_to_client(&[0xff, 0xfe, 0x21]), Err(TranscodeError::InvalidUtf8));
}

// Framing strips one `\n` and one `\r` before it, and nothing else.
#[test]
fn test_strip_line_terminator() {
    let cases: Vec<(&[u8], &[u8])> = vec![
        (b"?help\r\n", b"?help"),
        (b"?help\n", b"?help"),
        (b"?help", b"?help"),
        (b"?help\r", b"?help"),
        (b"\n", b""),
        (b"\r\n", b""),
        (b"", b""),
        (b"a\n\n", b"a\n"),
    ];
    for (given, want) in cases {
        let mut buf = given.to_vec();
        strip_line_terminator(&mut buf);
        assert_eq!(buf, want.to_vec());
    }
}
