use bytes::BytesMut;
use netcalyx::decimal::IntErrorKind;
use netcalyx::netconf::codec::{
    Capability, Frame, FramingError, Hello, NetConfMessage, NetconfVersion, ParsingError,
    SerializationError, SshCodec, SshCodecError, StandardCapability, Utf8Error,
    DEFAULT_MAX_MESSAGE_SIZE,
};

const MESSAGE_TERMINATOR: &str = "\n##\n";

#[derive(Debug, PartialEq, Eq)]
enum Operation {
    CloseSession,
}

#[derive(Debug, PartialEq, Eq)]
struct Rpc {
    message_id: String,
    operation: Operation,
}

fn parsing_error(reason: &str) -> ParsingError {
    ParsingError { reason: reason.to_string() }
}

fn text_of(data: &[u8]) -> Result<String, ParsingError> {
    match std::str::from_utf8(data) {
        Ok(text) => Ok(text.to_string()),
        Err(_) => Err(parsing_error("not UTF-8")),
    }
}

/// The texts between each `open` and the `close` that follows it.
fn elements(text: &str, open: &str, close: &str) -> Vec<String> {
    let mut found = Vec::new();
    let mut rest = text;
    while let Some(start) = rest.find(open) {
        let after = &rest[start + open.len()..];
        let Some(end) = after.find(close) else {
            break;
        };
        found.push(after[..end].trim().to_string());
        rest = &after[end..];
    }
    found
}

fn parse_hello(data: BytesMut) -> Result<Hello, ParsingError> {
    let text = text_of(&data)?;
    if !text.contains("<hello") {
        return Err(parsing_error("no hello"));
    }
    let mut capabilities = Vec::new();
    for uri in elements(&text, "<capability>", "</capability>") {
        capabilities.push(match uri.as_str() {
            "urn:ietf:params:netconf:base:1.0" => Capability::NetconfBase(NetconfVersion::V1_0),
            "urn:ietf:params:netconf:base:1.1" => Capability::NetconfBase(NetconfVersion::V1_1),
            "urn:ietf:params:netconf:capability:startup:1.0" => {
                Capability::Standard(StandardCapability::Startup)
            }
            other => Capability::Custom(other.to_string()),
        });
    }
    let session_id = elements(&text, "<session-id>", "</session-id>")
        .first()
        .map(|id| id.parse::<u32>().unwrap());
    Ok(Hello::new(session_id, capabilities))
}

fn parse_message(data: BytesMut) -> Result<NetConfMessage<Rpc>, ParsingError> {
    let text = text_of(&data)?;
    if !text.contains("<rpc") || !text.contains("</rpc>") {
        return Err(parsing_error("no rpc"));
    }
    let message_id = match elements(&text, "message-id=\"", "\"").pop() {
        Some(message_id) => message_id,
        None => return Err(parsing_error("no message-id")),
    };
    if !text.contains("<close-session/>") {
        return Err(parsing_error("unknown operation"));
    }
    Ok(NetConfMessage::Other(Rpc { message_id, operation: Operation::CloseSession }))
}

fn decode(
    codec: &mut SshCodec,
    buf: &mut BytesMut,
) -> Result<Option<NetConfMessage<Rpc>>, SshCodecError> {
    codec.decode(buf, parse_hello, parse_message)
}

#[test]
fn test_hello_netconf_1_0() {
    let hello_str = r#"<?xml version="1.0" encoding="UTF-8"?>
<hello xmlns="urn:ietf:params:xml:ns:netconf:base:1.0">
  <capabilities>
    <capability>
      urn:ietf:params:netconf:base:1.0
    </capability>
    <capability>
      urn:ietf:params:netconf:capability:startup:1.0
    </capability>
  </capabilities>
  <session-id>4</session-id>
</hello>
]]>]]>"#;
    let mut buf = BytesMut::from(hello_str);
    let mut codec = SshCodec::new();
    let result = decode(&mut codec, &mut buf);
    assert!(matches!(result, Err(SshCodecError::IO(_))));
}

#[test]
fn test_hello_netconf_1_1() {
    let hello_str = r#"<?xml version="1.0" encoding="UTF-8"?>
<hello xmlns="urn:ietf:params:xml:ns:netconf:base:1.0">
  <capabilities>
    <capability>
      urn:ietf:params:netconf:base:1.1
    </capability>
    <capability>
      urn:ietf:params:netconf:capability:startup:1.0
    </capability>
  </capabilities>
  <session-id>4</session-id>
</hello>
]]>]]>"#;
    let expected = NetConfMessage::Hello(Hello::new(
        Some(4),
        vec![
            Capability::NetconfBase(NetconfVersion::V1_1),
            Capability::Standard(StandardCapability::Startup),
        ],
    ));
    let mut buf = BytesMut::from(hello_str);
    let mut codec = SshCodec::new();
    let result = decode(&mut codec, &mut buf);
    assert_eq!(result, Ok(Some(expected)));
}

#[test]
fn test_hello_transition_with_chunks_decoding() {
    let input = r#"<?xml version="1.0" encoding="UTF-8"?>
<hello xmlns="urn:ietf:params:xml:ns:netconf:base:1.0">
  <capabilities>
    <capability>
      urn:ietf:params:netconf:base:1.1
    </capability>
    <capability>
      urn:ietf:params:netconf:capability:startup:1.0
    </capability>
  </capabilities>
  <session-id>4</session-id>
</hello>
]]>]]>
#4
<rpc
#18
 message-id="102"

#79
     xmlns="urn:ietf:params:xml:ns:netconf:base:1.0">
  <close-session/>
</rpc>
##
"#;
    let hello_expected = Ok(Some(NetConfMessage::Hello(Hello::new(
        Some(4),
        vec![
            Capability::NetconfBase(NetconfVersion::V1_1),
            Capability::Standard(StandardCapability::Startup),
        ],
    ))));
    let rpc_expected = Ok(Some(NetConfMessage::Other(Rpc {
        message_id: "102".into(),
        operation: Operation::CloseSession,
    })));
    let mut buf = BytesMut::from(input);
    let mut codec = SshCodec::new();

    let hello_parsed = decode(&mut codec, &mut buf);
    assert_eq!(hello_parsed, hello_expected);

    let rpc_parsed = decode(&mut codec, &mut buf);
    assert_eq!(rpc_parsed, rpc_expected);

    let eof_parsed = decode(&mut codec, &mut buf);
    assert_eq!(eof_parsed, Ok(None));
}

#[test]
fn short_message_stuck() {
    // a complete short chunked message must decode, not return Ok(None)
    let rpc = r#"<rpc message-id="1" xmlns="urn:ietf:params:xml:ns:netconf:base:1.0"><close-session/></rpc>"#;
    let input = format!("\n#{}\n{}\n##\n", rpc.len(), rpc);
    let mut buf = BytesMut::from(input.as_str());
    let mut codec = SshCodec::new();
    codec.in_hello = false;
    let result = decode(&mut codec, &mut buf);
    assert!(result.unwrap().is_some(), "expected complete short message to decode");
}

#[test]
fn partial_short_message_waits() {
    // an incomplete chunk-size field must return Ok(None), not an error
    let input = "\n#4";
    let mut buf = BytesMut::from(input);
    let mut codec = SshCodec::new();
    codec.in_hello = false;
    let result = decode(&mut codec, &mut buf);
    assert_eq!(result, Ok(None));
}

#[test]
fn malformed_size_field_errors() {
    // more digits than a chunk size can have, without a newline, must error
    let input = format!("\n#{}", "1".repeat(20));
    let mut buf = BytesMut::from(input.as_str());
    let mut codec = SshCodec::new();
    codec.in_hello = false;
    let result = decode(&mut codec, &mut buf);
    assert!(matches!(result, Err(SshCodecError::IO(_))));
}

#[test]
fn leading_zero_chunk_size_errors() {
    // RFC 6242 disallows leading zeros in the chunk-size field
    let input = "\n#04\nabcd\n##\n";
    let mut buf = BytesMut::from(input);
    let mut codec = SshCodec::new();
    codec.in_hello = false;
    let result = decode(&mut codec, &mut buf);
    assert!(matches!(result, Err(SshCodecError::IO(_))));
}

#[test]
fn tiny_hello_fragment_waits() {
    // a first fragment shorter than the hello terminator must wait
    // for more data and not fall through to the chunk-parsing logic
    let mut buf = BytesMut::from("<?x");
    let mut codec = SshCodec::new();
    let result = decode(&mut codec, &mut buf);
    assert_eq!(result, Ok(None));
}

#[test]
fn hello_terminator_split_across_calls_is_found() {
    // the incremental hello scan must not miss a terminator that
    // is split across two decode() calls, at the overlap boundary
    let hello_str = r#"<?xml version="1.0" encoding="UTF-8"?>
<hello xmlns="urn:ietf:params:xml:ns:netconf:base:1.0">
  <capabilities>
    <capability>
      urn:ietf:params:netconf:base:1.1
    </capability>
  </capabilities>
  <session-id>4</session-id>
</hello>
]]>]]>"#;
    let mut codec = SshCodec::new();
    // feed everything except the last byte of the terminator first
    let (first, last) = hello_str.split_at(hello_str.len() - 1);
    let mut buf = BytesMut::from(first);
    let result = decode(&mut codec, &mut buf);
    assert_eq!(result, Ok(None));
    buf.extend_from_slice(last.as_bytes());
    let result = decode(&mut codec, &mut buf);
    assert!(result.unwrap().is_some());
}

#[test]
fn oversized_hello_without_terminator_errors() {
    let mut codec = SshCodec::new();
    let mut buf = BytesMut::from(&b"<?xml"[..]);
    buf.extend_from_slice(&vec![b'a'; DEFAULT_MAX_MESSAGE_SIZE + 1]);
    let result = decode(&mut codec, &mut buf);
    assert!(matches!(result, Err(SshCodecError::IO(_))));
}

#[test]
fn oversized_hello_with_terminator_in_single_read_errors() {
    // A full oversized hello message (including the terminator)
    // arriving in a single `decode` call must still be rejected.
    let max_message_size = 16;
    let mut codec = SshCodec::with_max_message_size(max_message_size);
    let hello_str = r#"<hello xmlns="urn:ietf:params:xml:ns:netconf:base:1.0">
<capabilities>
<capability>urn:ietf:params:netconf:base:1.1</capability>
</capabilities>
</hello>
]]>]]>"#;
    assert!(hello_str.len() > max_message_size);
    let mut buf = BytesMut::from(hello_str);
    let result = decode(&mut codec, &mut buf);
    assert!(matches!(result, Err(SshCodecError::IO(_))));
}

#[test]
fn oversized_reassembled_message_errors() {
    let mut codec = SshCodec::new();
    codec.in_hello = false;
    let chunk_size = DEFAULT_MAX_MESSAGE_SIZE + 1;
    let mut buf = BytesMut::from(format!("\n#{chunk_size}\n").as_str());
    buf.extend_from_slice(&vec![b'a'; chunk_size]);
    buf.extend_from_slice(MESSAGE_TERMINATOR.as_bytes());
    let result = decode(&mut codec, &mut buf);
    assert!(matches!(result, Err(SshCodecError::IO(_))));
}

#[test]
fn configurable_max_message_size_is_enforced() {
    // a codec configured with a small max_message_size should reject
    // messages that would otherwise fit under the default limit
    let max_message_size = 16;
    let mut codec = SshCodec::with_max_message_size(max_message_size);
    assert_eq!(codec.max_message_size(), max_message_size);
    codec.in_hello = false;
    let chunk_size = max_message_size + 1;
    let mut buf = BytesMut::from(format!("\n#{chunk_size}\n").as_str());
    buf.extend_from_slice(&vec![b'a'; chunk_size]);
    buf.extend_from_slice(MESSAGE_TERMINATOR.as_bytes());
    let result = decode(&mut codec, &mut buf);
    assert!(matches!(result, Err(SshCodecError::IO(_))));

    // a message within the configured limit still decodes successfully
    let rpc = r#"<rpc message-id="1" xmlns="urn:ietf:params:xml:ns:netconf:base:1.0"><close-session/></rpc>"#;
    assert!(rpc.len() > max_message_size);
    let mut codec = SshCodec::with_max_message_size(rpc.len() + 1);
    codec.in_hello = false;
    let mut buf = BytesMut::from(format!("\n#{}\n{}\n##\n", rpc.len(), rpc).as_str());
    let result = decode(&mut codec, &mut buf);
    assert!(result.unwrap().is_some());
}

#[test]
fn test_chunks_decoding() {
    let input = r#"
#4
<rpc
#18
 message-id="102"

#79
     xmlns="urn:ietf:params:xml:ns:netconf:base:1.0">
  <close-session/>
</rpc>
##
"#;
    let expected = Ok(Some(NetConfMessage::Other(Rpc {
        message_id: "102".into(),
        operation: Operation::CloseSession,
    })));
    let mut buf = BytesMut::from(input);
    let mut codec = SshCodec::new();
    // manually advance the codec beyond parsing the hello message
    codec.in_hello = false;

    let rpc_result = decode(&mut codec, &mut buf);
    assert_eq!(rpc_result, expected);

    let eof_result = decode(&mut codec, &mut buf);
    assert_eq!(eof_result, Ok(None));
}

#[test]
fn message_terminator_split_across_calls_is_found() {
    // a terminator arriving in a separate `decode` call from its
    // preceding chunk must not be misparsed as an invalid chunk header
    let input = r#"
#4
<rpc
#18
 message-id="102"

#79
     xmlns="urn:ietf:params:xml:ns:netconf:base:1.0">
  <close-session/>
</rpc>
"#;
    let mut buf = BytesMut::from(input);
    let mut codec = SshCodec::new();
    codec.in_hello = false;

    // no terminator has arrived yet: decode should wait for more data
    let pending_result = decode(&mut codec, &mut buf);
    assert_eq!(pending_result, Ok(None));

    // now the message terminator arrives on its own,
    // in a subsequent `decode` call
    buf.extend_from_slice(b"##\n");
    let expected = Ok(Some(NetConfMessage::Other(Rpc {
        message_id: "102".into(),
        operation: Operation::CloseSession,
    })));
    let rpc_result = decode(&mut codec, &mut buf);
    assert_eq!(rpc_result, expected);

    let eof_result = decode(&mut codec, &mut buf);
    assert_eq!(eof_result, Ok(None));
}

#[test]
fn message_terminator_prefix_split_waits() {
    // the "\n##" prefix of the terminator alone
    // must not be misparsed as a chunk header
    let input = "\n#4\n<rpc\n##";
    let mut buf = BytesMut::from(input);
    let mut codec = SshCodec::new();
    codec.in_hello = false;

    let pending_result = decode(&mut codec, &mut buf);
    assert_eq!(pending_result, Ok(None));
}

fn framing_message(result: Result<Option<NetConfMessage<Rpc>>, SshCodecError>) -> String {
    match result {
        Err(SshCodecError::IO(error)) => error.message(),
        other => panic!("no framing error: {other:?}"),
    }
}

fn after_hello(input: &[u8], max: usize) -> Result<Option<NetConfMessage<Rpc>>, SshCodecError> {
    let mut codec = SshCodec::with_max_message_size(max);
    codec.in_hello = false;
    let mut buf = BytesMut::from(input);
    decode(&mut codec, &mut buf)
}

#[test]
fn framing_errors_are_told_apart() {
    assert_eq!(
        framing_message(after_hello(b"rpc", 100)),
        "Expected chunk start sequence or message terminator"
    );
    assert_eq!(framing_message(after_hello(b"\n##x", 100)), "Malformed message terminator");
    assert_eq!(
        framing_message(after_hello(b"\n#12345678901\n", 100)),
        "Chunk size is not properly terminated with a newline"
    );
    assert_eq!(framing_message(after_hello(b"\n#\nabc", 100)), "Invalid chunk size: ``");
    assert_eq!(framing_message(after_hello(b"\n#04\nabcd", 100)), "Invalid chunk size: `04`");
    assert_eq!(
        framing_message(after_hello(b"\n#4294967296\n", 100)),
        "Invalid chunk size: 4294967296"
    );
    assert_eq!(
        framing_message(after_hello(b"\n#17\n", 16)),
        "Reassembled message exceeds maximum allowed size of 16 bytes"
    );
    assert_eq!(
        after_hello(b"\n#4a\nabcd", 100),
        Err(SshCodecError::Int(IntErrorKind::InvalidDigit))
    );
    assert_eq!(
        after_hello(b"\n#4\xff\nabcd", 100),
        Err(SshCodecError::Utf(Utf8Error { valid_up_to: 1, error_len: Some(1) }))
    );
    assert_eq!(
        after_hello(b"\n#4\xe2\x82\nabcd", 100),
        Err(SshCodecError::Utf(Utf8Error { valid_up_to: 1, error_len: None }))
    );
}

#[test]
fn chunk_size_has_no_sign() {
    for field in ["+4", "+0", "-4", " 4", "4 ", "four"] {
        let mut codec = SshCodec::new();
        codec.in_hello = false;
        let input = format!("\n#{field}\nabcd\n##\n");
        let mut buf = BytesMut::from(input.as_str());
        assert_eq!(
            decode(&mut codec, &mut buf),
            Err(SshCodecError::Int(IntErrorKind::InvalidDigit))
        );
        assert_eq!(&buf[..], input.as_bytes());
    }
}

#[test]
fn rejected_hello_leaves_no_search_position() {
    let refused = "<hello><capability>urn:ietf:params:netconf:base:1.0</capability></hello>]]>]]>";
    let accepted = "<hello><capability>urn:ietf:params:netconf:base:1.1</capability></hello>]]>]]>";
    let mut codec = SshCodec::new();
    let (first, last) = refused.split_at(refused.len() - 1);
    let mut buf = BytesMut::from(first);
    assert_eq!(decode(&mut codec, &mut buf), Ok(None));
    buf.extend_from_slice(last.as_bytes());
    assert!(matches!(decode(&mut codec, &mut buf), Err(SshCodecError::IO(_))));
    assert!(buf.is_empty());
    buf.extend_from_slice(b"<hello");
    assert!(codec.can_read(&buf));
    assert_eq!(decode(&mut codec, &mut buf), Ok(None));
    assert_eq!(&buf[..], b"<hello");
    buf.extend_from_slice(&accepted.as_bytes()[6..]);
    assert!(decode(&mut codec, &mut buf).unwrap().is_some());
}

#[test]
fn hello_errors_are_told_apart() {
    let mut codec = SshCodec::with_max_message_size(4);
    let mut buf = BytesMut::from("<?xml");
    assert_eq!(
        framing_message(decode(&mut codec, &mut buf)),
        "Hello message exceeds maximum allowed size of 4 bytes"
    );
    let mut codec = SshCodec::new();
    let mut buf = BytesMut::from("<hello></hello>]]>]]>rest");
    assert_eq!(
        framing_message(decode(&mut codec, &mut buf)),
        "Hello message does not contain required base:1.1 capability, only NETCONF 1.1 as per RFC 6242 is supported"
    );
    // the refused hello is gone, and the codec still awaits one
    assert_eq!(&buf[..], b"rest");
    assert!(codec.in_hello);
    let mut buf = BytesMut::from("nonsense]]>]]>");
    assert_eq!(
        decode(&mut codec, &mut buf),
        Err(SshCodecError::Parsing(parsing_error("no hello")))
    );
}

#[test]
fn message_that_cannot_be_parsed_keeps_its_terminator() {
    let mut codec = SshCodec::new();
    codec.in_hello = false;
    let mut buf = BytesMut::from("\n#3\nabc\n##\nrest");
    assert_eq!(
        decode(&mut codec, &mut buf),
        Err(SshCodecError::Parsing(parsing_error("no rpc")))
    );
    assert_eq!(&buf[..], b"\n##\nrest");
}

#[test]
fn errors_compare_by_what_they_say() {
    let io = SshCodecError::IO(FramingError::MalformedTerminator);
    assert_eq!(io, SshCodecError::IO(FramingError::MissingChunkStart));
    assert_ne!(io, SshCodecError::Int(IntErrorKind::InvalidDigit));
    assert_ne!(
        SshCodecError::Int(IntErrorKind::PosOverflow),
        SshCodecError::Int(IntErrorKind::InvalidDigit)
    );
    assert_eq!(
        SshCodecError::Parsing(parsing_error("a")),
        SshCodecError::Parsing(parsing_error("a"))
    );
    assert_ne!(
        SshCodecError::Parsing(parsing_error("a")),
        SshCodecError::Parsing(parsing_error("b"))
    );
    assert_ne!(
        SshCodecError::Serialization(SerializationError { reason: "a".to_string() }),
        SshCodecError::Serialization(SerializationError { reason: "b".to_string() })
    );
}

#[test]
fn encoded_message_is_read_back() {
    let rpc = r#"<rpc message-id="7"><close-session/></rpc>"#;
    let message = NetConfMessage::Other(Rpc {
        message_id: "7".into(),
        operation: Operation::CloseSession,
    });
    let mut codec = SshCodec::default();
    codec.in_hello = false;
    let mut buf = BytesMut::new();
    let encoded = codec.encode(&message, Ok(rpc.as_bytes().to_vec()), &mut buf);
    assert_eq!(encoded, Ok(()));
    assert_eq!(&buf[..], format!("\n#42\n{rpc}\n##\n").as_bytes());
    assert_eq!(decode(&mut codec, &mut buf), Ok(Some(message)));
    assert!(buf.is_empty());
}

#[test]
fn encoded_hello_is_read_back() {
    let xml = "<hello><capability>urn:ietf:params:netconf:base:1.1</capability></hello>";
    let hello = Hello::new(None, vec![Capability::NetconfBase(NetconfVersion::V1_1)]);
    let message: NetConfMessage<Rpc> = NetConfMessage::Hello(hello);
    let mut codec = SshCodec::new();
    let mut buf = BytesMut::new();
    assert_eq!(codec.encode(&message, Ok(xml.as_bytes().to_vec()), &mut buf), Ok(()));
    assert_eq!(
        &buf[..],
        format!("<?xml version=\"1.0\" encoding=\"utf-8\"?>{xml}]]>]]>").as_bytes()
    );
    assert_eq!(decode(&mut codec, &mut buf), Ok(Some(message)));
}

#[test]
fn failed_serialization_writes_nothing() {
    let message: NetConfMessage<Rpc> = NetConfMessage::Hello(Hello::new(None, Vec::new()));
    let mut codec = SshCodec::new();
    let mut buf = BytesMut::from("before");
    let error = SerializationError { reason: "no".to_string() };
    assert_eq!(
        codec.encode(&message, Err(error.clone()), &mut buf),
        Err(SshCodecError::Serialization(error))
    );
    assert_eq!(&buf[..], b"before");
}

#[test]
fn empty_message_is_refused_on_reading() {
    let mut codec = SshCodec::new();
    codec.in_hello = false;
    let mut buf = BytesMut::new();
    let message = NetConfMessage::Other(Rpc {
        message_id: String::new(),
        operation: Operation::CloseSession,
    });
    assert_eq!(codec.encode(&message, Ok(Vec::new()), &mut buf), Ok(()));
    assert_eq!(&buf[..], b"\n#0\n\n##\n");
    assert_eq!(framing_message(decode(&mut codec, &mut buf)), "Invalid chunk size: `0`");
}

#[test]
fn frames_may_arrive_octet_by_octet() {
    let input = "<hello><capability>urn:ietf:params:netconf:base:1.1</capability></hello>]]>]]>\n#4\n<rpc\n#16\n message-id=\"9\">\n#22\n<close-session/></rpc>\n##\n";
    let mut codec = SshCodec::new();
    let mut buf = BytesMut::new();
    let mut messages = Vec::new();
    for octet in input.as_bytes() {
        buf.extend_from_slice(&[*octet]);
        if let Some(message) = decode(&mut codec, &mut buf).unwrap() {
            messages.push(message);
        }
    }
    assert_eq!(messages.len(), 2);
    assert_eq!(
        messages[1],
        NetConfMessage::Other(Rpc {
            message_id: "9".into(),
            operation: Operation::CloseSession,
        })
    );
    assert!(buf.is_empty());
}

#[test]
fn next_frame_hands_out_the_text() {
    let mut codec = SshCodec::new();
    codec.in_hello = false;
    let mut buf = BytesMut::from("\n#2\nab\n#3\ncde\n##\n");
    match codec.next_frame(&mut buf) {
        Ok(Some(Frame::Message(data))) => assert_eq!(&data[..], b"abcde"),
        _ => panic!("no message"),
    }
    assert_eq!(&buf[..], b"\n##\n");
}

#[test]
fn searched_octets_must_stay() {
    let mut codec = SshCodec::new();
    let mut buf = BytesMut::from("<hello><capabilities></capabilities>");
    assert!(codec.can_read(&buf));
    assert_eq!(decode(&mut codec, &mut buf), Ok(None));
    assert!(codec.can_read(&buf));
    buf.truncate(8);
    assert!(!codec.can_read(&buf));
    codec.in_hello = false;
    assert!(codec.can_read(&buf));
}

#[test]
fn errors_are_made_from_their_causes() {
    assert_eq!(
        SshCodecError::from(IntErrorKind::PosOverflow),
        SshCodecError::Int(IntErrorKind::PosOverflow)
    );
    assert!(matches!(
        SshCodecError::from(FramingError::MissingChunkStart),
        SshCodecError::IO(FramingError::MissingChunkStart)
    ));
    let utf = Utf8Error { valid_up_to: 2, error_len: None };
    assert_eq!(SshCodecError::from(utf), SshCodecError::Utf(utf));
    assert_eq!(
        SshCodecError::from(parsing_error("x")),
        SshCodecError::Parsing(parsing_error("x"))
    );
    let serialization = SerializationError { reason: "y".to_string() };
    assert_eq!(
        SshCodecError::from(serialization.clone()),
        SshCodecError::Serialization(serialization)
    );
}
