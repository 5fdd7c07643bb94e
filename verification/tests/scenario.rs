use nf_tunnel::dispatch::plan_forward;
use nf_tunnel::forward::{ForwardHandle, ForwardStep};
use nf_tunnel::protocol::{Protocol, ProtocolForwardStartArgs, ProtocolHeaderType};
use nf_tunnel::request::Request;
use nf_tunnel::settings::{AesParam, SupportCrypt};

fn aes() -> SupportCrypt {
    SupportCrypt::Aes(AesParam {
        key: "1234567890qwertyuiopasdfghjklzxc".to_string(),
        iv: "qwertyuiopASDFGH".to_string(),
    })
}

fn wrong_aes() -> SupportCrypt {
    SupportCrypt::Aes(AesParam {
        key: "x234567890qwertyuiopasdfghjklzxc".to_string(),
        iv: "qwertyuiopASDFGH".to_string(),
    })
}

/// A client sends "ping" through an entry node to an echo target and
/// receives "ping" back, with AES configured end to end.
#[test]
fn test_ping_through_one_relay() {
    let crypt = aes();

    // the client opens the chain with a handshake naming the echo target
    let handshake = Request::send_forward_start(ProtocolForwardStartArgs {
        target_address: "echo:7".to_string(),
        link_address: vec!["echo:7".to_string()],
    })
    .unwrap();
    let wire = handshake.to_bytes();

    // the entry node reads the handshake and resolves its hop list
    let (frame, _) = Protocol::from_bytes(&wire).unwrap();
    let arg = Request::recv_forward_start(frame).unwrap();
    let (dial, rest) = plan_forward(&arg).unwrap();
    assert_eq!(dial, "echo:7");
    assert!(rest.is_empty()); // the entry node is adjacent to the target

    // client -> entry: "ping" wrapped and encrypted into a ForwardData frame
    let request = ForwardHandle::empty_to_proto_data(&crypt, b"ping").unwrap();
    assert!(matches!(request.header.p_type, ProtocolHeaderType::ForwardData));
    let wire = request.to_bytes();

    // entry -> target: the frame is unwrapped and decrypted to plaintext
    let (frame, _) = Protocol::from_bytes(&wire).unwrap();
    let to_target = match ForwardHandle::proto_to_empty_frame(&crypt, frame).unwrap() {
        ForwardStep::Deliver(bytes) => bytes,
        ForwardStep::Finish => panic!("the session must not end here"),
    };
    assert_eq!(to_target, b"ping".to_vec());

    // the echo target answers with the same bytes;
    // target -> entry -> client: wrapped as a ForwardDataRes frame
    let response = ForwardHandle::proto_to_empty_data(&crypt, &to_target).unwrap();
    assert!(matches!(response.header.p_type, ProtocolHeaderType::ForwardDataRes));
    let wire = response.to_bytes();

    // the client decrypts the answer correctly with the right key
    let (frame, _) = Protocol::from_bytes(&wire).unwrap();
    match ForwardHandle::empty_to_proto_frame(&crypt, frame).unwrap() {
        ForwardStep::Deliver(bytes) => assert_eq!(bytes, b"ping".to_vec()),
        ForwardStep::Finish => panic!("the session must not end here"),
    }

    // with the wrong key the client sees garbled bytes or a padding error
    let (frame, _) = Protocol::from_bytes(&response.to_bytes()).unwrap();
    match ForwardHandle::empty_to_proto_frame(&wrong_aes(), frame) {
        Ok(ForwardStep::Deliver(bytes)) => assert_ne!(bytes, b"ping".to_vec()),
        Ok(ForwardStep::Finish) => panic!("a data frame must not end the session"),
        Err(_) => {},
    }
}

/// A pure relay passes frames through unmodified.
#[test]
fn test_relay_passes_frames_verbatim() {
    let frame = ForwardHandle::empty_to_proto_data(&aes(), b"chunk").unwrap();
    let original = frame.to_bytes();
    let relayed = ForwardHandle::proto_to_proto_frame(frame).unwrap();
    assert_eq!(relayed.to_bytes(), original);
}

/// A frame of an unsupported version terminates the framed loops with an
/// error, and is never passed on or delivered.
#[test]
fn test_unsupported_version_is_rejected() {
    let mut frame = ForwardHandle::empty_to_proto_data(&aes(), b"chunk").unwrap();
    frame.header.version = 2;

    let copy = Protocol::from_bytes(&frame.to_bytes()).unwrap().0;
    assert!(ForwardHandle::proto_to_proto_frame(copy).is_err());

    let copy = Protocol::from_bytes(&frame.to_bytes()).unwrap().0;
    assert!(ForwardHandle::proto_to_empty_frame(&aes(), copy).is_err());

    let copy = Protocol::from_bytes(&frame.to_bytes()).unwrap().0;
    assert!(ForwardHandle::empty_to_proto_frame(&aes(), copy).is_err());
}

/// The framed loops end gracefully on their end frames and reject
/// unexpected message types.
#[test]
fn test_session_end_and_unexpected_types() {
    let crypt = SupportCrypt::Plain;

    let end = Protocol::new(ProtocolHeaderType::ForwardEnd, None, None);
    assert!(matches!(
        ForwardHandle::proto_to_empty_frame(&crypt, end).unwrap(),
        ForwardStep::Finish
    ));

    let end_res = Protocol::new(ProtocolHeaderType::ForwardEndRes, None, None);
    assert!(matches!(
        ForwardHandle::empty_to_proto_frame(&crypt, end_res).unwrap(),
        ForwardStep::Finish
    ));

    // a request frame arriving on the response leg is a protocol violation
    let stray = Protocol::new(ProtocolHeaderType::ForwardData, None, Some(vec![1]));
    assert!(ForwardHandle::empty_to_proto_frame(&crypt, stray).is_err());

    // a data frame without a body is a protocol violation
    let empty = Protocol::new(ProtocolHeaderType::ForwardData, None, None);
    assert!(ForwardHandle::proto_to_empty_frame(&crypt, empty).is_err());
}
