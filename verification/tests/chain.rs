use nf_tunnel::dispatch::{check_forward_start_response, connect_failed_status, plan_forward, resolve_mode, select_forward_loop, ForwardLoop, RelayMode};
use nf_tunnel::err::{anyhow_error_to_chain, NfError};
use nf_tunnel::protocol::{Data, Protocol, ProtocolArgs, ProtocolForwardStartArgs, ProtocolHeaderType};
use nf_tunnel::request::Request;
use nf_tunnel::response::Response;
use nf_tunnel::server::ForwardServer;
use nf_tunnel::settings::{split_link_nodes, NfParam, SupportCrypt};
use nf_tunnel::convert::{StringUtil, VecUtil};

#[test]
fn test_static_mode_dials_first_hop_only() {
    // a resolver in static mode dials the first configured hop and never
    // reads a handshake from the accepted socket
    let nodes = vec!["A:1".to_string(), "B:2".to_string()];
    match resolve_mode(&nodes) {
        RelayMode::StaticRelay(next) => assert_eq!(next, "A:1"),
        RelayMode::HandshakeDriven => panic!("static configuration must not wait for a handshake"),
    }
    match resolve_mode(&Vec::new()) {
        RelayMode::HandshakeDriven => {},
        RelayMode::StaticRelay(_) => panic!("an empty configuration must wait for a handshake"),
    }
}

#[test]
fn test_handshake_resolution_dials_head_and_forwards_tail() {
    let arg = ProtocolForwardStartArgs {
        target_address: "ignored".to_string(),
        link_address: vec!["X:1".to_string(), "Y:2".to_string()],
    };
    let (dial, rest) = plan_forward(&arg).unwrap();
    assert_eq!(dial, "X:1");
    assert_eq!(rest, vec!["Y:2".to_string()]);

    // the nested handshake carries exactly the remaining hops
    let frame = Request::open_forward_connect_handshake(dial, rest).unwrap();
    match frame.args {
        Some(ProtocolArgs::ForwardStart(a)) => {
            assert_eq!(a.target_address, "X:1");
            assert_eq!(a.link_address, vec!["Y:2".to_string()]);
        },
        _ => panic!("the nested handshake must carry the remaining hops"),
    }
}

#[test]
fn test_empty_hop_list_is_rejected_without_dialing() {
    let arg = ProtocolForwardStartArgs {
        target_address: "ignored".to_string(),
        link_address: vec![],
    };
    match plan_forward(&arg) {
        Err(status) => {
            assert_ne!(status.code, 0);
            assert_eq!(status.msg, "the link nodes is None.");
        },
        Ok(_) => panic!("an empty hop list must not resolve to a dial target"),
    }
}

#[test]
fn test_recv_forward_start_validations() {
    let arg = ProtocolForwardStartArgs {
        target_address: "t".to_string(),
        link_address: vec!["X:1".to_string()],
    };
    let good = Request::send_forward_start(arg).unwrap();
    assert!(Request::recv_forward_start(good).is_ok());

    let mut wrong_version = Request::send_forward_start(ProtocolForwardStartArgs {
        target_address: "t".to_string(),
        link_address: vec!["X:1".to_string()],
    })
    .unwrap();
    wrong_version.header.version = 2;
    assert!(Request::recv_forward_start(wrong_version).is_err());

    let wrong_type = Protocol::new(ProtocolHeaderType::ForwardData, None, None);
    assert!(Request::recv_forward_start(wrong_type).is_err());
}

#[test]
fn test_handshake_acknowledgement_round_trip() {
    let ack = Response::send_forward_start(Data::default()).unwrap();
    assert!(matches!(ack.header.p_type, ProtocolHeaderType::ForwardStartRes));
    let decoded = Response::recv_forward_start(ack).unwrap();
    assert_eq!(decoded.code, 0);

    let mut failure = Data::default();
    failure.update_error(3, "no route".to_string());
    let nack = Response::send_forward_start(failure).unwrap();
    let decoded = Response::recv_forward_start(nack).unwrap();
    assert_eq!(decoded.code, 3);
    assert_eq!(decoded.msg, "no route");
}

#[test]
fn test_acknowledgement_travels_the_wire() {
    let ack = Response::send_forward_start(Data::default()).unwrap();
    let bytes = ack.to_bytes();
    let (parsed, _) = Protocol::from_bytes(&bytes).unwrap();
    let decoded = Response::recv_forward_start(parsed).unwrap();
    assert_eq!(decoded.code, 0);
    assert_eq!(decoded.data, b"null".to_vec());
}

#[test]
fn test_connect_failed_status_message() {
    let status = connect_failed_status(&"X:1".to_string(), &"refused".to_string());
    assert_eq!(status.code, 3);
    assert_eq!(status.msg, "connect remote address failed. address: X:1, err: refused");
}

#[test]
fn test_split_link_nodes() {
    let pieces = split_link_nodes("127.0.0.1:8010,127.0.0.1:8011");
    assert_eq!(pieces, vec!["127.0.0.1:8010".to_string(), "127.0.0.1:8011".to_string()]);
    assert_eq!(split_link_nodes("solo:1"), vec!["solo:1".to_string()]);
    assert_eq!(split_link_nodes(""), vec!["".to_string()]);
    assert_eq!(split_link_nodes("a,"), vec!["a".to_string(), "".to_string()]);
    assert_eq!(split_link_nodes("รก,b"), vec!["รก".to_string(), "b".to_string()]);
}

#[test]
fn test_parse_server_selects_crypt() {
    let p = NfParam::parse_server(
        "127.0.0.1:8000".to_string(),
        Some("A:1,B:2".to_string()),
        Some("RC4".to_string()),
        Some("key".to_string()),
        true,
    )
    .unwrap();
    assert_eq!(p.listen, "127.0.0.1:8000");
    assert_eq!(p.link_nodes, vec!["A:1".to_string(), "B:2".to_string()]);
    assert_eq!(p.log_level, "debug");
    assert!(matches!(p.crypt, SupportCrypt::Rc4(_)));

    let p = NfParam::parse_server(
        "l".to_string(),
        None,
        Some("aes".to_string()),
        Some("1234567890qwertyuiopasdfghjklzxc".to_string()),
        false,
    )
    .unwrap();
    assert_eq!(p.log_level, "warn");
    assert!(p.link_nodes.is_empty());
    match p.crypt {
        SupportCrypt::Aes(a) => {
            assert_eq!(a.iv, "qwertyuiopASDFGH");
            assert_eq!(a.key.len(), 32);
        },
        _ => panic!("aes selection must build an aes parameter"),
    }

    // an unknown algorithm name leaves payloads untouched
    let p = NfParam::parse_server(
        "l".to_string(),
        None,
        Some("des".to_string()),
        Some("key".to_string()),
        false,
    )
    .unwrap();
    assert!(matches!(p.crypt, SupportCrypt::Plain));
}

#[test]
fn test_parse_server_rejects_bad_key_lengths() {
    // the aes key length must be exactly 32 bytes
    assert!(NfParam::parse_server(
        "l".to_string(),
        None,
        Some("aes".to_string()),
        Some("short".to_string()),
        false,
    )
    .is_err());
    // an empty rc4 key is rejected
    assert!(NfParam::parse_server(
        "l".to_string(),
        None,
        Some("rc4".to_string()),
        Some("".to_string()),
        false,
    )
    .is_err());
}

#[test]
fn test_server_context_shares_configuration() {
    let server = ForwardServer::new(
        "127.0.0.1:8000".to_string(),
        vec!["A:1".to_string()],
        SupportCrypt::Plain,
    );
    let context = server.context();
    assert_eq!(context.link_nodes, vec!["A:1".to_string()]);
    assert!(matches!(context.crypt, SupportCrypt::Plain));
}

#[test]
fn test_string_conversions() {
    assert_eq!(StringUtil::option_str2option_string(Some("x")), Some("x".to_string()));
    assert_eq!(StringUtil::option_str2option_string(None), None);
    match StringUtil::result_str2result_string(Ok("y")) {
        Ok(s) => assert_eq!(s, "y"),
        Err(_) => panic!("an ok input must stay ok"),
    }
    match StringUtil::result_str2result_string(Err(NfError::E("boom".to_string()))) {
        Err(e) => assert_eq!(e.to_string(), "boom"),
        Ok(_) => panic!("an err input must stay err"),
    }
    assert_eq!(
        VecUtil::str_to_string(vec!["a", "b"]),
        vec!["a".to_string(), "b".to_string()]
    );
}

#[test]
fn test_error_descriptions() {
    assert_eq!(NfError::IoError("closed".to_string()).description(), "closed");
    assert_eq!(NfError::KeyError("k".to_string()).to_string(), "k");
    assert_eq!(NfError::ConvertError("c".to_string()).description(), "c");
    assert_eq!(NfError::NoneError("n".to_string()).description(), "n");
    assert_eq!(nf_tunnel::err::NfErrorCode::Success.code(), 0);
    assert_eq!(nf_tunnel::err::NfErrorCode::Fail.code(), -1);
}

#[test]
fn test_string_from_utf8_checks_validity() {
    assert!(StringUtil::string_from_utf8(vec![0xff, 0xfe]).is_err());
    assert_eq!(StringUtil::string_from_utf8(b"ok".to_vec()).unwrap(), "ok");
}

#[test]
fn test_acknowledgement_gate() {
    let ok = Data::default();
    assert!(check_forward_start_response(&ok).is_ok());

    let mut bad = Data::default();
    bad.update_error(3, "no route".to_string());
    match check_forward_start_response(&bad) {
        Err(e) => assert_eq!(e.description(), "no route"),
        Ok(_) => panic!("a non-zero code must abort the connection"),
    }
}

#[test]
fn test_error_chain_formatting() {
    assert_eq!(anyhow_error_to_chain(vec![]), "");
    assert_eq!(anyhow_error_to_chain(vec!["io failed".to_string()]), "\n0 - io failed");
    assert_eq!(
        anyhow_error_to_chain(vec!["outer".to_string(), "inner".to_string()]),
        "\n0 - outer\n1 - inner"
    );
}

#[test]
fn test_loop_selection_after_handshake() {
    assert_eq!(select_forward_loop(&Vec::new()), ForwardLoop::FramedToPlain);
    assert_eq!(select_forward_loop(&vec!["Y:2".to_string()]), ForwardLoop::FramedToFramed);
}
