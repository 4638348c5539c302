use up_rust::{UMessage, UMessageBuilder, UUri};
use up_uds_transport::frame::deserialize_for_unix_socket;
use up_uds_transport::transport::{
    MessageAttributes, StatusCode, TransportError, UdsTransport, UdsTransportClient,
};
use up_uds_transport::uri::Uri;

const SOCKET: &str = "/tmp/uprotocol_uds_transport_test.sock";

fn uri(authority: &str, ue_id: u32, version: u32, resource_id: u32) -> Uri {
    Uri {
        authority_name: authority.to_string(),
        ue_id,
        ue_version_major: version,
        resource_id,
    }
}

fn to_uuri(u: &Uri) -> UUri {
    UUri {
        authority_name: u.authority_name.clone(),
        ue_id: u.ue_id,
        ue_version_major: u.ue_version_major,
        resource_id: u.resource_id,
        ..Default::default()
    }
}

fn from_uuri(u: &UUri) -> Uri {
    uri(&u.authority_name, u.ue_id, u.ue_version_major, u.resource_id)
}

fn attributes_of(msg: &UMessage) -> Option<MessageAttributes> {
    msg.attributes.as_ref().map(|a| MessageAttributes {
        source: a.source.as_ref().map(from_uuri),
        sink: a.sink.as_ref().map(from_uuri),
    })
}

fn published(source: &Uri) -> Option<MessageAttributes> {
    Some(MessageAttributes { source: Some(uri(&source.authority_name, source.ue_id, source.ue_version_major, source.resource_id)), sink: None })
}

#[test]
fn send_dispatches_to_matching_listener() {
    const RESOURCE_ID: u32 = 0x8001;
    let resource_uri = uri("local_vehicle", 0x1010, 0x01, RESOURCE_ID);

    let mut server: UdsTransport<&str> = UdsTransport::new(SOCKET);
    server.register_listener(&resource_uri, None, 50, "mock").unwrap();

    let client = UdsTransportClient::new(SOCKET);
    assert_eq!(client.socket_path(), server.socket_path());
    let message = UMessageBuilder::publish(to_uuri(&resource_uri)).build().unwrap();
    let framed = client.frame_message(&message).unwrap();

    let received = deserialize_for_unix_socket(&framed).unwrap();
    let targets = server.dispatch_targets(&attributes_of(&received));
    assert_eq!(targets, vec![0]);
    assert_eq!(*server.listener_at(0), "mock");
}

#[test]
fn server_and_client_keep_the_socket_path() {
    let server: UdsTransport<u8> = UdsTransport::new(SOCKET);
    assert_eq!(server.socket_path(), SOCKET);
    assert_eq!(server.client().socket_path(), SOCKET);
    assert_eq!(UdsTransportClient::new("/tmp/other.sock").socket_path(), "/tmp/other.sock");
}

#[test]
fn registering_twice_is_refused() {
    let filter = uri("local_vehicle", 0x1010, 1, 0x8001);
    let mut server: UdsTransport<u8> = UdsTransport::new(SOCKET);
    assert!(server.register_listener(&filter, None, 7, 1).is_ok());
    let again = server.register_listener(&filter, None, 7, 2);
    match again {
        Err(e) => {
            assert!(matches!(e, TransportError::AlreadyRegistered));
            assert_eq!(e.code(), StatusCode::AlreadyExists);
        }
        Ok(()) => panic!("second registration accepted"),
    }
    // Another listener under the same filter is a different registration.
    assert!(server.register_listener(&filter, None, 8, 3).is_ok());
    assert_eq!(server.dispatch_targets(&published(&filter)), vec![0, 1]);
    assert_eq!(*server.listener_at(1), 3);
}

#[test]
fn unregister_removes_only_that_registration() {
    let filter = uri("local_vehicle", 0x1010, 1, 0x8001);
    let other = uri("local_vehicle", 0x1010, 1, 0xFFFF);
    let mut server: UdsTransport<u8> = UdsTransport::new(SOCKET);
    server.register_listener(&filter, None, 1, 10).unwrap();
    server.register_listener(&other, None, 2, 20).unwrap();
    assert_eq!(server.dispatch_targets(&published(&filter)), vec![0, 1]);

    assert!(server.unregister_listener(&filter, None, 1).is_ok());
    assert_eq!(server.dispatch_targets(&published(&filter)), vec![0]);
    assert_eq!(*server.listener_at(0), 20);

    match server.unregister_listener(&filter, None, 1) {
        Err(e) => {
            assert!(matches!(e, TransportError::NotRegistered));
            assert_eq!(e.code(), StatusCode::NotFound);
        }
        Ok(()) => panic!("removed twice"),
    }
    // Re-registering after removal is accepted.
    assert!(server.register_listener(&filter, None, 1, 11).is_ok());
}

#[test]
fn invalid_filters_are_refused() {
    let mut server: UdsTransport<u8> = UdsTransport::new(SOCKET);
    // No sink filter: the source filter must be a topic or the wildcard resource.
    let rpc = uri("local_vehicle", 0x1010, 1, 0x0001);
    let r = server.register_listener(&rpc, None, 1, 0);
    assert!(matches!(r, Err(TransportError::InvalidFilter(_))));
    assert_eq!(r.unwrap_err().code(), StatusCode::InvalidArgument);
    // Major version beyond 8 bits.
    let bad_version = uri("local_vehicle", 0x1010, 0x100, 0x8001);
    assert!(matches!(server.register_listener(&bad_version, None, 1, 0), Err(TransportError::InvalidFilter(_))));
    // Upper-case authority is not accepted by the authority grammar.
    let bad_authority = uri("Local_Vehicle", 0x1010, 1, 0x8001);
    assert!(matches!(server.register_listener(&bad_authority, None, 1, 0), Err(TransportError::InvalidFilter(_))));
    // Both filters with resource ID 0.
    let notify_src = uri("local_vehicle", 0x1010, 1, 0);
    let notify_sink = uri("local_vehicle", 0x2020, 1, 0);
    assert!(matches!(
        server.register_listener(&notify_src, Some(&notify_sink), 1, 0),
        Err(TransportError::InvalidFilter(_))
    ));
    // RPC method sink with a specific non-zero source resource.
    let method = uri("local_vehicle", 0x2020, 1, 0x0003);
    let topic = uri("local_vehicle", 0x1010, 1, 0x8001);
    assert!(matches!(server.register_listener(&topic, Some(&method), 1, 0), Err(TransportError::InvalidFilter(_))));
    // Nothing was registered.
    assert!(server.dispatch_targets(&published(&topic)).is_empty());
    // The wildcard authority is accepted.
    let any_authority = uri("*", 0x1010, 1, 0xFFFF);
    assert!(server.register_listener(&any_authority, None, 1, 0).is_ok());
}

#[test]
fn wildcard_filters_match() {
    let mut server: UdsTransport<u8> = UdsTransport::new(SOCKET);
    server.register_listener(&uri("*", 0xFFFF_FFFF, 0xFF, 0xFFFF), None, 1, 1).unwrap();
    server.register_listener(&uri("local_vehicle", 0xFFFF_1010, 1, 0xFFFF), None, 2, 2).unwrap();
    server.register_listener(&uri("local_vehicle", 0x1010, 1, 0x8002), None, 3, 3).unwrap();
    let source = uri("local_vehicle", 0x0003_1010, 1, 0x8001);
    assert_eq!(server.dispatch_targets(&published(&source)), vec![0, 1]);
    let other_vehicle = uri("other_vehicle", 0x1010, 1, 0x8002);
    assert_eq!(server.dispatch_targets(&published(&other_vehicle)), vec![0]);
    let other_version = uri("local_vehicle", 0x1010, 2, 0x8002);
    assert_eq!(server.dispatch_targets(&published(&other_version)), vec![0]);
}

#[test]
fn sink_filters_decide_delivery() {
    let mut server: UdsTransport<u8> = UdsTransport::new(SOCKET);
    let source = uri("local_vehicle", 0x1010, 1, 0xFFFF);
    let sink = uri("local_vehicle", 0x2020, 1, 0);
    server.register_listener(&source, Some(&sink), 1, 1).unwrap();
    server.register_listener(&source, None, 2, 2).unwrap();

    let origin = uri("local_vehicle", 0x1010, 1, 0x8001);
    let with_sink = Some(MessageAttributes {
        source: Some(uri("local_vehicle", 0x1010, 1, 0x8001)),
        sink: Some(uri("local_vehicle", 0x2020, 1, 0)),
    });
    assert_eq!(server.dispatch_targets(&with_sink), vec![0]);
    assert_eq!(server.dispatch_targets(&published(&origin)), vec![1]);
    let wrong_sink = Some(MessageAttributes {
        source: Some(uri("local_vehicle", 0x1010, 1, 0x8001)),
        sink: Some(uri("local_vehicle", 0x3030, 1, 0)),
    });
    assert!(server.dispatch_targets(&wrong_sink).is_empty());
}

#[test]
fn messages_without_source_reach_nobody() {
    let mut server: UdsTransport<u8> = UdsTransport::new(SOCKET);
    server.register_listener(&uri("*", 0xFFFF_FFFF, 0xFF, 0xFFFF), None, 1, 1).unwrap();
    assert!(server.dispatch_targets(&None).is_empty());
    let no_source = Some(MessageAttributes { source: None, sink: None });
    assert!(server.dispatch_targets(&no_source).is_empty());
    assert!(server.dispatch_targets(&attributes_of(&UMessage::default())).is_empty());
}

#[test]
fn client_refuses_listener_registration() {
    let client = UdsTransportClient::new(SOCKET);
    let filter = uri("local_vehicle", 0x1010, 1, 0x8001);
    let r = client.register_listener(&filter, None, 1);
    assert!(matches!(r, Err(TransportError::RegistrationUnsupported)));
    assert_eq!(r.unwrap_err().code(), StatusCode::Unimplemented);
    assert!(matches!(
        client.unregister_listener(&filter, None, 1),
        Err(TransportError::RegistrationUnsupported)
    ));
}

#[test]
fn invalid_filter_carries_up_rust_status() {
    let mut server: UdsTransport<u8> = UdsTransport::new(SOCKET);
    let rpc = uri("local_vehicle", 0x1010, 1, 0x0001);
    match server.register_listener(&rpc, None, 1, 0) {
        Err(TransportError::InvalidFilter(status)) => {
            assert_eq!(status.get_code(), up_rust::UCode::INVALID_ARGUMENT);
        }
        _ => panic!("invalid filter accepted"),
    }
}

#[test]
fn unregister_with_invalid_filters_is_not_found() {
    let mut server: UdsTransport<u8> = UdsTransport::new(SOCKET);
    server.register_listener(&uri("local_vehicle", 0x1010, 1, 0x8001), None, 1, 0).unwrap();
    let rpc = uri("local_vehicle", 0x1010, 1, 0x0001);
    let r = server.unregister_listener(&rpc, None, 1);
    assert!(matches!(r, Err(TransportError::NotRegistered)));
    assert_eq!(r.unwrap_err().code(), StatusCode::NotFound);
    assert_eq!(server.dispatch_targets(&published(&uri("local_vehicle", 0x1010, 1, 0x8001))), vec![0]);
}
