//! EDNS contexts and OPT records.
use hickory_proto::op::{Message, MessageType, OpCode};
use hickory_proto::serialize::binary::{BinDecodable, BinEncodable};
use rolodex::edns::{add_edns_to_response, EdnsContext};

#[test]
fn test_edns_context_default() {
    let ctx = EdnsContext::default();
    assert_eq!(ctx.version, 0);
    assert_eq!(ctx.max_payload, 4096);
    assert!(!ctx.dnssec_ok);
    assert!(!ctx.is_unsupported_version());
}

#[test]
fn test_edns_context_unsupported_version() {
    let ctx = EdnsContext {
        version: 1,
        max_payload: 4096,
        dnssec_ok: false,
    };
    assert!(ctx.is_unsupported_version());
}

#[test]
fn test_edns_from_message_without_opt() {
    let msg = Message::new();
    let bytes = msg.to_bytes().unwrap();
    assert!(EdnsContext::from_message(&bytes).is_none());
}

#[test]
fn test_edns_from_message_with_opt() {
    let mut msg = Message::new();
    msg.set_id(1234);
    msg.set_message_type(MessageType::Query);
    msg.set_op_code(OpCode::Query);

    let mut edns = hickory_proto::op::Edns::new();
    edns.set_version(0);
    edns.set_max_payload(1232);
    edns.set_dnssec_ok(true);
    msg.set_edns(edns);

    let bytes = msg.to_bytes().unwrap();
    let ctx = EdnsContext::from_message(&bytes).unwrap();
    assert_eq!(ctx.version, 0);
    assert_eq!(ctx.max_payload, 1232);
    assert!(ctx.dnssec_ok);
}

#[test]
fn test_add_edns_to_response() {
    let mut response = Message::new();
    response.set_id(5678);
    response.set_message_type(MessageType::Response);

    let mut bytes = response.to_bytes().unwrap();
    add_edns_to_response(&mut bytes, 4096, 0, true);
    // One additional record.
    bytes[11] = 1;

    let parsed = Message::from_bytes(&bytes).unwrap();
    let edns = parsed.extensions().as_ref().unwrap();
    assert_eq!(edns.version(), 0);
    assert_eq!(edns.max_payload(), 4096);
    assert!(edns.flags().dnssec_ok);
}
