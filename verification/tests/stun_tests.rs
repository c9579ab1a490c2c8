use whalescale::net::{IpAddr, SocketAddr};
use whalescale::stun::{
    answer_binding_request, check_binding_response, encode_binding_request, encode_binding_response, parse_header,
    parse_xor_mapped_address, random_transaction_id, StunError, TYPE_BINDING_REQUEST, TYPE_BINDING_SUCCESS,
};

#[test]
fn header_roundtrip() {
    let txid = random_transaction_id();
    let req = encode_binding_request(txid);
    let h = parse_header(&req).expect("valid header");
    assert_eq!(h.msg_type, TYPE_BINDING_REQUEST);
    assert_eq!(h.length, 0);
    assert_eq!(h.txid, txid);
}

#[test]
fn rejects_bad_cookie() {
    let mut req = encode_binding_request(random_transaction_id());
    req[4] ^= 0xFF;
    assert!(parse_header(&req).is_none());
}

#[test]
fn xor_mapped_address_v4_roundtrip() {
    let txid = random_transaction_id();
    let addr = SocketAddr { ip: IpAddr::V4(u32::from_be_bytes([203, 0, 113, 7])), port: 51820 };
    let resp = encode_binding_response(txid, addr);
    let parsed = parse_xor_mapped_address(&resp).expect("address present");
    assert_eq!(parsed, addr);
    let h = parse_header(&resp).unwrap();
    assert_eq!(h.msg_type, TYPE_BINDING_SUCCESS);
    assert_eq!(h.txid, txid);
}

#[test]
fn xor_mapped_address_v6_roundtrip() {
    let txid = random_transaction_id();
    let addr = SocketAddr { ip: IpAddr::V6(0x2001_0db8_0000_0000_0000_0000_0000_0001), port: 1234 };
    let resp = encode_binding_response(txid, addr);
    let parsed = parse_xor_mapped_address(&resp).expect("address present");
    assert_eq!(parsed, addr);
}

#[test]
fn server_answers_requests_only() {
    let txid = [7u8; 12];
    let client = SocketAddr { ip: IpAddr::V4(0x0a000001), port: 4000 };
    let req = encode_binding_request(txid);
    let resp = answer_binding_request(&req, client).unwrap();
    assert_eq!(resp, encode_binding_response(txid, client));
    assert!(answer_binding_request(&resp, client).is_none());
    assert!(answer_binding_request(&[0u8; 4], client).is_none());
}

#[test]
fn client_checks_transaction_and_address() {
    let txid = [3u8; 12];
    let me = SocketAddr { ip: IpAddr::V4(0xc6336401), port: 51820 };
    let resp = encode_binding_response(txid, me);
    assert_eq!(check_binding_response(&resp, &txid), Ok(me));
    assert_eq!(check_binding_response(&resp, &[4u8; 12]), Err(StunError::TransactionMismatch));
    assert_eq!(check_binding_response(&encode_binding_request(txid), &txid), Err(StunError::NoMappedAddress));
    assert_eq!(check_binding_response(&[1, 2, 3], &txid), Err(StunError::InvalidHeader));
}
