//! STUN (RFC 5389) codec: Binding Request, header parsing, Binding Success
//! Response with XOR-MAPPED-ADDRESS, and decoding that address back.

use vstd::prelude::*;
use crate::bytes::{
    be_bytes, be_value, lemma_be_bytes_len, lemma_be_bytes_of_value, lemma_be_value_of_bytes,
    lemma_pow256_16, pow256, push_be, read_be,
};
use crate::net::{IpAddr, SocketAddr};

verus! {

pub const MAGIC_COOKIE: u32 = 0x2112_A442;

pub const TYPE_BINDING_REQUEST: u16 = 0x0001;

pub const TYPE_BINDING_SUCCESS: u16 = 0x0101;

pub const ATTR_XOR_MAPPED_ADDRESS: u16 = 0x0020;

pub const HEADER_LEN: usize = 20;

pub const FAMILY_V4: u8 = 0x01;

pub const FAMILY_V6: u8 = 0x02;

/// A 96-bit STUN transaction id.
pub type TransactionId = [u8; 12];

/// A decoded STUN message header.
#[derive(Debug, Clone, Copy, PartialEq, Eq)]
pub struct Header {
    pub msg_type: u16,
    pub length: u16,
    pub txid: TransactionId,
}

/// Fill a transaction id from the operating system's random source
/// (`rand::rngs::OsRng`).
#[verifier::external_body]
pub fn random_transaction_id() -> (r: TransactionId) {
    let mut id = [0u8; 12];
    rand::RngCore::fill_bytes(&mut rand::rngs::OsRng, &mut id);
    id
}

/// The 20-byte header: type, length, magic cookie, transaction id.
pub open spec fn header_bytes(msg_type: u16, length: u16, txid: Seq<u8>) -> Seq<u8> {
    be_bytes(msg_type as nat, 2) + be_bytes(length as nat, 2) + be_bytes(MAGIC_COOKIE as nat, 4)
        + txid
}

/// A Binding Request carries no attributes.
pub open spec fn binding_request_bytes(txid: Seq<u8>) -> Seq<u8> {
    header_bytes(TYPE_BINDING_REQUEST, 0, txid)
}

/// The header a buffer starts with: `(type, length, transaction id)`, or
/// `None` when the buffer is shorter than a header or the cookie is wrong.
pub open spec fn header_of(buf: Seq<u8>) -> Option<(u16, u16, Seq<u8>)> {
    if buf.len() < 20 {
        None
    } else if be_value(buf.subrange(4, 8)) != MAGIC_COOKIE as nat {
        None
    } else {
        Some(
            (
                be_value(buf.subrange(0, 2)) as u16,
                be_value(buf.subrange(2, 4)) as u16,
                buf.subrange(8, 20),
            ),
        )
    }
}

/// XOR of two byte strings, position by position (length of `a`).
pub open spec fn xor_bytes(a: Seq<u8>, k: Seq<u8>) -> Seq<u8> {
    Seq::new(a.len(), |i: int| a[i] ^ k[i])
}

/// The key an IPv6 address is XOR-ed with: the cookie, then the transaction id.
pub open spec fn v6_key(txid: Seq<u8>) -> Seq<u8> {
    be_bytes(MAGIC_COOKIE as nat, 4) + txid
}

/// The XOR-MAPPED-ADDRESS attribute value for `addr`.
pub open spec fn xor_mapped_value(txid: Seq<u8>, addr: SocketAddr) -> Seq<u8> {
    let xport = be_bytes((addr.port ^ 0x2112u16) as nat, 2);
    match addr.ip {
        IpAddr::V4(x) => seq![0u8, FAMILY_V4] + xport + be_bytes((x ^ MAGIC_COOKIE) as nat, 4),
        IpAddr::V6(x) => seq![0u8, FAMILY_V6] + xport + xor_bytes(be_bytes(x as nat, 16), v6_key(txid)),
    }
}

/// A Binding Success Response echoing `txid` and carrying `addr`.
pub open spec fn binding_response_bytes(txid: Seq<u8>, addr: SocketAddr) -> Seq<u8> {
    let value = xor_mapped_value(txid, addr);
    header_bytes(TYPE_BINDING_SUCCESS, (4 + value.len()) as u16, txid) + be_bytes(
        ATTR_XOR_MAPPED_ADDRESS as nat,
        2,
    ) + be_bytes(value.len(), 2) + value
}

/// Decode an XOR-MAPPED-ADDRESS value.
pub open spec fn xor_mapped_decode(txid: Seq<u8>, val: Seq<u8>) -> Option<SocketAddr> {
    if val.len() < 4 {
        None
    } else {
        let port = (be_value(val.subrange(2, 4)) as u16) ^ 0x2112u16;
        if val[1] == FAMILY_V4 {
            if val.len() < 8 {
                None
            } else {
                Some(
                    SocketAddr {
                        ip: IpAddr::V4((be_value(val.subrange(4, 8)) as u32) ^ MAGIC_COOKIE),
                        port,
                    },
                )
            }
        } else if val[1] == FAMILY_V6 {
            if val.len() < 20 {
                None
            } else {
                Some(
                    SocketAddr {
                        ip: IpAddr::V6(
                            be_value(xor_bytes(val.subrange(4, 20), v6_key(txid))) as u128,
                        ),
                        port,
                    },
                )
            }
        } else {
            None
        }
    }
}

/// Attribute lengths rounded up to a multiple of four.
pub open spec fn padded(l: nat) -> nat {
    ((l + 3) / 4) * 4
}

pub open spec fn remaining(off: int, end: int) -> nat {
    if off <= end { (end - off) as nat } else { 0 }
}

/// Scan the attributes in `buf[off..end]` for XOR-MAPPED-ADDRESS.
pub open spec fn scan_attrs(buf: Seq<u8>, txid: Seq<u8>, off: int, end: int) -> Option<SocketAddr>
    decreases remaining(off, end),
{
    if off < 0 || off + 4 > end || off + 4 > buf.len() {
        None
    } else {
        let attr_type = be_value(buf.subrange(off, off + 2));
        let attr_len = be_value(buf.subrange(off + 2, off + 4));
        let val_start = off + 4;
        let val_end = val_start + attr_len;
        if val_end > buf.len() {
            None
        } else if attr_type == ATTR_XOR_MAPPED_ADDRESS as nat {
            xor_mapped_decode(txid, buf.subrange(val_start, val_end))
        } else {
            scan_attrs(buf, txid, val_start + padded(attr_len), end)
        }
    }
}

/// The address a message carries, if it has a valid header and an
/// XOR-MAPPED-ADDRESS attribute inside its declared length.
pub open spec fn mapped_address_of(buf: Seq<u8>) -> Option<SocketAddr> {
    match header_of(buf) {
        None => None,
        Some((_, length, txid)) => if 20 + length > buf.len() {
            None
        } else {
            scan_attrs(buf, txid, 20, 20 + length)
        },
    }
}

fn push_bytes(out: &mut Vec<u8>, src: &[u8])
    ensures
        final(out)@ == old(out)@ + src@,
{
    let mut i: usize = 0;
    while i < src.len()
        invariant
            i <= src.len(),
            out@ == old(out)@ + src@.subrange(0, i as int),
        decreases src.len() - i,
    {
        out.push(src[i]);
        i = i + 1;
        assert(out@ =~= old(out)@ + src@.subrange(0, i as int));
    }
    assert(src@.subrange(0, src.len() as int) =~= src@);
}

fn push_header(out: &mut Vec<u8>, msg_type: u16, length: u16, txid: &TransactionId)
    ensures
        final(out)@ == old(out)@ + header_bytes(msg_type, length, txid@),
{
    push_be(out, msg_type as u128, 2);
    push_be(out, length as u128, 2);
    push_be(out, MAGIC_COOKIE as u128, 4);
    push_bytes(out, txid);
    assert(out@ =~= old(out)@ + header_bytes(msg_type, length, txid@));
}

/// Encode a Binding Request (header only, no attributes).
pub fn encode_binding_request(txid: TransactionId) -> (r: Vec<u8>)
    ensures
        r@ == binding_request_bytes(txid@),
{
    let mut buf: Vec<u8> = Vec::new();
    push_header(&mut buf, TYPE_BINDING_REQUEST, 0, &txid);
    assert(buf@ =~= binding_request_bytes(txid@));
    buf
}

/// Parse and validate a STUN message header; `None` if the buffer is too
/// short or the magic cookie is wrong.
pub fn parse_header(buf: &[u8]) -> (r: Option<Header>)
    ensures
        match header_of(buf@) {
            None => r is None,
            Some((t, l, id)) => r matches Some(h) && h.msg_type == t && h.length == l && h.txid@
                == id,
        },
{
    if buf.len() < HEADER_LEN {
        return None;
    }
    let msg_type = read_be(buf, 0, 2);
    let length = read_be(buf, 2, 2);
    let cookie = read_be(buf, 4, 4);
    if cookie != MAGIC_COOKIE as u128 {
        return None;
    }
    proof {
        lemma_value_fits(buf@.subrange(0, 2));
        lemma_value_fits(buf@.subrange(2, 4));
    }
    let mut txid = [0u8; 12];
    let mut i: usize = 0;
    while i < 12
        invariant
            buf@.len() >= 20,
            i <= 12,
            forall|j: int| 0 <= j < i ==> txid@[j] == buf@[8 + j],
        decreases 12 - i,
    {
        txid[i] = buf[8 + i];
        i = i + 1;
    }
    assert(txid@ =~= buf@.subrange(8, 20));
    Some(Header { msg_type: msg_type as u16, length: length as u16, txid })
}

/// The value of two or four bytes fits its integer type.
proof fn lemma_value_fits(s: Seq<u8>)
    ensures
        s.len() == 2 ==> be_value(s) < 0x1_0000,
        s.len() == 4 ==> be_value(s) < 0x1_0000_0000,
        s.len() == 16 ==> be_value(s) < 0x1_0000_0000_0000_0000_0000_0000_0000_0000,
{
    crate::bytes::lemma_be_value_bound(s);
    lemma_pow256_16();
}

fn xor_mapped_value_exec(txid: &TransactionId, addr: SocketAddr) -> (r: Vec<u8>)
    ensures
        r@ == xor_mapped_value(txid@, addr),
{
    let mut v: Vec<u8> = Vec::new();
    let xport: u16 = addr.port ^ 0x2112u16;
    match addr.ip {
        IpAddr::V4(x) => {
            v.push(0);
            v.push(FAMILY_V4);
            push_be(&mut v, xport as u128, 2);
            push_be(&mut v, (x ^ MAGIC_COOKIE) as u128, 4);
        },
        IpAddr::V6(x) => {
            v.push(0);
            v.push(FAMILY_V6);
            push_be(&mut v, xport as u128, 2);
            let mut key: Vec<u8> = Vec::new();
            push_be(&mut key, MAGIC_COOKIE as u128, 4);
            push_bytes(&mut key, txid);
            let mut octets: Vec<u8> = Vec::new();
            push_be(&mut octets, x, 16);
            proof {
                lemma_be_bytes_len(x as nat, 16);
                lemma_be_bytes_len(MAGIC_COOKIE as nat, 4);
            }
            let ghost before = v@;
            let mut i: usize = 0;
            while i < 16
                invariant
                    octets@ == be_bytes(x as nat, 16),
                    octets@.len() == 16,
                    key@ == v6_key(txid@),
                    key@.len() == 16,
                    i <= 16,
                    v@ == before + xor_bytes(octets@, key@).subrange(0, i as int),
                decreases 16 - i,
            {
                v.push(octets[i] ^ key[i]);
                i = i + 1;
                assert(v@ =~= before + xor_bytes(octets@, key@).subrange(0, i as int));
            }
            assert(xor_bytes(octets@, key@).subrange(0, 16) =~= xor_bytes(octets@, key@));
        },
    }
    assert(v@ =~= xor_mapped_value(txid@, addr));
    v
}

/// Encode a Binding Success Response echoing `txid`, carrying `addr` as
/// XOR-MAPPED-ADDRESS.
pub fn encode_binding_response(txid: TransactionId, addr: SocketAddr) -> (r: Vec<u8>)
    ensures
        r@ == binding_response_bytes(txid@, addr),
{
    let value = xor_mapped_value_exec(&txid, addr);
    proof {
        lemma_be_bytes_len((addr.port ^ 0x2112u16) as nat, 2);
        match addr.ip {
            IpAddr::V4(x) => lemma_be_bytes_len((x ^ MAGIC_COOKIE) as nat, 4),
            IpAddr::V6(x) => lemma_be_bytes_len(x as nat, 16),
        }
    }
    let attr_len: u16 = value.len() as u16;
    let body_len: u16 = 4 + attr_len;
    let mut buf: Vec<u8> = Vec::new();
    push_header(&mut buf, TYPE_BINDING_SUCCESS, body_len, &txid);
    push_be(&mut buf, ATTR_XOR_MAPPED_ADDRESS as u128, 2);
    push_be(&mut buf, attr_len as u128, 2);
    push_bytes(&mut buf, value.as_slice());
    assert(buf@ =~= binding_response_bytes(txid@, addr));
    buf
}

fn decode_xor_mapped_address(txid: &TransactionId, buf: &[u8], start: usize, end: usize) -> (r:
    Option<SocketAddr>)
    requires
        start <= end <= buf@.len(),
    ensures
        r == xor_mapped_decode(txid@, buf@.subrange(start as int, end as int)),
{
    let ghost val = buf@.subrange(start as int, end as int);
    if end - start < 4 {
        return None;
    }
    let family = buf[start + 1];
    let xport = read_be(buf, start + 2, 2);
    proof {
        lemma_value_fits(buf@.subrange(start + 2, start + 4));
        assert(val.subrange(2, 4) =~= buf@.subrange(start + 2, start + 4));
    }
    let port: u16 = (xport as u16) ^ 0x2112u16;
    if family == FAMILY_V4 {
        if end - start < 8 {
            return None;
        }
        let xaddr = read_be(buf, start + 4, 4);
        proof {
            lemma_value_fits(buf@.subrange(start + 4, start + 8));
            assert(val.subrange(4, 8) =~= buf@.subrange(start + 4, start + 8));
        }
        Some(SocketAddr { ip: IpAddr::V4((xaddr as u32) ^ MAGIC_COOKIE), port })
    } else if family == FAMILY_V6 {
        if end - start < 20 {
            return None;
        }
        let mut key: Vec<u8> = Vec::new();
        push_be(&mut key, MAGIC_COOKIE as u128, 4);
        push_bytes(&mut key, txid);
        proof {
            lemma_be_bytes_len(MAGIC_COOKIE as nat, 4);
        }
        let mut octets: Vec<u8> = Vec::new();
        let mut i: usize = 0;
        while i < 16
            invariant
                start + 20 <= end <= buf@.len(),
                val == buf@.subrange(start as int, end as int),
                key@ == v6_key(txid@),
                key@.len() == 16,
                i <= 16,
                octets@ == xor_bytes(val.subrange(4, 20), key@).subrange(0, i as int),
            decreases 16 - i,
        {
            octets.push(buf[start + 4 + i] ^ key[i]);
            i = i + 1;
            assert(octets@ =~= xor_bytes(val.subrange(4, 20), key@).subrange(0, i as int));
        }
        assert(octets@ =~= xor_bytes(val.subrange(4, 20), key@));
        let x = read_be(octets.as_slice(), 0, 16);
        assert(octets@.subrange(0, 16) =~= octets@);
        Some(SocketAddr { ip: IpAddr::V6(x), port })
    } else {
        None
    }
}

/// Scan a message's attributes for XOR-MAPPED-ADDRESS and decode it.
pub fn parse_xor_mapped_address(buf: &[u8]) -> (r: Option<SocketAddr>)
    ensures
        r == mapped_address_of(buf@),
{
    let header = match parse_header(buf) {
        Some(h) => h,
        None => return None,
    };
    let end: usize = HEADER_LEN + header.length as usize;
    if end > buf.len() {
        return None;
    }
    let mut off: usize = HEADER_LEN;
    while off <= end && end - off >= 4
        invariant
            end <= buf@.len(),
            off <= buf@.len() + 3,
            header_of(buf@) matches Some((_, l, id)) && id == header.txid@ && end == 20 + l,
            mapped_address_of(buf@) == scan_attrs(buf@, header.txid@, off as int, end as int),
        decreases buf@.len() + 3 - off,
    {
        let attr_type = read_be(buf, off, 2);
        let attr_len = read_be(buf, off + 2, 2);
        proof {
            lemma_value_fits(buf@.subrange(off as int, off + 2));
            lemma_value_fits(buf@.subrange(off + 2, off + 4));
        }
        let val_start = off + 4;
        let val_end = val_start + attr_len as usize;
        if val_end > buf.len() {
            return None;
        }
        if attr_type == ATTR_XOR_MAPPED_ADDRESS as u128 {
            return decode_xor_mapped_address(&header.txid, buf, val_start, val_end);
        }
        off = val_start + ((attr_len as usize + 3) / 4) * 4;
    }
    None
}

/// What went wrong with a STUN reply.
#[derive(Debug, Clone, Copy, PartialEq, Eq, Structural)]
pub enum StunError {
    /// Too short, or not a STUN message (bad magic cookie).
    InvalidHeader,
    /// The reply answers another transaction.
    TransactionMismatch,
    /// The reply carries no XOR-MAPPED-ADDRESS.
    NoMappedAddress,
}

fn same_txid(a: &TransactionId, b: &TransactionId) -> (r: bool)
    ensures
        r == (a@ == b@),
{
    let mut i: usize = 0;
    while i < 12
        invariant
            i <= 12,
            forall|j: int| 0 <= j < i ==> a@[j] == b@[j],
        decreases 12 - i,
    {
        if a[i] != b[i] {
            return false;
        }
        i = i + 1;
    }
    assert(a@ =~= b@);
    true
}

/// The answer a STUN server gives to datagram `buf` from `src`: a Binding
/// Success Response carrying `src` for a Binding Request; nothing for
/// anything else (not STUN, bad cookie, another message type).
pub fn answer_binding_request(buf: &[u8], src: SocketAddr) -> (r: Option<Vec<u8>>)
    ensures
        match header_of(buf@) {
            Some((t, _, id)) => if t == TYPE_BINDING_REQUEST {
                r matches Some(v) && v@ == binding_response_bytes(id, src)
            } else {
                r is None
            },
            None => r is None,
        },
{
    match parse_header(buf) {
        Some(h) => {
            if h.msg_type != TYPE_BINDING_REQUEST {
                None
            } else {
                Some(encode_binding_response(h.txid, src))
            }
        },
        None => None,
    }
}

/// Validate a reply to the Binding Request sent with `txid` and take the
/// reflexive address it reports.
pub fn check_binding_response(buf: &[u8], txid: &TransactionId) -> (r: Result<SocketAddr, StunError>)
    ensures
        match header_of(buf@) {
            None => r == Err::<SocketAddr, StunError>(StunError::InvalidHeader),
            Some((_, _, id)) => if id != txid@ {
                r == Err::<SocketAddr, StunError>(StunError::TransactionMismatch)
            } else {
                match mapped_address_of(buf@) {
                    Some(a) => r == Ok::<SocketAddr, StunError>(a),
                    None => r == Err::<SocketAddr, StunError>(StunError::NoMappedAddress),
                }
            },
        },
{
    let header = match parse_header(buf) {
        Some(h) => h,
        None => return Err(StunError::InvalidHeader),
    };
    if !same_txid(&header.txid, txid) {
        return Err(StunError::TransactionMismatch);
    }
    match parse_xor_mapped_address(buf) {
        Some(a) => Ok(a),
        None => Err(StunError::NoMappedAddress),
    }
}

proof fn lemma_header_fields(msg_type: u16, length: u16, txid: Seq<u8>, rest: Seq<u8>)
    requires
        txid.len() == 12,
    ensures
        header_of(header_bytes(msg_type, length, txid) + rest) == Some((msg_type, length, txid)),
        (header_bytes(msg_type, length, txid) + rest).len() == 20 + rest.len(),
{
    lemma_pow256_16();
    lemma_be_bytes_len(msg_type as nat, 2);
    lemma_be_bytes_len(length as nat, 2);
    lemma_be_bytes_len(MAGIC_COOKIE as nat, 4);
    lemma_be_value_of_bytes(msg_type as nat, 2);
    lemma_be_value_of_bytes(length as nat, 2);
    lemma_be_value_of_bytes(MAGIC_COOKIE as nat, 4);
    let b = header_bytes(msg_type, length, txid) + rest;
    assert(b.subrange(0, 2) =~= be_bytes(msg_type as nat, 2));
    assert(b.subrange(2, 4) =~= be_bytes(length as nat, 2));
    assert(b.subrange(4, 8) =~= be_bytes(MAGIC_COOKIE as nat, 4));
    assert(b.subrange(8, 20) =~= txid);
}

/// A Binding Request parses back to its own header: a request type, no
/// attributes, and the transaction id it was made with.
pub proof fn lemma_binding_request_roundtrip(txid: Seq<u8>)
    requires
        txid.len() == 12,
    ensures
        header_of(binding_request_bytes(txid)) == Some((TYPE_BINDING_REQUEST, 0u16, txid)),
        binding_request_bytes(txid).len() == 20,
{
    lemma_header_fields(TYPE_BINDING_REQUEST, 0, txid, seq![]);
    assert(binding_request_bytes(txid) =~= header_bytes(TYPE_BINDING_REQUEST, 0, txid) + seq![]);
}

proof fn lemma_value_len(txid: Seq<u8>, addr: SocketAddr)
    requires
        txid.len() == 12,
    ensures
        xor_mapped_value(txid, addr).len() == (match addr.ip {
            IpAddr::V4(_) => 8nat,
            IpAddr::V6(_) => 20nat,
        }),
{
    lemma_be_bytes_len((addr.port ^ 0x2112u16) as nat, 2);
    lemma_be_bytes_len(MAGIC_COOKIE as nat, 4);
    match addr.ip {
        IpAddr::V4(x) => lemma_be_bytes_len((x ^ MAGIC_COOKIE) as nat, 4),
        IpAddr::V6(x) => lemma_be_bytes_len(x as nat, 16),
    }
}

/// Decoding the XOR-MAPPED-ADDRESS value made for `addr` gives `addr` back.
proof fn lemma_value_roundtrip(txid: Seq<u8>, addr: SocketAddr)
    requires
        txid.len() == 12,
    ensures
        xor_mapped_decode(txid, xor_mapped_value(txid, addr)) == Some(addr),
{
    lemma_pow256_16();
    lemma_value_len(txid, addr);
    let v = xor_mapped_value(txid, addr);
    let xp: u16 = addr.port ^ 0x2112u16;
    lemma_be_bytes_len(xp as nat, 2);
    lemma_be_value_of_bytes(xp as nat, 2);
    assert(v.subrange(2, 4) =~= be_bytes(xp as nat, 2));
    let port = addr.port;
    assert((xp ^ 0x2112u16) == port) by (bit_vector)
        requires
            xp == port ^ 0x2112u16,
    ;
    match addr.ip {
        IpAddr::V4(x) => {
            let y: u32 = x ^ MAGIC_COOKIE;
            lemma_be_value_of_bytes(y as nat, 4);
            assert(v.subrange(4, 8) =~= be_bytes(y as nat, 4));
            assert((y ^ MAGIC_COOKIE) == x) by (bit_vector)
                requires
                    y == x ^ MAGIC_COOKIE,
            ;
        },
        IpAddr::V6(x) => {
            let key = v6_key(txid);
            lemma_be_bytes_len(MAGIC_COOKIE as nat, 4);
            let oct = be_bytes(x as nat, 16);
            lemma_be_bytes_len(x as nat, 16);
            assert(v.subrange(4, 20) =~= xor_bytes(oct, key));
            assert forall|i: int| 0 <= i < 16 implies (#[trigger] oct[i] ^ key[i]) ^ key[i] == oct[i] by {
                let a = oct[i];
                let k = key[i];
                assert((a ^ k) ^ k == a) by (bit_vector);
            }
            assert(xor_bytes(xor_bytes(oct, key), key) =~= oct);
            lemma_be_value_of_bytes(x as nat, 16);
        },
    }
}

/// A Binding Success Response carries the success type, a length covering
/// its single attribute, and the transaction id it echoes.
pub proof fn lemma_binding_response_header(txid: Seq<u8>, addr: SocketAddr)
    requires
        txid.len() == 12,
    ensures
        header_of(binding_response_bytes(txid, addr)) == Some(
            (TYPE_BINDING_SUCCESS, (4 + xor_mapped_value(txid, addr).len()) as u16, txid),
        ),
{
    let value = xor_mapped_value(txid, addr);
    let rest = be_bytes(ATTR_XOR_MAPPED_ADDRESS as nat, 2) + be_bytes(value.len(), 2) + value;
    lemma_header_fields(TYPE_BINDING_SUCCESS, (4 + value.len()) as u16, txid, rest);
    assert(binding_response_bytes(txid, addr) =~= header_bytes(
        TYPE_BINDING_SUCCESS,
        (4 + value.len()) as u16,
        txid,
    ) + rest);
}

/// The address carried by a Binding Success Response is the one it was
/// made with.
pub proof fn lemma_binding_response_roundtrip(txid: Seq<u8>, addr: SocketAddr)
    requires
        txid.len() == 12,
    ensures
        mapped_address_of(binding_response_bytes(txid, addr)) == Some(addr),
{
    lemma_pow256_16();
    let value = xor_mapped_value(txid, addr);
    lemma_value_len(txid, addr);
    let vlen = value.len();
    let rest = be_bytes(ATTR_XOR_MAPPED_ADDRESS as nat, 2) + be_bytes(vlen, 2) + value;
    let b = binding_response_bytes(txid, addr);
    lemma_binding_response_header(txid, addr);
    assert(b =~= header_bytes(TYPE_BINDING_SUCCESS, (4 + vlen) as u16, txid) + rest);
    lemma_header_fields(TYPE_BINDING_SUCCESS, (4 + vlen) as u16, txid, rest);
    lemma_be_bytes_len(ATTR_XOR_MAPPED_ADDRESS as nat, 2);
    lemma_be_bytes_len(vlen, 2);
    lemma_be_value_of_bytes(ATTR_XOR_MAPPED_ADDRESS as nat, 2);
    lemma_be_value_of_bytes(vlen, 2);
    assert(b.len() == 24 + vlen);
    assert(b.subrange(20, 22) =~= be_bytes(ATTR_XOR_MAPPED_ADDRESS as nat, 2));
    assert(b.subrange(22, 24) =~= be_bytes(vlen, 2));
    assert(b.subrange(24, 24 + vlen as int) =~= value);
    lemma_value_roundtrip(txid, addr);
}

} // verus!
