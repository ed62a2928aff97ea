//! Tests for the DHT module.

use std::cmp::Ordering;

use tox::binary_io::{array_to_u16, u16_to_array, u64_to_array, FromBytes, ToBytes};
use tox::crypto_core::{
    gen_keypair, gen_nonce, open, precompute, random_u64, Nonce, PublicKey, NONCEBYTES,
    PUBLICKEYBYTES,
};
use tox::dht::{
    DPacketT, DhtPacket, GetNodes, IpAddr, IpType, Ipv4Addr, Ipv6Addr, PackedNode, PacketKind,
    Ping, PingType, SendNodes, SocketAddr, GET_NODES_SIZE, PACKED_NODE_IPV4_SIZE,
    PACKED_NODE_IPV6_SIZE, PING_SIZE,
};
use tox::kbucket::{kbucket_index, Bucket, Distance, Node};

/// Safely casts `u64` to 4 `u16`.
fn u64_as_u16s(num: u64) -> (u16, u16, u16, u16) {
    let mut array: [u16; 4] = [0; 4];
    for n in 0..array.len() {
        array[n] = (num >> (16 * n)) as u16;
    }
    (array[0], array[1], array[2], array[3])
}

/// Get a PK from 4 `u64`s.
fn nums_to_pk(a: u64, b: u64, c: u64, d: u64) -> PublicKey {
    let mut pk_bytes: Vec<u8> = Vec::with_capacity(PUBLICKEYBYTES);
    pk_bytes.extend_from_slice(&u64_to_array(a));
    pk_bytes.extend_from_slice(&u64_to_array(b));
    pk_bytes.extend_from_slice(&u64_to_array(c));
    pk_bytes.extend_from_slice(&u64_to_array(d));
    let pk_bytes = &pk_bytes[..];
    PublicKey::from_slice(pk_bytes).expect("Making PK out of bytes failed!")
}

fn saddr_v4(a: u8, b: u8, c: u8, d: u8, port: u16) -> SocketAddr {
    SocketAddr::new(IpAddr::V4(Ipv4Addr::new(a, b, c, d)), port)
}

fn saddr_v6(s: [u16; 8], port: u16) -> SocketAddr {
    SocketAddr::new(
        IpAddr::V6(Ipv6Addr::new(s[0], s[1], s[2], s[3], s[4], s[5], s[6], s[7])),
        port,
    )
}

fn node_v4(a: u8, b: u8, c: u8, d: u8, port: u16, pk_byte: u8) -> PackedNode {
    PackedNode::new(true, saddr_v4(a, b, c, d, port), &PublicKey([pk_byte; 32]))
}

fn node_v6(seg: u16, port: u16, pk_byte: u8) -> PackedNode {
    PackedNode::new(false, saddr_v6([seg; 8], port), &PublicKey([pk_byte; 32]))
}

// PingType::from_bytes()

fn ping_type_with_bytes(bytes: Vec<u8>) {
    if bytes.len() == 0 {
        assert_eq!(None, PingType::from_bytes(&bytes));
    } else if bytes[0] == 0 {
        assert_eq!(PingType::Req, PingType::from_bytes(&bytes).unwrap());
    } else if bytes[0] == 1 {
        assert_eq!(PingType::Resp, PingType::from_bytes(&bytes).unwrap());
    } else {
        assert_eq!(None, PingType::from_bytes(&bytes));
    }
}

#[test]
fn ping_type_from_bytes_test() {
    ping_type_with_bytes(vec![]);
    ping_type_with_bytes(vec![2]);
    ping_type_with_bytes(vec![255, 0, 1]);

    // just in case
    let p0 = vec![0];
    assert_eq!(
        PingType::Req,
        PingType::from_bytes(&p0).expect("Unwrapping PingType::Req failed")
    );

    let p1 = vec![1];
    assert_eq!(
        PingType::Resp,
        PingType::from_bytes(&p1).expect("Unwrapping PingType::Resp failed")
    );
}

// Ping::new()

#[test]
fn ping_new_test() {
    let p1 = Ping::new();
    let p2 = Ping::new();
    assert!(p1 != p2);
    assert!(p1.id != p2.id);
}

// Ping::is_request()

#[test]
fn ping_is_request_test() {
    assert_eq!(true, Ping::new().is_request());
}

// Ping::response()

#[test]
fn ping_response_test() {
    let ping_req = Ping::new();
    let ping_res = ping_req
        .response()
        .expect("Making response to ping request failed");
    assert_eq!(ping_req.id, ping_res.id);
    assert_eq!(false, ping_res.is_request());
    assert_eq!(None, ping_res.response());
}

// Ping::as_packet()

fn ping_with_ping(p: Ping) {
    assert_eq!(DPacketT::Ping(p), p.as_packet());
}

#[test]
fn ping_as_packet_test() {
    ping_with_ping(Ping::new());
    ping_with_ping(Ping::new().response().unwrap());
}

// Ping::to_bytes()

#[test]
fn ping_to_bytes_test() {
    let p = Ping::new();
    let pb = p.to_bytes();
    assert_eq!(PING_SIZE, pb.len());
    // new ping is always a request
    assert_eq!(0, pb[0]);
    let prb = p.response().unwrap().to_bytes();
    // and response is `1`
    assert_eq!(1, prb[0]);
    // `id` of ping should not change
    assert_eq!(pb[1..], prb[1..]);
}

// Ping::from_bytes()

fn ping_with_bytes(bytes: Vec<u8>) {
    if bytes.len() < PING_SIZE || bytes[0] != 0 && bytes[0] != 1 {
        assert_eq!(None, Ping::from_bytes(&bytes));
    } else {
        let p = Ping::from_bytes(&bytes).unwrap();
        // `id` should not differ
        assert_eq!(&u64_to_array(p.id)[..], &bytes[1..9]);

        if bytes[0] == 0 {
            assert_eq!(true, p.is_request());
        } else {
            assert_eq!(false, p.is_request());
        }
    }
}

#[test]
fn ping_from_bytes_test() {
    ping_with_bytes(vec![]);
    ping_with_bytes(vec![0, 1, 2]);
    ping_with_bytes(vec![7, 1, 2, 3, 4, 5, 6, 7, 8]);

    // just in case
    let mut p_req = vec![0];
    p_req.extend_from_slice(&u64_to_array(random_u64()));
    ping_with_bytes(p_req);

    let mut p_resp = vec![1];
    p_resp.extend_from_slice(&u64_to_array(random_u64()));
    ping_with_bytes(p_resp);
}

// IpType::from_bytes()

fn ip_type_with_bytes(bytes: Vec<u8>) {
    if bytes.len() == 0 {
        return;
    }
    match bytes[0] {
        2 => assert_eq!(IpType::U4, IpType::from_bytes(&bytes).unwrap()),
        10 => assert_eq!(IpType::U6, IpType::from_bytes(&bytes).unwrap()),
        130 => assert_eq!(IpType::T4, IpType::from_bytes(&bytes).unwrap()),
        138 => assert_eq!(IpType::T6, IpType::from_bytes(&bytes).unwrap()),
        _ => assert_eq!(None, IpType::from_bytes(&bytes)),
    }
}

#[test]
fn ip_type_from_bytes_test() {
    ip_type_with_bytes(vec![0]);
    ip_type_with_bytes(vec![2]);
    ip_type_with_bytes(vec![10]);
    ip_type_with_bytes(vec![130]);
    ip_type_with_bytes(vec![138]);
}

// IpAddr::to_bytes()

fn with_ipv4(a: u8, b: u8, c: u8, d: u8) {
    let a4 = Ipv4Addr::new(a, b, c, d);
    let ab = IpAddr::V4(a4).to_bytes();
    assert_eq!(4, ab.len());
    assert_eq!(a, ab[0]);
    assert_eq!(b, ab[1]);
    assert_eq!(c, ab[2]);
    assert_eq!(d, ab[3]);
}

fn with_ipv6(n1: u64, n2: u64) {
    let (a, b, c, d) = u64_as_u16s(n1);
    let (e, f, g, h) = u64_as_u16s(n2);
    let a6 = Ipv6Addr::new(a, b, c, d, e, f, g, h);
    let ab = IpAddr::V6(a6).to_bytes();
    assert_eq!(16, ab.len());
    assert_eq!(a, array_to_u16(&[ab[0], ab[1]]));
    assert_eq!(b, array_to_u16(&[ab[2], ab[3]]));
    assert_eq!(c, array_to_u16(&[ab[4], ab[5]]));
    assert_eq!(d, array_to_u16(&[ab[6], ab[7]]));
    assert_eq!(e, array_to_u16(&[ab[8], ab[9]]));
    assert_eq!(f, array_to_u16(&[ab[10], ab[11]]));
    assert_eq!(g, array_to_u16(&[ab[12], ab[13]]));
    assert_eq!(h, array_to_u16(&[ab[14], ab[15]]));
}

#[test]
fn ip_addr_to_bytes_test() {
    with_ipv4(0, 0, 0, 0);
    with_ipv4(1, 2, 3, 4);
    with_ipv4(255, 254, 253, 252);
    with_ipv6(0, 0);
    with_ipv6(0x0123_4567_89ab_cdef, 0xfedc_ba98_7654_3210);
    with_ipv6(u64::MAX, 1);
}

// Ipv6Addr::from_bytes()

fn ipv6_with_bytes(b: Vec<u8>) {
    if b.len() < 16 {
        assert_eq!(None, Ipv6Addr::from_bytes(&b));
    } else {
        let addr = Ipv6Addr::from_bytes(&b).unwrap();
        assert_eq!(&IpAddr::V6(addr).to_bytes()[..16], &b[..16]);
    }
}

#[test]
fn ipv6_addr_from_bytes_test() {
    ipv6_with_bytes(vec![]);
    ipv6_with_bytes(vec![0; 15]);
    ipv6_with_bytes((0u8..16).collect());
    ipv6_with_bytes((0u8..32).collect());
}

// PackedNode::new()

#[test]
#[allow(non_snake_case)]
fn packed_node_new_test_ip_type_UDP_IPv4() {
    let pk = PublicKey::from_slice(&[0; PUBLICKEYBYTES]).unwrap();
    let info = PackedNode::new(true, saddr_v4(0, 0, 0, 0, 0), &pk);
    assert_eq!(IpType::U4, info.ip_type);
    assert_eq!(pk, info.pk);
}

// PackedNode::ip()

#[test]
fn packed_node_ip_test() {
    let ipv4 = PackedNode::new(
        true,
        saddr_v4(0, 0, 0, 0, 0),
        &PublicKey::from_slice(&[0; PUBLICKEYBYTES]).unwrap(),
    );

    match ipv4.ip() {
        IpAddr::V4(_) => {}
        IpAddr::V6(_) => panic!("This should not have happened, since IPv4 was supplied!"),
    }

    let ipv6 = PackedNode::new(
        true,
        saddr_v6([0; 8], 0),
        &PublicKey::from_slice(&[0; PUBLICKEYBYTES]).unwrap(),
    );

    match ipv6.ip() {
        IpAddr::V4(_) => panic!("This should not have happened, since IPv6 was supplied!"),
        IpAddr::V6(_) => {}
    }
}

// PackedNode::from_bytes_multiple()

fn multiple_with_nodes(nodes: Vec<PackedNode>) {
    if nodes.len() == 0 {
        assert_eq!(None, PackedNode::from_bytes_multiple(&vec![]));
        return;
    }
    let mut bytes = vec![];
    for n in nodes.clone() {
        bytes.extend_from_slice(&n.to_bytes());
    }
    let nodes2 = PackedNode::from_bytes_multiple(&bytes).unwrap();

    assert_eq!(nodes.len(), nodes2.len());
    assert_eq!(nodes, nodes2);
}

#[test]
fn packed_node_from_bytes_multiple_test() {
    multiple_with_nodes(vec![]);
    multiple_with_nodes(vec![node_v4(1, 2, 3, 4, 5, 6)]);
    multiple_with_nodes(vec![
        node_v4(1, 2, 3, 4, 5, 6),
        node_v6(0xabcd, 80, 7),
        node_v4(255, 0, 255, 0, 65535, 8),
    ]);
}

// PackedNode::to_bytes()

/// Returns all possible variants of `PackedNode` `ip_type`, in order
/// listed by `IpType` enum.
fn packed_node_protocol(saddr: SocketAddr, pk: &PublicKey) -> (PackedNode, PackedNode) {
    let u = PackedNode::new(true, saddr, pk);
    let t = PackedNode::new(false, saddr, pk);
    (u, t)
}

fn v4_with_saddr(a: u8, b: u8, c: u8, d: u8, port: u16) {
    let pk = &PublicKey::from_slice(&[0; PUBLICKEYBYTES]).unwrap();
    let saddr = saddr_v4(a, b, c, d, port);

    let (u, t) = packed_node_protocol(saddr, pk);
    // check whether ip_type variant matches
    assert!(u.to_bytes()[0] == IpType::U4.byte());
    assert!(t.to_bytes()[0] == IpType::T4.byte());

    // check whether IP matches ..
    //  ..with UDP
    assert!(u.to_bytes()[1] == a);
    assert!(u.to_bytes()[2] == b);
    assert!(u.to_bytes()[3] == c);
    assert!(u.to_bytes()[4] == d);
    //  ..with TCP
    assert!(t.to_bytes()[1] == a);
    assert!(t.to_bytes()[2] == b);
    assert!(t.to_bytes()[3] == c);
    assert!(t.to_bytes()[4] == d);

    // check whether port matches
    assert_eq!(&u16_to_array(port.to_be())[..], &u.to_bytes()[5..7]);
    assert_eq!(&u16_to_array(port.to_be())[..], &t.to_bytes()[5..7]);

    // check whether length matches
    assert!(u.to_bytes().len() == PACKED_NODE_IPV4_SIZE);
    assert!(t.to_bytes().len() == PACKED_NODE_IPV4_SIZE);
}

#[test]
fn packed_node_to_bytes_test_ipv4() {
    v4_with_saddr(0, 0, 0, 0, 0);
    v4_with_saddr(1, 2, 3, 4, 12345);
    v4_with_saddr(255, 254, 253, 252, 65535);
}

fn v6_with_saddr(num1: u64, num2: u64, port: u16) {
    let pk = &PublicKey::from_slice(&[0; PUBLICKEYBYTES]).unwrap();

    let (a, b, c, d) = u64_as_u16s(num1);
    let (e, f, g, h) = u64_as_u16s(num2);
    let saddr = SocketAddr::new(IpAddr::V6(Ipv6Addr::new(a, b, c, d, e, f, g, h)), port);
    let (u, t) = packed_node_protocol(saddr, pk);
    // check whether ip_type variant matches
    assert_eq!(u.to_bytes()[0], IpType::U6.byte());
    assert_eq!(t.to_bytes()[0], IpType::T6.byte());

    // check whether IP matches ..
    //  ..with UDP
    assert_eq!(&u.to_bytes()[1..3], &u16_to_array(a)[..]);
    assert_eq!(&u.to_bytes()[3..5], &u16_to_array(b)[..]);
    assert_eq!(&u.to_bytes()[5..7], &u16_to_array(c)[..]);
    assert_eq!(&u.to_bytes()[7..9], &u16_to_array(d)[..]);
    assert_eq!(&u.to_bytes()[9..11], &u16_to_array(e)[..]);
    assert_eq!(&u.to_bytes()[11..13], &u16_to_array(f)[..]);
    assert_eq!(&u.to_bytes()[13..15], &u16_to_array(g)[..]);
    assert_eq!(&u.to_bytes()[15..17], &u16_to_array(h)[..]);
    //  ..with TCP
    assert_eq!(&t.to_bytes()[1..3], &u16_to_array(a)[..]);
    assert_eq!(&t.to_bytes()[3..5], &u16_to_array(b)[..]);
    assert_eq!(&t.to_bytes()[5..7], &u16_to_array(c)[..]);
    assert_eq!(&t.to_bytes()[7..9], &u16_to_array(d)[..]);
    assert_eq!(&t.to_bytes()[9..11], &u16_to_array(e)[..]);
    assert_eq!(&t.to_bytes()[11..13], &u16_to_array(f)[..]);
    assert_eq!(&t.to_bytes()[13..15], &u16_to_array(g)[..]);
    assert_eq!(&t.to_bytes()[15..17], &u16_to_array(h)[..]);

    // check whether port matches
    assert_eq!(&u16_to_array(port.to_be())[..], &u.to_bytes()[17..19]);
    assert_eq!(&u16_to_array(port.to_be())[..], &t.to_bytes()[17..19]);

    // check whether length matches
    assert!(u.to_bytes().len() == PACKED_NODE_IPV6_SIZE);
    assert!(t.to_bytes().len() == PACKED_NODE_IPV6_SIZE);
}

#[test]
fn packed_node_to_bytes_test_ipv6() {
    v6_with_saddr(0, 0, 0);
    v6_with_saddr(0x0123_4567_89ab_cdef, 0xfedc_ba98_7654_3210, 33445);
    v6_with_saddr(u64::MAX, u64::MAX, 65535);
}

// test for serialization of PKs
fn pk_with_nums(a: u64, b: u64, c: u64, d: u64) {
    let saddr4 = saddr_v4(1, 1, 1, 1, 1);
    let saddr6 = saddr_v6([0; 8], 1);

    let pk = nums_to_pk(a, b, c, d);
    let PublicKey(ref pk_bytes) = pk;

    let (u4, t4) = packed_node_protocol(saddr4, &pk);
    assert_eq!(&u4.to_bytes()[7..], &pk_bytes[..]);
    assert_eq!(&t4.to_bytes()[7..], &pk_bytes[..]);

    let (u6, t6) = packed_node_protocol(saddr6, &pk);
    assert_eq!(&u6.to_bytes()[19..], &pk_bytes[..]);
    assert_eq!(&t6.to_bytes()[19..], &pk_bytes[..]);
}

#[test]
fn packed_nodes_to_bytes_test_pk() {
    pk_with_nums(0, 0, 0, 0);
    pk_with_nums(1, 2, 3, 4);
    pk_with_nums(u64::MAX, 0, u64::MAX, 0);
}

// PackedNode::from_bytes()

fn pn_round_trip(pn: PackedNode) {
    assert_eq!(pn, PackedNode::from_bytes(&pn.to_bytes()[..]).unwrap());
}

#[test]
fn packed_nodes_from_bytes_test() {
    pn_round_trip(node_v4(1, 2, 3, 4, 5, 6));
    pn_round_trip(node_v6(0x1234, 33445, 9));
    pn_round_trip(PackedNode::new(false, saddr_v4(9, 8, 7, 6, 5), &PublicKey([4; 32])));
}

// test for fail when length is too small
fn pn_short(pn: PackedNode) {
    let pnb = pn.to_bytes();
    assert_eq!(None, PackedNode::from_bytes(&pnb[..(pnb.len() - 1)]));
    if let None = IpType::from_bytes(&pnb[1..]) {
        assert_eq!(None, PackedNode::from_bytes(&pnb[1..]));
    }
}

#[test]
fn packed_nodes_from_bytes_test_length_short() {
    pn_short(node_v4(1, 2, 3, 4, 5, 6));
    pn_short(node_v6(0xffee, 80, 7));
}

// test for when length is too big - should work, and parse only first bytes
fn pn_long(pn: PackedNode, r_u8: Vec<u8>) {
    let mut vec = Vec::with_capacity(PACKED_NODE_IPV6_SIZE);
    vec.extend_from_slice(&pn.to_bytes()[..]);
    vec.extend_from_slice(&r_u8);
    assert_eq!(pn, PackedNode::from_bytes(&vec[..]).unwrap());
}

#[test]
fn packed_nodes_from_bytes_test_length_too_long() {
    pn_long(node_v4(1, 2, 3, 4, 5, 6), vec![42; 10]);
    pn_long(node_v6(7, 8, 9), vec![0, 1, 2, 3]);
}

// test for fail when first byte is not an `IpType`
fn pn_no_iptype(pn: PackedNode, r_u8: u8) {
    // not interested in valid options
    if r_u8 == 2 || r_u8 == 10 || r_u8 == 130 || r_u8 == 138 {
        return;
    }
    let mut vec = Vec::with_capacity(PACKED_NODE_IPV6_SIZE);
    vec.push(r_u8);
    vec.extend_from_slice(&pn.to_bytes()[1..]);
    assert_eq!(None, PackedNode::from_bytes(&vec[..]));
}

#[test]
fn packed_nodes_from_bytes_test_no_iptype() {
    pn_no_iptype(node_v4(1, 2, 3, 4, 5, 6), 0);
    pn_no_iptype(node_v4(1, 2, 3, 4, 5, 6), 42);
    pn_no_iptype(node_v6(7, 8, 9), 255);
}

// test for when `IpType` doesn't match length
fn pn_wrong_iptype(pn: PackedNode) {
    let mut vec = Vec::with_capacity(PACKED_NODE_IPV6_SIZE);
    match pn.ip_type {
        IpType::U4 => vec.push(IpType::U6.byte()),
        IpType::T4 => vec.push(IpType::T6.byte()),
        _ => return,
    }
    vec.extend_from_slice(&pn.to_bytes()[1..]);

    assert_eq!(None, PackedNode::from_bytes(&vec[..]));
}

#[test]
fn packed_nodes_from_bytes_test_wrong_iptype() {
    pn_wrong_iptype(node_v4(1, 2, 3, 4, 5, 6));
    pn_wrong_iptype(PackedNode::new(false, saddr_v4(9, 8, 7, 6, 5), &PublicKey([4; 32])));
}

// GetNodes::new()

fn gn_with_pk(a: u64, b: u64, c: u64, d: u64) {
    let pk = nums_to_pk(a, b, c, d);
    let gn = GetNodes::new(&pk);
    assert_eq!(gn.pk, pk);
}

#[test]
fn get_nodes_new_test() {
    gn_with_pk(0, 0, 0, 0);
    gn_with_pk(1, 2, 3, 4);
    gn_with_pk(u64::MAX, u64::MAX, u64::MAX, u64::MAX);
}

// GetNodes::as_packet()

fn gn_as_packet(gn: GetNodes) {
    assert_eq!(DPacketT::GetNodes(gn), gn.as_packet());
}

#[test]
fn get_nodes_as_packet_test() {
    gn_as_packet(GetNodes { pk: PublicKey([5; 32]), id: 42 });
    gn_as_packet(GetNodes::new(&nums_to_pk(1, 2, 3, 4)));
}

// GetNodes::to_bytes()

fn gn_to_bytes(gn: GetNodes) {
    let g_bytes = gn.to_bytes();
    let PublicKey(pk_bytes) = gn.pk;
    assert_eq!(&pk_bytes[..], &g_bytes[..PUBLICKEYBYTES]);
    assert_eq!(&u64_to_array(gn.id)[..], &g_bytes[PUBLICKEYBYTES..]);
}

#[test]
fn get_nodes_to_bytes_test() {
    gn_to_bytes(GetNodes { pk: PublicKey([0; 32]), id: 0 });
    gn_to_bytes(GetNodes { pk: nums_to_pk(1, 2, 3, 4), id: u64::MAX });
}

// GetNodes::from_bytes()

fn gn_from_bytes(bytes: Vec<u8>) {
    if bytes.len() < GET_NODES_SIZE {
        assert_eq!(None, GetNodes::from_bytes(&bytes));
    } else {
        let gn = GetNodes::from_bytes(&bytes).unwrap();
        // ping_id as bytes should match "original" bytes
        assert_eq!(&bytes[PUBLICKEYBYTES..GET_NODES_SIZE], &u64_to_array(gn.id)[..]);

        let PublicKey(ref pk) = gn.pk;
        assert_eq!(&pk[..], &bytes[..PUBLICKEYBYTES]);
    }
}

#[test]
fn get_nodes_from_bytes_test() {
    gn_from_bytes(vec![]);
    gn_from_bytes(vec![7; GET_NODES_SIZE - 1]);
    gn_from_bytes((0u8..40).collect());
    gn_from_bytes(vec![255; GET_NODES_SIZE + 10]);
}

// SendNodes::from_request()

fn sn_with_request(req: GetNodes, nodes: Vec<PackedNode>) {
    if nodes.len() > 4 || nodes.len() == 0 {
        assert_eq!(None, SendNodes::from_request(&req, nodes));
    } else {
        let sn = SendNodes::from_request(&req, nodes.clone()).unwrap();
        assert_eq!(req.id, sn.id);
        assert_eq!(nodes, sn.nodes);
    }
}

#[test]
fn send_nodes_from_request_test() {
    let req = GetNodes { pk: PublicKey([1; 32]), id: 42 };
    sn_with_request(req, vec![]);
    sn_with_request(req, vec![node_v4(1, 2, 3, 4, 5, 6)]);
    sn_with_request(
        req,
        vec![
            node_v4(1, 2, 3, 4, 5, 6),
            node_v6(7, 8, 9),
            node_v4(2, 2, 2, 2, 2, 2),
            node_v6(3, 3, 3),
        ],
    );
    sn_with_request(req, vec![node_v4(1, 2, 3, 4, 5, 6); 5]);
}

// SendNodes::as_packet()

fn sn_as_packet(sn: SendNodes) {
    assert_eq!(DPacketT::SendNodes(sn.clone()), sn.as_packet());
}

#[test]
fn send_nodes_as_packet_test() {
    sn_as_packet(SendNodes { nodes: vec![node_v4(1, 2, 3, 4, 5, 6)], id: 7 });
    sn_as_packet(SendNodes { nodes: vec![node_v6(1, 2, 3), node_v4(4, 5, 6, 7, 8, 9)], id: 0 });
}

// SendNodes::to_bytes()

// there should be at least 1 valid node; there can be up to 4 nodes
fn sn_to_bytes(
    req: GetNodes,
    n1: PackedNode,
    n2: Option<PackedNode>,
    n3: Option<PackedNode>,
    n4: Option<PackedNode>,
) {
    let mut nodes = vec![n1];
    if let Some(n) = n2 {
        nodes.push(n);
    }
    if let Some(n) = n3 {
        nodes.push(n);
    }
    if let Some(n) = n4 {
        nodes.push(n);
    }
    let sn_bytes = SendNodes::from_request(&req, nodes.clone()).unwrap().to_bytes();

    // number of nodes should match
    assert_eq!(nodes.len(), sn_bytes[0] as usize);

    // bytes before current PackedNode in serialized SendNodes
    // starts from `1` since first byte of serialized SendNodes is number of
    // nodes
    let mut len_before = 1;
    for node in 0..nodes.len() {
        let cur_len = nodes[node].to_bytes().len();
        assert_eq!(
            &nodes[node].to_bytes()[..],
            &sn_bytes[len_before..(len_before + cur_len)]
        );
        len_before += cur_len;
    }
    // ping id should be the same as in request
    assert_eq!(&u64_to_array(req.id)[..], &sn_bytes[len_before..]);
}

#[test]
fn send_nodes_to_bytes_test() {
    let req = GetNodes { pk: PublicKey([9; 32]), id: 0xdead_beef };
    sn_to_bytes(req, node_v4(1, 2, 3, 4, 5, 6), None, None, None);
    sn_to_bytes(
        req,
        node_v6(1, 2, 3),
        Some(node_v4(4, 5, 6, 7, 8, 9)),
        Some(node_v6(10, 11, 12)),
        None,
    );
    sn_to_bytes(
        req,
        node_v4(1, 1, 1, 1, 1, 1),
        Some(node_v4(2, 2, 2, 2, 2, 2)),
        Some(node_v4(3, 3, 3, 3, 3, 3)),
        Some(node_v6(4, 4, 4)),
    );
}

// SendNodes::from_bytes()

fn sn_from_bytes(nodes: Vec<PackedNode>, r_u64: u64) {
    let mut bytes = vec![nodes.len() as u8];
    for node in &nodes {
        bytes.extend_from_slice(&node.to_bytes());
    }
    // and ping id
    bytes.extend_from_slice(&u64_to_array(r_u64));

    if nodes.len() > 4 || nodes.len() == 0 {
        assert_eq!(None, SendNodes::from_bytes(&bytes));
    } else {
        let nodes2 = SendNodes::from_bytes(&bytes).unwrap();
        assert_eq!(&nodes, &nodes2.nodes);
        assert_eq!(r_u64, nodes2.id);
    }
}

#[test]
fn send_nodes_from_bytes_test() {
    sn_from_bytes(vec![], 42);
    sn_from_bytes(vec![node_v4(1, 2, 3, 4, 5, 6)], 0);
    sn_from_bytes(vec![node_v6(1, 2, 3), node_v4(4, 5, 6, 7, 8, 9)], u64::MAX);
    sn_from_bytes(vec![node_v4(1, 2, 3, 4, 5, 6); 5], 7);
}

// DPacketT::kind()

fn dpt_kind(dpt: DPacketT) {
    match dpt {
        DPacketT::GetNodes(_) => assert_eq!(PacketKind::GetN, dpt.kind()),
        DPacketT::SendNodes(_) => assert_eq!(PacketKind::SendN, dpt.kind()),
        DPacketT::Ping(p) => {
            if p.is_request() {
                assert_eq!(PacketKind::PingReq, dpt.kind());
            } else {
                assert_eq!(PacketKind::PingResp, dpt.kind());
            }
        }
    }
}

#[test]
fn d_packet_t_as_kind_test() {
    dpt_kind(DPacketT::Ping(Ping::new()));
    dpt_kind(DPacketT::Ping(Ping::new().response().unwrap()));
    dpt_kind(DPacketT::GetNodes(GetNodes { pk: PublicKey([1; 32]), id: 2 }));
    dpt_kind(DPacketT::SendNodes(SendNodes {
        nodes: vec![node_v4(1, 2, 3, 4, 5, 6)],
        id: 3,
    }));
}

// DPacketT::ping_resp()

fn dpt_ping_resp(dpt: DPacketT) {
    if let DPacketT::Ping(p) = dpt.clone() {
        if p.is_request() {
            assert_eq!(PacketKind::PingResp, dpt.ping_resp().unwrap().kind());
            return;
        }
    }
    assert_eq!(None, dpt.ping_resp());
}

#[test]
fn d_packet_t_ping_resp_test() {
    dpt_ping_resp(DPacketT::Ping(Ping::new()));
    dpt_ping_resp(DPacketT::Ping(Ping::new().response().unwrap()));
    dpt_ping_resp(DPacketT::GetNodes(GetNodes { pk: PublicKey([1; 32]), id: 2 }));
    dpt_ping_resp(DPacketT::SendNodes(SendNodes {
        nodes: vec![node_v6(1, 2, 3)],
        id: 3,
    }));
}

// DPacketT::to_bytes()

fn dpt_to_bytes(dp: DPacketT) {
    let dbytes = dp.to_bytes();
    match dp {
        DPacketT::Ping(d) => assert_eq!(d.to_bytes(), dbytes),
        DPacketT::GetNodes(d) => assert_eq!(d.to_bytes(), dbytes),
        DPacketT::SendNodes(d) => assert_eq!(d.to_bytes(), dbytes),
    }
}

#[test]
fn d_packet_t_to_bytes_test() {
    dpt_to_bytes(DPacketT::Ping(Ping::new()));
    dpt_to_bytes(DPacketT::GetNodes(GetNodes { pk: PublicKey([1; 32]), id: 2 }));
    dpt_to_bytes(DPacketT::SendNodes(SendNodes {
        nodes: vec![node_v4(1, 2, 3, 4, 5, 6)],
        id: 3,
    }));
}

// PacketKind::from_bytes()

fn pk_kind_with_bytes(bytes: Vec<u8>) {
    if bytes.is_empty() {
        assert_eq!(None, PacketKind::from_bytes(&bytes));
        return;
    }
    match bytes[0] {
        0x00 => assert_eq!(PacketKind::PingReq, PacketKind::from_bytes(&bytes).unwrap()),
        0x01 => assert_eq!(PacketKind::PingResp, PacketKind::from_bytes(&bytes).unwrap()),
        0x02 => assert_eq!(PacketKind::GetN, PacketKind::from_bytes(&bytes).unwrap()),
        0x04 => assert_eq!(PacketKind::SendN, PacketKind::from_bytes(&bytes).unwrap()),
        0x18 => assert_eq!(PacketKind::CookieReq, PacketKind::from_bytes(&bytes).unwrap()),
        0x19 => assert_eq!(PacketKind::CookieResp, PacketKind::from_bytes(&bytes).unwrap()),
        0x1a => assert_eq!(PacketKind::CryptoHs, PacketKind::from_bytes(&bytes).unwrap()),
        0x1b => assert_eq!(PacketKind::CryptoData, PacketKind::from_bytes(&bytes).unwrap()),
        0x20 => assert_eq!(PacketKind::DhtReq, PacketKind::from_bytes(&bytes).unwrap()),
        0x21 => assert_eq!(PacketKind::LanDisc, PacketKind::from_bytes(&bytes).unwrap()),
        0x80 => assert_eq!(PacketKind::OnionReq0, PacketKind::from_bytes(&bytes).unwrap()),
        0x81 => assert_eq!(PacketKind::OnionReq1, PacketKind::from_bytes(&bytes).unwrap()),
        0x82 => assert_eq!(PacketKind::OnionReq2, PacketKind::from_bytes(&bytes).unwrap()),
        0x83 => assert_eq!(PacketKind::AnnReq, PacketKind::from_bytes(&bytes).unwrap()),
        0x84 => assert_eq!(PacketKind::AnnResp, PacketKind::from_bytes(&bytes).unwrap()),
        0x85 => assert_eq!(PacketKind::OnionDataReq, PacketKind::from_bytes(&bytes).unwrap()),
        0x86 => assert_eq!(PacketKind::OnionDataResp, PacketKind::from_bytes(&bytes).unwrap()),
        0x8c => assert_eq!(PacketKind::OnionResp3, PacketKind::from_bytes(&bytes).unwrap()),
        0x8d => assert_eq!(PacketKind::OnionResp2, PacketKind::from_bytes(&bytes).unwrap()),
        0x8e => assert_eq!(PacketKind::OnionResp2, PacketKind::from_bytes(&bytes).unwrap()),
        _ => assert_eq!(None, PacketKind::from_bytes(&bytes)),
    }
}

#[test]
fn packet_kind_from_bytes_test() {
    for b in 0u16..=255 {
        pk_kind_with_bytes(vec![b as u8]);
    }

    // just in case
    pk_kind_with_bytes(vec![]);
    pk_kind_with_bytes(vec![0]);
    pk_kind_with_bytes(vec![1]);
    pk_kind_with_bytes(vec![2]);
    pk_kind_with_bytes(vec![3]); // incorrect
    pk_kind_with_bytes(vec![4]);
}

// DhtPacket::new()

fn dht_new_with_dpacket(dpt: DPacketT) {
    let (pk, sk) = gen_keypair();
    let precomputed = precompute(&pk, &sk);
    let nonce = gen_nonce();
    let dhtp = DhtPacket::new(&precomputed, &pk, &nonce, dpt);
    assert_eq!(dhtp.sender_pk, pk);
}

#[test]
fn dht_packet_new_test() {
    dht_new_with_dpacket(DPacketT::Ping(Ping::new()));
    dht_new_with_dpacket(DPacketT::GetNodes(GetNodes { pk: PublicKey([1; 32]), id: 2 }));
    dht_new_with_dpacket(DPacketT::SendNodes(SendNodes {
        nodes: vec![node_v4(1, 2, 3, 4, 5, 6)],
        id: 3,
    }));
}

// DhtPacket::get_packet()

fn get_packet_with_dpacket(dpt: DPacketT) {
    let (alice_pk, alice_sk) = gen_keypair();
    let (bob_pk, bob_sk) = gen_keypair();
    let precomputed = precompute(&bob_pk, &alice_sk);
    let nonce = gen_nonce();

    let new_packet = DhtPacket::new(&precomputed, &alice_pk, &nonce, dpt.clone());

    let bob_packet = new_packet.get_packet(&bob_sk).unwrap();
    assert_eq!(dpt, bob_packet);
}

#[test]
fn dht_paket_get_packet_test() {
    get_packet_with_dpacket(DPacketT::Ping(Ping::new()));
    get_packet_with_dpacket(DPacketT::Ping(Ping::new().response().unwrap()));
    get_packet_with_dpacket(DPacketT::GetNodes(GetNodes { pk: PublicKey([1; 32]), id: 2 }));
    get_packet_with_dpacket(DPacketT::SendNodes(SendNodes {
        nodes: vec![node_v6(1, 2, 3), node_v4(4, 5, 6, 7, 8, 9)],
        id: 3,
    }));
}

// DhtPacket::ping_resp()

fn ping_resp_with_dpt(dpt: DPacketT) {
    let (pk, sk) = gen_keypair();
    let prec = precompute(&pk, &sk);
    let nonce = gen_nonce();

    let response = DhtPacket::new(&prec, &pk, &nonce, dpt.clone()).ping_resp(&sk, &prec, &pk);

    if let Some(_) = dpt.ping_resp() {
        assert!(response.is_some());
    } else {
        assert_eq!(None, response);
    }
}

#[test]
fn dht_packet_ping_resp_test() {
    ping_resp_with_dpt(DPacketT::Ping(Ping::new()));
    ping_resp_with_dpt(DPacketT::Ping(Ping::new().response().unwrap()));
    ping_resp_with_dpt(DPacketT::GetNodes(GetNodes { pk: PublicKey([1; 32]), id: 2 }));
    ping_resp_with_dpt(DPacketT::SendNodes(SendNodes {
        nodes: vec![node_v4(1, 2, 3, 4, 5, 6)],
        id: 3,
    }));
}

// DhtPacket::to_bytes()

fn to_bytes_with_dpacket(dpt: DPacketT) {
    // Alice serializes & encrypts packet, Bob decrypts
    let (alice_pk, alice_sk) = gen_keypair();
    let (bob_pk, bob_sk) = gen_keypair();
    let precomputed = precompute(&bob_pk, &alice_sk);
    let nonce = gen_nonce();

    let packet = DhtPacket::new(&precomputed, &alice_pk, &nonce, dpt.clone()).to_bytes();

    // check whether packet type was serialized correctly
    let packet_type = match dpt {
        DPacketT::Ping(ref ping) => {
            if ping.is_request() {
                0
            } else {
                1
            }
        }
        DPacketT::GetNodes(_) => 2,
        DPacketT::SendNodes(_) => 4,
    };
    assert_eq!(packet_type, packet[0]);

    // sender's PK
    let PublicKey(send_pk) = alice_pk;
    assert_eq!(send_pk, packet[1..(1 + PUBLICKEYBYTES)]);

    // nonce
    let nonce_start = 1 + PUBLICKEYBYTES;
    let nonce_end = nonce_start + NONCEBYTES;
    let Nonce(nonce_bytes) = nonce;
    assert_eq!(nonce_bytes, packet[nonce_start..nonce_end]);

    let decrypted = open(&packet[nonce_end..].to_vec(), &nonce, &alice_pk, &bob_sk).unwrap();
    match dpt {
        DPacketT::Ping(d) => assert_eq!(d, Ping::from_bytes(&decrypted).unwrap()),
        DPacketT::GetNodes(d) => assert_eq!(d, GetNodes::from_bytes(&decrypted).unwrap()),
        DPacketT::SendNodes(d) => assert_eq!(d, SendNodes::from_bytes(&decrypted).unwrap()),
    }
}

#[test]
fn dht_packet_to_bytes_test() {
    to_bytes_with_dpacket(DPacketT::Ping(Ping::new()));
    to_bytes_with_dpacket(DPacketT::Ping(Ping::new().response().unwrap()));
    to_bytes_with_dpacket(DPacketT::GetNodes(GetNodes { pk: PublicKey([1; 32]), id: 2 }));
    to_bytes_with_dpacket(DPacketT::SendNodes(SendNodes {
        nodes: vec![node_v6(1, 2, 3)],
        id: 3,
    }));
}

// DhtPacket::from_bytes()

fn from_bytes_with_packet(p: DhtPacket, invalid: Vec<u8>) {
    let from_bytes = DhtPacket::from_bytes(&p.to_bytes()).unwrap();
    assert_eq!(p, from_bytes);

    if let None = PacketKind::from_bytes(&invalid) {
        assert_eq!(None, DhtPacket::from_bytes(&invalid));
    }
}

#[test]
fn dht_packet_from_bytes_test() {
    let (pk, sk) = gen_keypair();
    let prec = precompute(&pk, &sk);
    let nonce = gen_nonce();
    let p = DhtPacket::new(&prec, &pk, &nonce, DPacketT::Ping(Ping::new()));
    from_bytes_with_packet(p, vec![0x03, 1, 2, 3]);

    let p2 = DhtPacket::new(
        &prec,
        &pk,
        &nonce,
        DPacketT::GetNodes(GetNodes { pk: PublicKey([1; 32]), id: 2 }),
    );
    from_bytes_with_packet(p2, vec![0xff; 100]);
}

// PublicKey::distance()

#[test]
fn public_key_distance_test() {
    let pk_0 = PublicKey::from_slice(&[0; PUBLICKEYBYTES]).unwrap();
    let pk_1 = PublicKey::from_slice(&[1; PUBLICKEYBYTES]).unwrap();
    let pk_2 = PublicKey::from_slice(&[2; PUBLICKEYBYTES]).unwrap();
    let pk_ff = PublicKey::from_slice(&[0xff; PUBLICKEYBYTES]).unwrap();
    let pk_fe = PublicKey::from_slice(&[0xfe; PUBLICKEYBYTES]).unwrap();

    assert_eq!(Ordering::Less, pk_0.distance(&pk_1, &pk_2));
    assert_eq!(Ordering::Equal, pk_2.distance(&pk_2, &pk_2));
    assert_eq!(Ordering::Less, pk_2.distance(&pk_0, &pk_1));
    assert_eq!(Ordering::Greater, pk_2.distance(&pk_ff, &pk_fe));
    assert_eq!(Ordering::Greater, pk_2.distance(&pk_ff, &pk_fe));
    assert_eq!(Ordering::Less, pk_fe.distance(&pk_ff, &pk_2));
}

// Node::new()

fn node_with_pn(pn: PackedNode, timeout: u64) {
    let node = Node::new(&pn, timeout);
    assert_eq!(timeout, node.timeout);
    assert_eq!(0, node.id);
    assert_eq!(pn, node.node);
}

#[test]
fn node_new_test() {
    node_with_pn(node_v4(1, 2, 3, 4, 5, 6), 0);
    node_with_pn(node_v6(7, 8, 9), u64::MAX);
}

// Node::id()

fn node_with_id(node: Node, id: u64) {
    let mut node = node;
    node.id(id);
    assert_eq!(id, node.id);
}

#[test]
fn node_id_test() {
    node_with_id(Node::new(&node_v4(1, 2, 3, 4, 5, 6), 7), 42);
    node_with_id(Node::new(&node_v6(7, 8, 9), 0), u64::MAX);
}

// Node::pk()

fn node_with_pk(pn: PackedNode, timeout: u64) {
    let node = Node::new(&pn, timeout);
    assert_eq!(pn.pk, *node.pk());
}

#[test]
fn node_pk_test() {
    node_with_pk(node_v4(1, 2, 3, 4, 5, 6), 0);
    node_with_pk(node_v6(7, 8, 9), 12345);
}

// kbucket_index()

#[test]
fn kbucket_index_test() {
    let pk1 = PublicKey::from_slice(&[0b10101010; PUBLICKEYBYTES]).unwrap();
    let pk2 = PublicKey::from_slice(&[0; PUBLICKEYBYTES]).unwrap();
    let pk3 = PublicKey::from_slice(&[0b00101010; PUBLICKEYBYTES]).unwrap();
    assert_eq!(None, kbucket_index(&pk1, &pk1));
    assert_eq!(Some(0), kbucket_index(&pk1, &pk2));
    assert_eq!(Some(2), kbucket_index(&pk2, &pk3));
}

// Bucket::new()

fn bucket_with_pk(a: u64, b: u64, c: u64, d: u64, index: u8) {
    let pk = &nums_to_pk(a, b, c, d);
    assert_eq!(*pk, Bucket::new(pk, index).pk);
}

#[test]
fn bucket_new_test() {
    bucket_with_pk(0, 0, 0, 0, 0);
    bucket_with_pk(1, 2, 3, 4, 255);
    bucket_with_pk(u64::MAX, 0, u64::MAX, 0, 7);
}

// Bucket::try_add()

fn bucket_with_nodes(
    n1: Node,
    n2: Node,
    n3: Node,
    n4: Node,
    n5: Node,
    n6: Node,
    n7: Node,
    n8: Node,
) {
    let pk_bytes = [0; PUBLICKEYBYTES];
    let pk = PublicKey::from_slice(&pk_bytes).unwrap();
    let mut node = Bucket::new(&pk, 0);
    assert_eq!(true, node.try_add(&n1));
    assert_eq!(true, node.try_add(&n2));
    assert_eq!(true, node.try_add(&n3));
    assert_eq!(true, node.try_add(&n4));
    assert_eq!(true, node.try_add(&n5));
    assert_eq!(true, node.try_add(&n6));
    assert_eq!(true, node.try_add(&n7));
    assert_eq!(true, node.try_add(&n8));

    assert_eq!(false, node.try_add(&n1));
}

#[test]
fn bucket_try_add_test() {
    bucket_with_nodes(
        Node::new(&node_v4(1, 2, 3, 4, 5, 11), 0),
        Node::new(&node_v4(1, 2, 3, 4, 5, 12), 1),
        Node::new(&node_v6(1, 2, 13), 2),
        Node::new(&node_v6(1, 2, 14), 3),
        Node::new(&node_v4(9, 9, 9, 9, 9, 15), 4),
        Node::new(&node_v4(9, 9, 9, 9, 9, 16), 5),
        Node::new(&node_v6(9, 9, 17), 6),
        Node::new(&node_v6(9, 9, 18), 7),
    );
}
