//! DHT wire entities: the transport tag, socket addresses, the contact
//! descriptor (`PackedNode`), the three control packets, the packet-kind
//! table, and the authenticated-encryption envelope (`DhtPacket`).
//!
//! Every entity states its exact wire layout as a spec-level encoding
//! function, and decoding is pinned to a spec-level parser that rejects a
//! short buffer and ignores trailing bytes.

use vstd::prelude::*;

use crate::binary_io::{
    array_to_u64, u16_le_bytes, u64_from_le, u64_le_bytes, u64_to_array, FromBytes, ToBytes,
};
use crate::crypto_core::{
    gen_nonce, open_of, open_precomputed, pk_of, precompute, random_u64, seal_of,
    seal_precomputed, shared_of, Nonce, PrecomputedKey, PublicKey, SecretKey,
};
use vstd::array::array_as_slice;
use vstd::slice::{slice_subrange, slice_to_vec};

verus! {

/// Size in bytes of a serialized IPv4-bearing `PackedNode`.
pub const PACKED_NODE_IPV4_SIZE: usize = 39;

/// Size in bytes of a serialized IPv6-bearing `PackedNode`.
pub const PACKED_NODE_IPV6_SIZE: usize = 51;

/// The two big-endian (network byte order) bytes of a `u16` port.
pub open spec fn u16_be_bytes(n: u16) -> Seq<u8> {
    seq![(n >> 8) as u8, (n & 0xff) as u8]
}

/// The `u16` whose big-endian bytes are the first two of `b`.
pub open spec fn u16_from_be(b: Seq<u8>) -> u16
    recommends
        b.len() >= 2,
{
    (((b[0] as u16) << 8) | (b[1] as u16)) as u16
}

/// A `u16` written out big-endian and read back is unchanged.
pub proof fn lemma_u16_be_round_trip(n: u16)
    ensures
        u16_from_be(u16_be_bytes(n)) == n,
{
    assert(((((n >> 8) as u8) as u16) << 8 | (((n & 0xff) as u8) as u16)) == n) by (bit_vector);
}

/// Two bytes read as a little-endian `u16` keep their values as the low and
/// high byte of the result.
pub proof fn lemma_u16_le_reencode(x: u8, y: u8)
    ensures
        (((((x as u16) | ((y as u16) << 8)) as u16) & 0xff) as u8) == x,
        ((((((x as u16) | ((y as u16) << 8)) as u16) >> 8) & 0xff) as u8) == y,
{
    assert((((((x as u16) | ((y as u16) << 8)) as u16) & 0xff) as u8) == x && ((((((x as u16) | ((
    y as u16) << 8)) as u16) >> 8) & 0xff) as u8) == y) by (bit_vector);
}

/// Transport tag: transport protocol crossed with IP version.
///
/// Wire codes: UDP/IPv4 is 2, UDP/IPv6 is 10, TCP/IPv4 is 130, TCP/IPv6
/// is 138; every other byte is invalid.
#[derive(Clone, Copy, PartialEq, Eq, Debug)]
pub enum IpType {
    /// UDP over IPv4, wire code 2.
    U4,
    /// UDP over IPv6, wire code 10.
    U6,
    /// TCP over IPv4, wire code 130.
    T4,
    /// TCP over IPv6, wire code 138.
    T6,
}

/// The wire code of a transport tag.
pub open spec fn ip_type_byte(t: IpType) -> u8 {
    match t {
        IpType::U4 => 2,
        IpType::U6 => 10,
        IpType::T4 => 130,
        IpType::T6 => 138,
    }
}

/// The transport tag a byte decodes to, if any.
pub open spec fn ip_type_from_byte(b: u8) -> Option<IpType> {
    if b == 2 {
        Some(IpType::U4)
    } else if b == 10 {
        Some(IpType::U6)
    } else if b == 130 {
        Some(IpType::T4)
    } else if b == 138 {
        Some(IpType::T6)
    } else {
        None
    }
}

/// A byte decodes to a transport tag exactly when it is one of the four wire
/// codes, and encoding inverts decoding.
pub proof fn lemma_ip_type_byte(b: u8)
    ensures
        ip_type_from_byte(b) is Some <==> (b == 2 || b == 10 || b == 130 || b == 138),
        ip_type_from_byte(b) matches Some(t) ==> ip_type_byte(t) == b,
{
}

impl View for IpType {
    type V = IpType;

    open spec fn view(&self) -> IpType {
        *self
    }
}

impl IpType {
    /// The wire code of this tag.
    pub fn byte(&self) -> (r: u8)
        ensures
            r == ip_type_byte(*self),
    {
        match self {
            IpType::U4 => 2,
            IpType::U6 => 10,
            IpType::T4 => 130,
            IpType::T6 => 138,
        }
    }

    /// Whether this tag carries an IPv4 address.
    pub fn is_ipv4(&self) -> (r: bool)
        ensures
            r == (addr_len(*self) == 4),
    {
        match self {
            IpType::U4 => true,
            IpType::T4 => true,
            IpType::U6 => false,
            IpType::T6 => false,
        }
    }
}

impl FromBytes<IpType> for IpType {
    open spec fn from_bytes_spec(bytes: Seq<u8>) -> Option<IpType> {
        if bytes.len() == 0 {
            None
        } else {
            ip_type_from_byte(bytes[0])
        }
    }

    fn from_bytes(bytes: &[u8]) -> (r: Option<IpType>) {
        if bytes.len() == 0 {
            return None;
        }
        match bytes[0] {
            2 => Some(IpType::U4),
            10 => Some(IpType::U6),
            130 => Some(IpType::T4),
            138 => Some(IpType::T6),
            _ => None,
        }
    }
}

/// An IPv4 address: four raw octets.
#[derive(Clone, Copy, PartialEq, Eq, Debug)]
pub struct Ipv4Addr(pub [u8; 4]);

impl View for Ipv4Addr {
    type V = Seq<u8>;

    open spec fn view(&self) -> Seq<u8> {
        self.0@
    }
}

impl Ipv4Addr {
    /// Build an address from its four octets.
    pub fn new(a: u8, b: u8, c: u8, d: u8) -> (r: Ipv4Addr)
        ensures
            r@ == seq![a, b, c, d],
    {
        let r = Ipv4Addr([a, b, c, d]);
        proof {
            assert(r@ =~= seq![a, b, c, d]);
        }
        r
    }
}

/// An IPv6 address: eight 16-bit segments.
#[derive(Clone, Copy, PartialEq, Eq, Debug)]
pub struct Ipv6Addr(pub [u16; 8]);

impl View for Ipv6Addr {
    type V = Seq<u8>;

    /// The fixed 16-byte wire layout: each segment as two little-endian
    /// bytes, exactly as the deployed protocol lays the address out.
    open spec fn view(&self) -> Seq<u8> {
        let s = self.0@;
        u16_le_bytes(s[0]) + u16_le_bytes(s[1]) + u16_le_bytes(s[2]) + u16_le_bytes(s[3])
            + u16_le_bytes(s[4]) + u16_le_bytes(s[5]) + u16_le_bytes(s[6]) + u16_le_bytes(s[7])
    }
}

impl Ipv6Addr {
    /// Build an address from its eight segments.
    pub fn new(a: u16, b: u16, c: u16, d: u16, e: u16, f: u16, g: u16, h: u16) -> (r: Ipv6Addr)
        ensures
            r.0@ == seq![a, b, c, d, e, f, g, h],
    {
        let r = Ipv6Addr([a, b, c, d, e, f, g, h]);
        proof {
            assert(r.0@ =~= seq![a, b, c, d, e, f, g, h]);
        }
        r
    }
}

impl FromBytes<Ipv6Addr> for Ipv6Addr {
    open spec fn from_bytes_spec(bytes: Seq<u8>) -> Option<Seq<u8>> {
        if bytes.len() < 16 {
            None
        } else {
            Some(bytes.take(16))
        }
    }

    /// Decode an IPv6 address from its first 16 bytes; trailing bytes are
    /// ignored.
    fn from_bytes(bytes: &[u8]) -> (r: Option<Ipv6Addr>) {
        if bytes.len() < 16 {
            return None;
        }
        let mut segs: [u16; 8] = [0; 8];
        let mut i: usize = 0;
        while i < 8
            invariant
                i <= 8,
                bytes@.len() >= 16,
                forall|j: int|
                    0 <= j < i ==> segs@[j] == ((bytes@[2 * j] as u16) | ((bytes@[2 * j
                        + 1] as u16) << 8)) as u16,
            decreases 8 - i,
        {
            segs[i] = (bytes[2 * i] as u16) | ((bytes[2 * i + 1] as u16) << 8);
            i += 1;
        }
        let r = Ipv6Addr(segs);
        proof {
            assert forall|j: int| 0 <= j < 8 implies u16_le_bytes(segs@[j]) == seq![
                bytes@[2 * j],
                bytes@[2 * j + 1],
            ] by {
                lemma_u16_le_reencode(bytes@[2 * j], bytes@[2 * j + 1]);
                assert(u16_le_bytes(segs@[j]) =~= seq![bytes@[2 * j], bytes@[2 * j + 1]]);
            }
            assert(r@ =~= bytes@.take(16));
        }
        Some(r)
    }
}

/// An IP address of either version.
#[derive(Clone, Copy, PartialEq, Eq, Debug)]
pub enum IpAddr {
    /// An IPv4 address.
    V4(Ipv4Addr),
    /// An IPv6 address.
    V6(Ipv6Addr),
}

impl View for IpAddr {
    type V = Seq<u8>;

    /// The raw octets of the address: 4 bytes for IPv4, 16 for IPv6.
    open spec fn view(&self) -> Seq<u8> {
        match self {
            IpAddr::V4(a) => a@,
            IpAddr::V6(a) => a@,
        }
    }
}

impl ToBytes for IpAddr {
    open spec fn to_bytes_spec(&self) -> Seq<u8> {
        self@
    }

    fn to_bytes(&self) -> (r: Vec<u8>) {
        let mut r: Vec<u8> = Vec::new();
        match self {
            IpAddr::V4(a) => {
                r.push(a.0[0]);
                r.push(a.0[1]);
                r.push(a.0[2]);
                r.push(a.0[3]);
                proof {
                    assert(r@ =~= self@);
                }
            },
            IpAddr::V6(a) => {
                let mut i: usize = 0;
                while i < 8
                    invariant
                        i <= 8,
                        r@.len() == 2 * i,
                        forall|j: int|
                            0 <= j < i ==> r@[2 * j] == (a.0@[j] & 0xff) as u8 && r@[2 * j + 1] == (
                            (a.0@[j] >> 8) & 0xff) as u8,
                    decreases 8 - i,
                {
                    r.push((a.0[i] & 0xff) as u8);
                    r.push(((a.0[i] >> 8) & 0xff) as u8);
                    i += 1;
                }
                proof {
                    assert(r@ =~= self@);
                }
            },
        }
        r
    }
}

/// A socket address: an IP address and a port.
#[derive(Clone, Copy, PartialEq, Eq, Debug)]
pub struct SocketAddr {
    /// The IP address.
    pub ip: IpAddr,
    /// The port, carried big-endian on the wire.
    pub port: u16,
}

impl SocketAddr {
    /// Pair an address with a port.
    pub fn new(ip: IpAddr, port: u16) -> (r: SocketAddr)
        ensures
            r.ip == ip,
            r.port == port,
    {
        SocketAddr { ip, port }
    }
}

/// The mathematical content of a `PackedNode`: transport tag, address
/// octets, port, and identity key bytes.
#[verifier::ext_equal]
pub struct PackedNodeV {
    /// The transport tag.
    pub ip_type: IpType,
    /// The raw address octets, 4 or 16 bytes.
    pub addr: Seq<u8>,
    /// The port.
    pub port: u16,
    /// The 32 identity key bytes.
    pub pk: Seq<u8>,
}

/// How many address octets a transport tag implies: 4 for IPv4, 16 for IPv6.
pub open spec fn addr_len(t: IpType) -> int {
    match t {
        IpType::U4 | IpType::T4 => 4,
        IpType::U6 | IpType::T6 => 16,
    }
}

/// The serialized size a transport tag implies: tag, address, port, key.
pub open spec fn packed_node_size(t: IpType) -> int {
    1 + addr_len(t) + 2 + 32
}

impl PackedNodeV {
    /// Well-formedness: the address length matches the transport tag and the
    /// key is 32 bytes.
    pub open spec fn wf(self) -> bool {
        self.addr.len() == addr_len(self.ip_type) && self.pk.len() == 32
    }
}

/// The wire layout of a contact: tag byte, address octets, big-endian port,
/// 32 key bytes.
pub open spec fn packed_node_bytes(n: PackedNodeV) -> Seq<u8> {
    seq![ip_type_byte(n.ip_type)] + n.addr + u16_be_bytes(n.port) + n.pk
}

/// What decoding a contact yields on any byte sequence: the first byte must
/// be a known transport tag, the buffer must hold the full implied size, and
/// trailing bytes are ignored.
pub open spec fn packed_node_from_bytes_spec(b: Seq<u8>) -> Option<PackedNodeV> {
    if b.len() < 1 {
        None
    } else {
        match ip_type_from_byte(b[0]) {
            None => None,
            Some(t) => {
                let alen = addr_len(t);
                if b.len() < packed_node_size(t) {
                    None
                } else {
                    Some(
                        PackedNodeV {
                            ip_type: t,
                            addr: b.subrange(1, 1 + alen),
                            port: u16_from_be(b.subrange(1 + alen, 3 + alen)),
                            pk: b.subrange(3 + alen, 35 + alen),
                        },
                    )
                }
            },
        }
    }
}

/// A contact descriptor: the atomic unit exchanged in routing responses.
#[derive(Clone, Copy, PartialEq, Eq, Debug)]
pub struct PackedNode {
    /// The transport tag, chosen from transport protocol and IP version.
    pub ip_type: IpType,
    /// The socket address of the contact.
    pub saddr: SocketAddr,
    /// The identity key of the contact.
    pub pk: PublicKey,
}

impl View for PackedNode {
    type V = PackedNodeV;

    open spec fn view(&self) -> PackedNodeV {
        PackedNodeV { ip_type: self.ip_type, addr: self.saddr.ip@, port: self.saddr.port, pk: self.pk@ }
    }
}

/// The transport tag implied by a transport protocol and an address version.
pub open spec fn ip_type_of(udp: bool, ip: IpAddr) -> IpType {
    match ip {
        IpAddr::V4(_) => if udp {
            IpType::U4
        } else {
            IpType::T4
        },
        IpAddr::V6(_) => if udp {
            IpType::U6
        } else {
            IpType::T6
        },
    }
}

impl PackedNode {
    /// Describe a contact: the tag byte is selected from the transport
    /// protocol and the IP version of the address.
    pub fn new(udp: bool, saddr: SocketAddr, pk: &PublicKey) -> (r: PackedNode)
        ensures
            r == (PackedNode { ip_type: ip_type_of(udp, saddr.ip), saddr, pk: *pk }),
            r@.wf(),
    {
        let ip_type = match saddr.ip {
            IpAddr::V4(_) => if udp {
                IpType::U4
            } else {
                IpType::T4
            },
            IpAddr::V6(_) => if udp {
                IpType::U6
            } else {
                IpType::T6
            },
        };
        PackedNode { ip_type, saddr, pk: *pk }
    }

    /// The IP address of the contact.
    pub fn ip(&self) -> (r: IpAddr)
        ensures
            r == self.saddr.ip,
    {
        self.saddr.ip
    }
}

/// Append every byte of a slice to a vector.
fn extend_from_slice(v: &mut Vec<u8>, s: &[u8])
    ensures
        final(v)@ == old(v)@ + s@,
{
    let mut i: usize = 0;
    while i < s.len()
        invariant
            i <= s@.len(),
            v@ == old(v)@ + s@.take(i as int),
        decreases s@.len() - i,
    {
        proof {
            assert(old(v)@ + s@.take(i as int) + seq![s@[i as int]] =~= old(v)@ + s@.take(
                i as int + 1,
            ));
        }
        v.push(s[i]);
        i += 1;
    }
    proof {
        assert(old(v)@ + s@.take(s@.len() as int) =~= old(v)@ + s@);
    }
}

/// Copy `N` bytes out of a slice, starting at `pos`.
fn read_array<const N: usize>(bytes: &[u8], pos: usize) -> (r: [u8; N])
    requires
        pos + N <= bytes@.len(),
    ensures
        r@ == bytes@.subrange(pos as int, pos + N),
{
    let mut r: [u8; N] = [0; N];
    let len = bytes.len();
    let mut i: usize = 0;
    while i < N
        invariant
            i <= N,
            pos + N <= len,
            len == bytes@.len(),
            forall|j: int| 0 <= j < i ==> r@[j] == bytes@[pos + j],
        decreases N - i,
    {
        r[i] = bytes[pos + i];
        i += 1;
    }
    proof {
        assert(r@ =~= bytes@.subrange(pos as int, pos + N));
    }
    r
}

impl ToBytes for PackedNode {
    open spec fn to_bytes_spec(&self) -> Seq<u8> {
        packed_node_bytes(self@)
    }

    fn to_bytes(&self) -> (r: Vec<u8>) {
        let mut r: Vec<u8> = Vec::new();
        r.push(self.ip_type.byte());
        let mut ab = self.saddr.ip.to_bytes();
        r.append(&mut ab);
        r.push((self.saddr.port >> 8) as u8);
        r.push((self.saddr.port & 0xff) as u8);
        let ghost prefix = seq![ip_type_byte(self.ip_type)] + self.saddr.ip@ + u16_be_bytes(
            self.saddr.port,
        );
        proof {
            assert(r@ =~= prefix);
        }
        let mut i: usize = 0;
        while i < 32
            invariant
                i <= 32,
                r@ == prefix + self.pk.0@.take(i as int),
            decreases 32 - i,
        {
            proof {
                assert(prefix + self.pk.0@.take(i as int) + seq![self.pk.0@[i as int]] =~= prefix
                    + self.pk.0@.take(i as int + 1));
            }
            r.push(self.pk.0[i]);
            i += 1;
        }
        proof {
            assert(self.pk.0@.take(32) =~= self.pk.0@);
            assert(r@ =~= packed_node_bytes(self@));
        }
        r
    }
}

impl FromBytes<PackedNode> for PackedNode {
    open spec fn from_bytes_spec(bytes: Seq<u8>) -> Option<PackedNodeV> {
        packed_node_from_bytes_spec(bytes)
    }

    /// Decode a contact. The tag byte picks the address length; a short
    /// buffer fails, a long one succeeds ignoring the remainder.
    fn from_bytes(bytes: &[u8]) -> (r: Option<PackedNode>)
        ensures
            r matches Some(v) ==> v@.wf(),
    {
        if bytes.len() < 1 {
            return None;
        }
        let t = match IpType::from_bytes(bytes) {
            Some(t) => t,
            None => {
                return None;
            },
        };
        if t.is_ipv4() {
            if bytes.len() < PACKED_NODE_IPV4_SIZE {
                return None;
            }
            let a: [u8; 4] = read_array::<4>(bytes, 1);
            let port = ((bytes[5] as u16) << 8) | (bytes[6] as u16);
            let k: [u8; 32] = read_array::<32>(bytes, 7);
            let node = PackedNode {
                ip_type: t,
                saddr: SocketAddr { ip: IpAddr::V4(Ipv4Addr(a)), port },
                pk: PublicKey(k),
            };
            proof {
                assert(bytes@.subrange(5, 7)[0] == bytes@[5] && bytes@.subrange(5, 7)[1]
                    == bytes@[6]);
            }
            Some(node)
        } else {
            if bytes.len() < PACKED_NODE_IPV6_SIZE {
                return None;
            }
            let mut segs: [u16; 8] = [0; 8];
            let mut i: usize = 0;
            while i < 8
                invariant
                    i <= 8,
                    bytes@.len() >= 51,
                    forall|j: int|
                        0 <= j < i ==> segs@[j] == ((bytes@[1 + 2 * j] as u16) | ((bytes@[2 + 2
                            * j] as u16) << 8)) as u16,
                decreases 8 - i,
            {
                segs[i] = (bytes[1 + 2 * i] as u16) | ((bytes[2 + 2 * i] as u16) << 8);
                i += 1;
            }
            let ip6 = Ipv6Addr(segs);
            let port = ((bytes[17] as u16) << 8) | (bytes[18] as u16);
            let k: [u8; 32] = read_array::<32>(bytes, 19);
            let node = PackedNode {
                ip_type: t,
                saddr: SocketAddr { ip: IpAddr::V6(ip6), port },
                pk: PublicKey(k),
            };
            proof {
                assert forall|j: int| 0 <= j < 8 implies u16_le_bytes(segs@[j]) == seq![
                    bytes@[1 + 2 * j],
                    bytes@[2 + 2 * j],
                ] by {
                    lemma_u16_le_reencode(bytes@[1 + 2 * j], bytes@[2 + 2 * j]);
                    assert(u16_le_bytes(segs@[j]) =~= seq![bytes@[1 + 2 * j], bytes@[2 + 2 * j]]);
                }
                assert(ip6@ =~= bytes@.subrange(1, 17));
                assert(bytes@.subrange(17, 19)[0] == bytes@[17] && bytes@.subrange(17, 19)[1]
                    == bytes@[18]);
            }
            Some(node)
        }
    }
}

/// The views of a sequence of contacts.
pub open spec fn nodes_views(s: Seq<PackedNode>) -> Seq<PackedNodeV> {
    s.map_values(|n: PackedNode| n@)
}

/// What parsing a whole buffer as consecutive contacts yields: all records
/// in order, or nothing if any record fails. The empty remainder parses to
/// the empty sequence.
pub open spec fn packed_nodes_parse_all(b: Seq<u8>) -> Option<Seq<PackedNodeV>>
    decreases b.len(),
{
    if b.len() == 0 {
        Some(Seq::empty())
    } else {
        match packed_node_from_bytes_spec(b) {
            None => None,
            Some(n) => {
                if b.len() < packed_node_size(n.ip_type) {
                    None
                } else {
                    match packed_nodes_parse_all(b.skip(packed_node_size(n.ip_type))) {
                        None => None,
                        Some(rest) => Some(seq![n] + rest),
                    }
                }
            },
        }
    }
}

impl PackedNode {
    /// Decode contacts from the buffer until it is exhausted: the full
    /// ordered sequence, or nothing if the input is empty or any record
    /// fails.
    pub fn from_bytes_multiple(bytes: &[u8]) -> (r: Option<Vec<PackedNode>>)
        ensures
            match r {
                Some(v) => bytes@.len() > 0 && packed_nodes_parse_all(bytes@) == Some(
                    nodes_views(v@),
                ) && forall|i: int| 0 <= i < v@.len() ==> (#[trigger] v@[i])@.wf(),
                None => bytes@.len() == 0 || packed_nodes_parse_all(bytes@) is None,
            },
    {
        if bytes.len() == 0 {
            return None;
        }
        let mut result: Vec<PackedNode> = Vec::new();
        let mut pos: usize = 0;
        proof {
            assert(bytes@.skip(0) =~= bytes@);
            if let Some(rest) = packed_nodes_parse_all(bytes@) {
                assert(nodes_views(result@) + rest =~= rest);
            }
        }
        while pos < bytes.len()
            invariant
                pos <= bytes@.len(),
                match packed_nodes_parse_all(bytes@.skip(pos as int)) {
                    Some(rest) => packed_nodes_parse_all(bytes@) == Some(
                        nodes_views(result@) + rest,
                    ),
                    None => packed_nodes_parse_all(bytes@) is None,
                },
                forall|i: int| 0 <= i < result@.len() ==> (#[trigger] result@[i])@.wf(),
            decreases bytes@.len() - pos,
        {
            let tail = slice_subrange(bytes, pos, bytes.len());
            proof {
                assert(tail@ =~= bytes@.skip(pos as int));
            }
            match PackedNode::from_bytes(tail) {
                None => {
                    return None;
                },
                Some(node) => {
                    let sz: usize = if node.ip_type.is_ipv4() {
                        PACKED_NODE_IPV4_SIZE
                    } else {
                        PACKED_NODE_IPV6_SIZE
                    };
                    let ghost old_result = result@;
                    let ghost old_pos = pos as int;
                    result.push(node);
                    pos += sz;
                    proof {
                        assert(nodes_views(result@) =~= nodes_views(old_result) + seq![node@]);
                        assert(bytes@.skip(old_pos).skip(packed_node_size(node@.ip_type)) =~= bytes@.skip(
                            pos as int,
                        ));
                        if let Some(rest) = packed_nodes_parse_all(bytes@.skip(pos as int)) {
                            assert(packed_nodes_parse_all(bytes@.skip(old_pos)) == Some(
                                seq![node@] + rest,
                            ));
                            assert(nodes_views(old_result) + (seq![node@] + rest) =~= nodes_views(
                                result@,
                            ) + rest);
                        }
                    }
                },
            }
        }
        proof {
            assert(bytes@.skip(pos as int) =~= Seq::<u8>::empty());
            assert(nodes_views(result@) + Seq::<PackedNodeV>::empty() =~= nodes_views(result@));
        }
        Some(result)
    }
}

/// Append the eight little-endian bytes of a `u64` to a vector.
fn push_u64_le(v: &mut Vec<u8>, n: u64)
    ensures
        final(v)@ == old(v)@ + u64_le_bytes(n),
{
    let a = u64_to_array(n);
    extend_from_slice(v, array_as_slice(&a));
}

/// Read a little-endian `u64` out of a slice, starting at `pos`.
fn read_u64_le(bytes: &[u8], pos: usize) -> (r: u64)
    requires
        pos + 8 <= bytes@.len(),
    ensures
        r == u64_from_le(bytes@.skip(pos as int)),
{
    let a: [u8; 8] = read_array::<8>(bytes, pos);
    let r = array_to_u64(&a);
    proof {
        assert(forall|j: int| 0 <= j < 8 ==> a@[j] == bytes@.skip(pos as int)[j]);
    }
    r
}

/// Number of bytes in a serialized `Ping`.
pub const PING_SIZE: usize = 9;

/// Whether a ping is a request or the response to one.
///
/// Wire codes: a request is 0, a response is 1.
#[derive(Clone, Copy, PartialEq, Eq, Debug)]
pub enum PingType {
    /// A ping request, wire code 0.
    Req,
    /// A ping response, wire code 1.
    Resp,
}

/// The wire code of a ping type.
pub open spec fn ping_type_byte(t: PingType) -> u8 {
    match t {
        PingType::Req => 0,
        PingType::Resp => 1,
    }
}

impl View for PingType {
    type V = PingType;

    open spec fn view(&self) -> PingType {
        *self
    }
}

impl FromBytes<PingType> for PingType {
    open spec fn from_bytes_spec(bytes: Seq<u8>) -> Option<PingType> {
        if bytes.len() == 0 {
            None
        } else if bytes[0] == 0 {
            Some(PingType::Req)
        } else if bytes[0] == 1 {
            Some(PingType::Resp)
        } else {
            None
        }
    }

    fn from_bytes(bytes: &[u8]) -> (r: Option<PingType>) {
        if bytes.len() == 0 {
            return None;
        }
        match bytes[0] {
            0 => Some(PingType::Req),
            1 => Some(PingType::Resp),
            _ => None,
        }
    }
}

/// A ping packet: a request or response flag and a 64-bit id.
///
/// The id correlates a response with its request; it is preserved unchanged
/// between the two.
#[derive(Clone, Copy, PartialEq, Eq, Debug)]
pub struct Ping {
    /// Request or response.
    pub p_type: PingType,
    /// The ping id.
    pub id: u64,
}

impl View for Ping {
    type V = Ping;

    open spec fn view(&self) -> Ping {
        *self
    }
}

/// The wire layout of a ping: flag byte, then the id in little-endian.
pub open spec fn ping_bytes(p: Ping) -> Seq<u8> {
    seq![ping_type_byte(p.p_type)] + u64_le_bytes(p.id)
}

/// What decoding a ping yields: at least 9 bytes, a flag of 0 or 1, and the
/// id; trailing bytes are ignored.
pub open spec fn ping_from_bytes_spec(b: Seq<u8>) -> Option<Ping> {
    if b.len() < 9 {
        None
    } else if b[0] == 0 {
        Some(Ping { p_type: PingType::Req, id: u64_from_le(b.skip(1)) })
    } else if b[0] == 1 {
        Some(Ping { p_type: PingType::Resp, id: u64_from_le(b.skip(1)) })
    } else {
        None
    }
}

impl Ping {
    /// Create a new ping request with a fresh random id.
    pub fn new() -> (r: Ping)
        ensures
            r.p_type == PingType::Req,
    {
        Ping { p_type: PingType::Req, id: random_u64() }
    }

    /// Whether this ping is a request.
    pub fn is_request(&self) -> (r: bool)
        ensures
            r == (self.p_type == PingType::Req),
    {
        match self.p_type {
            PingType::Req => true,
            PingType::Resp => false,
        }
    }

    /// The response to a ping request: the same id, with the flag flipped to
    /// response. Deriving a response from a response fails.
    pub fn response(&self) -> (r: Option<Ping>)
        ensures
            match self.p_type {
                PingType::Req => r == Some(Ping { p_type: PingType::Resp, id: self.id }),
                PingType::Resp => r is None,
            },
    {
        match self.p_type {
            PingType::Req => Some(Ping { p_type: PingType::Resp, id: self.id }),
            PingType::Resp => None,
        }
    }
}

impl ToBytes for Ping {
    open spec fn to_bytes_spec(&self) -> Seq<u8> {
        ping_bytes(*self)
    }

    fn to_bytes(&self) -> (r: Vec<u8>) {
        let mut r: Vec<u8> = Vec::new();
        r.push(match self.p_type {
            PingType::Req => 0,
            PingType::Resp => 1,
        });
        push_u64_le(&mut r, self.id);
        proof {
            assert(r@ =~= ping_bytes(*self));
        }
        r
    }
}

impl FromBytes<Ping> for Ping {
    open spec fn from_bytes_spec(bytes: Seq<u8>) -> Option<Ping> {
        ping_from_bytes_spec(bytes)
    }

    fn from_bytes(bytes: &[u8]) -> (r: Option<Ping>) {
        if bytes.len() < PING_SIZE {
            return None;
        }
        let p_type = match bytes[0] {
            0 => PingType::Req,
            1 => PingType::Resp,
            _ => {
                return None;
            },
        };
        let id = read_u64_le(bytes, 1);
        Some(Ping { p_type, id })
    }
}

/// Number of bytes in a serialized `GetNodes`.
pub const GET_NODES_SIZE: usize = 40;

/// A query for the nodes closest to the requester's key.
#[derive(Clone, Copy, PartialEq, Eq, Debug)]
pub struct GetNodes {
    /// The requester's identity key.
    pub pk: PublicKey,
    /// The request id, echoed by the matching `SendNodes`.
    pub id: u64,
}

/// The mathematical content of a `GetNodes`.
#[verifier::ext_equal]
pub struct GetNodesV {
    /// The 32 identity key bytes.
    pub pk: Seq<u8>,
    /// The request id.
    pub id: u64,
}

impl View for GetNodes {
    type V = GetNodesV;

    open spec fn view(&self) -> GetNodesV {
        GetNodesV { pk: self.pk@, id: self.id }
    }
}

/// The wire layout of a `GetNodes`: 32 key bytes, then the id in
/// little-endian.
pub open spec fn get_nodes_bytes(g: GetNodesV) -> Seq<u8> {
    g.pk + u64_le_bytes(g.id)
}

/// What decoding a `GetNodes` yields: at least 40 bytes; trailing bytes are
/// ignored.
pub open spec fn get_nodes_from_bytes_spec(b: Seq<u8>) -> Option<GetNodesV> {
    if b.len() < 40 {
        None
    } else {
        Some(GetNodesV { pk: b.take(32), id: u64_from_le(b.skip(32)) })
    }
}

impl GetNodes {
    /// Create a query for nodes close to `pk`, with a fresh random id.
    pub fn new(pk: &PublicKey) -> (r: GetNodes)
        ensures
            r.pk == *pk,
    {
        GetNodes { pk: *pk, id: random_u64() }
    }
}

impl ToBytes for GetNodes {
    open spec fn to_bytes_spec(&self) -> Seq<u8> {
        get_nodes_bytes(self@)
    }

    fn to_bytes(&self) -> (r: Vec<u8>) {
        let mut r: Vec<u8> = Vec::new();
        extend_from_slice(&mut r, array_as_slice(&self.pk.0));
        push_u64_le(&mut r, self.id);
        proof {
            assert(Seq::<u8>::empty() + self.pk.0@ =~= self.pk.0@);
        }
        r
    }
}

impl FromBytes<GetNodes> for GetNodes {
    open spec fn from_bytes_spec(bytes: Seq<u8>) -> Option<GetNodesV> {
        get_nodes_from_bytes_spec(bytes)
    }

    fn from_bytes(bytes: &[u8]) -> (r: Option<GetNodes>) {
        if bytes.len() < GET_NODES_SIZE {
            return None;
        }
        let pk = PublicKey(read_array::<32>(bytes, 0));
        let id = read_u64_le(bytes, 32);
        proof {
            assert(bytes@.subrange(0, 32) =~= bytes@.take(32));
        }
        Some(GetNodes { pk, id })
    }
}

/// The routing response: one to four contacts, echoing the query's id.
#[derive(Clone, PartialEq, Eq, Debug)]
pub struct SendNodes {
    /// The contacts, between 1 and 4 of them.
    pub nodes: Vec<PackedNode>,
    /// The id of the `GetNodes` this responds to.
    pub id: u64,
}

/// The mathematical content of a `SendNodes`.
#[verifier::ext_equal]
pub struct SendNodesV {
    /// The contacts.
    pub nodes: Seq<PackedNodeV>,
    /// The echoed request id.
    pub id: u64,
}

impl SendNodesV {
    /// Well-formedness: between 1 and 4 contacts, each of them well-formed.
    pub open spec fn wf(self) -> bool {
        1 <= self.nodes.len() <= 4 && forall|i: int|
            0 <= i < self.nodes.len() ==> (#[trigger] self.nodes[i]).wf()
    }
}

impl View for SendNodes {
    type V = SendNodesV;

    open spec fn view(&self) -> SendNodesV {
        SendNodesV { nodes: nodes_views(self.nodes@), id: self.id }
    }
}

/// The concatenated wire records of a sequence of contacts.
pub open spec fn nodes_bytes(ns: Seq<PackedNodeV>) -> Seq<u8>
    decreases ns.len(),
{
    if ns.len() == 0 {
        Seq::empty()
    } else {
        packed_node_bytes(ns[0]) + nodes_bytes(ns.drop_first())
    }
}

/// Appending one contact appends its record.
pub proof fn lemma_nodes_bytes_snoc(ns: Seq<PackedNodeV>, n: PackedNodeV)
    ensures
        nodes_bytes(ns.push(n)) == nodes_bytes(ns) + packed_node_bytes(n),
    decreases ns.len(),
{
    if ns.len() == 0 {
        assert(ns.push(n)[0] == n);
        assert(ns.push(n).drop_first() =~= Seq::<PackedNodeV>::empty());
        assert(nodes_bytes(Seq::<PackedNodeV>::empty()) == Seq::<u8>::empty());
        assert(nodes_bytes(ns.push(n)) =~= nodes_bytes(ns) + packed_node_bytes(n));
    } else {
        assert(ns.push(n).drop_first() =~= ns.drop_first().push(n));
        lemma_nodes_bytes_snoc(ns.drop_first(), n);
        assert(ns.push(n)[0] == ns[0]);
        assert(packed_node_bytes(ns[0]) + (nodes_bytes(ns.drop_first()) + packed_node_bytes(n))
            =~= (packed_node_bytes(ns[0]) + nodes_bytes(ns.drop_first())) + packed_node_bytes(n));
    }
}

/// The wire layout of a `SendNodes`: count byte, the contacts' records in
/// order, then the id in little-endian.
pub open spec fn send_nodes_bytes(s: SendNodesV) -> Seq<u8> {
    seq![s.nodes.len() as u8] + nodes_bytes(s.nodes) + u64_le_bytes(s.id)
}

/// Parse exactly `n` consecutive contact records, returning them and the
/// unconsumed remainder.
pub open spec fn parse_n_nodes(b: Seq<u8>, n: nat) -> Option<(Seq<PackedNodeV>, Seq<u8>)>
    decreases n,
{
    if n == 0 {
        Some((Seq::empty(), b))
    } else {
        match packed_node_from_bytes_spec(b) {
            None => None,
            Some(node) => {
                match parse_n_nodes(b.skip(packed_node_size(node.ip_type)), (n - 1) as nat) {
                    None => None,
                    Some((rest, tail)) => Some((seq![node] + rest, tail)),
                }
            },
        }
    }
}

/// What decoding a `SendNodes` yields: the count byte must be 1 to 4, that
/// many contact records must parse, and at least 8 bytes of id must remain;
/// trailing bytes are ignored.
pub open spec fn send_nodes_from_bytes_spec(b: Seq<u8>) -> Option<SendNodesV> {
    if b.len() < 1 {
        None
    } else if b[0] == 0 || b[0] > 4 {
        None
    } else {
        match parse_n_nodes(b.skip(1), b[0] as nat) {
            None => None,
            Some((nodes, tail)) => {
                if tail.len() < 8 {
                    None
                } else {
                    Some(SendNodesV { nodes, id: u64_from_le(tail) })
                }
            },
        }
    }
}

impl SendNodes {
    /// Respond to a `GetNodes`: copies the request's id. Fails unless there
    /// are 1 to 4 contacts; the contacts' order and content are kept
    /// exactly.
    pub fn from_request(request: &GetNodes, nodes: Vec<PackedNode>) -> (r: Option<SendNodes>)
        ensures
            match r {
                Some(s) => 1 <= nodes@.len() <= 4 && s.nodes@ == nodes@ && s.id == request.id,
                None => nodes@.len() == 0 || nodes@.len() > 4,
            },
    {
        if nodes.len() == 0 || nodes.len() > 4 {
            return None;
        }
        Some(SendNodes { nodes, id: request.id })
    }
}

impl ToBytes for SendNodes {
    open spec fn to_bytes_spec(&self) -> Seq<u8> {
        send_nodes_bytes(self@)
    }

    fn to_bytes(&self) -> (r: Vec<u8>) {
        let mut r: Vec<u8> = Vec::new();
        r.push(self.nodes.len() as u8);
        proof {
            assert(r@ =~= seq![self@.nodes.len() as u8]);
        }
        let ghost head = seq![self@.nodes.len() as u8];
        let mut i: usize = 0;
        while i < self.nodes.len()
            invariant
                i <= self.nodes@.len(),
                r@ == head + nodes_bytes(nodes_views(self.nodes@).take(i as int)),
            decreases self.nodes@.len() - i,
        {
            let mut nb = self.nodes[i].to_bytes();
            proof {
                let views = nodes_views(self.nodes@);
                assert(views.take(i as int).push(views[i as int]) =~= views.take(i as int + 1));
                lemma_nodes_bytes_snoc(views.take(i as int), views[i as int]);
                assert(head + nodes_bytes(views.take(i as int)) + packed_node_bytes(
                    views[i as int],
                ) =~= head + (nodes_bytes(views.take(i as int)) + packed_node_bytes(
                    views[i as int],
                )));
            }
            r.append(&mut nb);
            i += 1;
        }
        proof {
            let views = nodes_views(self.nodes@);
            assert(views.take(views.len() as int) =~= views);
        }
        push_u64_le(&mut r, self.id);
        proof {
            assert(head + nodes_bytes(nodes_views(self.nodes@)) + u64_le_bytes(self.id)
                =~= send_nodes_bytes(self@));
        }
        r
    }
}

impl FromBytes<SendNodes> for SendNodes {
    open spec fn from_bytes_spec(bytes: Seq<u8>) -> Option<SendNodesV> {
        send_nodes_from_bytes_spec(bytes)
    }

    fn from_bytes(bytes: &[u8]) -> (r: Option<SendNodes>)
        ensures
            r matches Some(v) ==> v@.wf(),
    {
        if bytes.len() < 1 {
            return None;
        }
        let count = bytes[0];
        if count == 0 || count > 4 {
            return None;
        }
        let mut nodes: Vec<PackedNode> = Vec::new();
        let mut pos: usize = 1;
        let mut c: usize = 0;
        proof {
            if let Some((rest, tail)) = parse_n_nodes(bytes@.skip(1), count as nat) {
                assert(nodes_views(nodes@) + rest =~= rest);
            }
        }
        while c < count as usize
            invariant
                c <= count as usize,
                count == bytes@[0],
                1 <= count <= 4,
                1 <= pos <= bytes@.len(),
                nodes@.len() == c,
                forall|i: int| 0 <= i < nodes@.len() ==> (#[trigger] nodes@[i])@.wf(),
                match parse_n_nodes(bytes@.skip(pos as int), (count - c) as nat) {
                    Some((rest, tail)) => parse_n_nodes(bytes@.skip(1), count as nat) == Some(
                        (nodes_views(nodes@) + rest, tail),
                    ),
                    None => parse_n_nodes(bytes@.skip(1), count as nat) is None,
                },
            decreases count as usize - c,
        {
            let tail = slice_subrange(bytes, pos, bytes.len());
            proof {
                assert(tail@ =~= bytes@.skip(pos as int));
            }
            match PackedNode::from_bytes(tail) {
                None => {
                    proof {
                        assert(parse_n_nodes(bytes@.skip(pos as int), (count - c) as nat) is None);
                    }
                    return None;
                },
                Some(node) => {
                    let sz: usize = if node.ip_type.is_ipv4() {
                        PACKED_NODE_IPV4_SIZE
                    } else {
                        PACKED_NODE_IPV6_SIZE
                    };
                    let ghost old_nodes = nodes@;
                    let ghost old_pos = pos as int;
                    nodes.push(node);
                    pos += sz;
                    c += 1;
                    proof {
                        assert(nodes_views(nodes@) =~= nodes_views(old_nodes) + seq![node@]);
                        assert(bytes@.skip(old_pos).skip(packed_node_size(node@.ip_type))
                            =~= bytes@.skip(pos as int));
                        if let Some((rest, tail2)) = parse_n_nodes(
                            bytes@.skip(pos as int),
                            (count - c) as nat,
                        ) {
                            assert(parse_n_nodes(bytes@.skip(old_pos), (count - c + 1) as nat)
                                == Some((seq![node@] + rest, tail2)));
                            assert(nodes_views(old_nodes) + (seq![node@] + rest) =~= nodes_views(
                                nodes@,
                            ) + rest);
                        }
                    }
                },
            }
        }
        if bytes.len() - pos < 8 {
            return None;
        }
        let id = read_u64_le(bytes, pos);
        Some(SendNodes { nodes, id })
    }
}

/// The tag byte of every packet in the protocol's closed packet space.
///
/// Only the first four are produced and consumed by this core; the rest are
/// recognized for dispatch and validation but handled elsewhere.
#[derive(Clone, Copy, PartialEq, Eq, Debug)]
pub enum PacketKind {
    /// Ping request, wire code 0x00.
    PingReq,
    /// Ping response, wire code 0x01.
    PingResp,
    /// Nodes query, wire code 0x02.
    GetN,
    /// Nodes response, wire code 0x04.
    SendN,
    /// Cookie request, wire code 0x18.
    CookieReq,
    /// Cookie response, wire code 0x19.
    CookieResp,
    /// Crypto handshake, wire code 0x1a.
    CryptoHs,
    /// Crypto data, wire code 0x1b.
    CryptoData,
    /// DHT request, wire code 0x20.
    DhtReq,
    /// LAN discovery, wire code 0x21.
    LanDisc,
    /// Onion request, layer 0, wire code 0x80.
    OnionReq0,
    /// Onion request, layer 1, wire code 0x81.
    OnionReq1,
    /// Onion request, layer 2, wire code 0x82.
    OnionReq2,
    /// Announce request, wire code 0x83.
    AnnReq,
    /// Announce response, wire code 0x84.
    AnnResp,
    /// Onion data request, wire code 0x85.
    OnionDataReq,
    /// Onion data response, wire code 0x86.
    OnionDataResp,
    /// Onion response, layer 3, wire code 0x8c.
    OnionResp3,
    /// Onion response, layer 2; written as 0x8d, read from 0x8d or 0x8e, as
    /// the deployed table has it.
    OnionResp2,
}

/// The wire code a packet kind is written as.
pub open spec fn packet_kind_byte(k: PacketKind) -> u8 {
    match k {
        PacketKind::PingReq => 0x00,
        PacketKind::PingResp => 0x01,
        PacketKind::GetN => 0x02,
        PacketKind::SendN => 0x04,
        PacketKind::CookieReq => 0x18,
        PacketKind::CookieResp => 0x19,
        PacketKind::CryptoHs => 0x1a,
        PacketKind::CryptoData => 0x1b,
        PacketKind::DhtReq => 0x20,
        PacketKind::LanDisc => 0x21,
        PacketKind::OnionReq0 => 0x80,
        PacketKind::OnionReq1 => 0x81,
        PacketKind::OnionReq2 => 0x82,
        PacketKind::AnnReq => 0x83,
        PacketKind::AnnResp => 0x84,
        PacketKind::OnionDataReq => 0x85,
        PacketKind::OnionDataResp => 0x86,
        PacketKind::OnionResp3 => 0x8c,
        PacketKind::OnionResp2 => 0x8d,
    }
}

/// The packet kind a byte decodes to, if any.
pub open spec fn packet_kind_from_byte(b: u8) -> Option<PacketKind> {
    if b == 0x00 {
        Some(PacketKind::PingReq)
    } else if b == 0x01 {
        Some(PacketKind::PingResp)
    } else if b == 0x02 {
        Some(PacketKind::GetN)
    } else if b == 0x04 {
        Some(PacketKind::SendN)
    } else if b == 0x18 {
        Some(PacketKind::CookieReq)
    } else if b == 0x19 {
        Some(PacketKind::CookieResp)
    } else if b == 0x1a {
        Some(PacketKind::CryptoHs)
    } else if b == 0x1b {
        Some(PacketKind::CryptoData)
    } else if b == 0x20 {
        Some(PacketKind::DhtReq)
    } else if b == 0x21 {
        Some(PacketKind::LanDisc)
    } else if b == 0x80 {
        Some(PacketKind::OnionReq0)
    } else if b == 0x81 {
        Some(PacketKind::OnionReq1)
    } else if b == 0x82 {
        Some(PacketKind::OnionReq2)
    } else if b == 0x83 {
        Some(PacketKind::AnnReq)
    } else if b == 0x84 {
        Some(PacketKind::AnnResp)
    } else if b == 0x85 {
        Some(PacketKind::OnionDataReq)
    } else if b == 0x86 {
        Some(PacketKind::OnionDataResp)
    } else if b == 0x8c {
        Some(PacketKind::OnionResp3)
    } else if b == 0x8d || b == 0x8e {
        Some(PacketKind::OnionResp2)
    } else {
        None
    }
}

impl View for PacketKind {
    type V = PacketKind;

    open spec fn view(&self) -> PacketKind {
        *self
    }
}

impl PacketKind {
    /// The wire code this kind is written as.
    pub fn byte(&self) -> (r: u8)
        ensures
            r == packet_kind_byte(*self),
    {
        match self {
            PacketKind::PingReq => 0x00,
            PacketKind::PingResp => 0x01,
            PacketKind::GetN => 0x02,
            PacketKind::SendN => 0x04,
            PacketKind::CookieReq => 0x18,
            PacketKind::CookieResp => 0x19,
            PacketKind::CryptoHs => 0x1a,
            PacketKind::CryptoData => 0x1b,
            PacketKind::DhtReq => 0x20,
            PacketKind::LanDisc => 0x21,
            PacketKind::OnionReq0 => 0x80,
            PacketKind::OnionReq1 => 0x81,
            PacketKind::OnionReq2 => 0x82,
            PacketKind::AnnReq => 0x83,
            PacketKind::AnnResp => 0x84,
            PacketKind::OnionDataReq => 0x85,
            PacketKind::OnionDataResp => 0x86,
            PacketKind::OnionResp3 => 0x8c,
            PacketKind::OnionResp2 => 0x8d,
        }
    }
}

impl FromBytes<PacketKind> for PacketKind {
    open spec fn from_bytes_spec(bytes: Seq<u8>) -> Option<PacketKind> {
        if bytes.len() == 0 {
            None
        } else {
            packet_kind_from_byte(bytes[0])
        }
    }

    /// Decode a packet kind from the first byte only.
    fn from_bytes(bytes: &[u8]) -> (r: Option<PacketKind>) {
        if bytes.len() == 0 {
            return None;
        }
        match bytes[0] {
            0x00 => Some(PacketKind::PingReq),
            0x01 => Some(PacketKind::PingResp),
            0x02 => Some(PacketKind::GetN),
            0x04 => Some(PacketKind::SendN),
            0x18 => Some(PacketKind::CookieReq),
            0x19 => Some(PacketKind::CookieResp),
            0x1a => Some(PacketKind::CryptoHs),
            0x1b => Some(PacketKind::CryptoData),
            0x20 => Some(PacketKind::DhtReq),
            0x21 => Some(PacketKind::LanDisc),
            0x80 => Some(PacketKind::OnionReq0),
            0x81 => Some(PacketKind::OnionReq1),
            0x82 => Some(PacketKind::OnionReq2),
            0x83 => Some(PacketKind::AnnReq),
            0x84 => Some(PacketKind::AnnResp),
            0x85 => Some(PacketKind::OnionDataReq),
            0x86 => Some(PacketKind::OnionDataResp),
            0x8c => Some(PacketKind::OnionResp3),
            0x8d => Some(PacketKind::OnionResp2),
            0x8e => Some(PacketKind::OnionResp2),
            _ => None,
        }
    }
}

/// The tagged union over the three control packets this core understands.
#[derive(Clone, PartialEq, Eq, Debug)]
pub enum DPacketT {
    /// A ping request or response.
    Ping(Ping),
    /// A nodes query.
    GetNodes(GetNodes),
    /// A nodes response.
    SendNodes(SendNodes),
}

/// The mathematical content of a `DPacketT`.
pub enum DPacketTV {
    /// A ping request or response.
    Ping(Ping),
    /// A nodes query.
    GetNodes(GetNodesV),
    /// A nodes response.
    SendNodes(SendNodesV),
}

impl View for DPacketT {
    type V = DPacketTV;

    open spec fn view(&self) -> DPacketTV {
        match self {
            DPacketT::Ping(p) => DPacketTV::Ping(*p),
            DPacketT::GetNodes(g) => DPacketTV::GetNodes(g@),
            DPacketT::SendNodes(s) => DPacketTV::SendNodes(s@),
        }
    }
}

/// The packet kind a control packet is dispatched under: ping requests and
/// responses map to different tags.
pub open spec fn dpacket_kind(p: DPacketTV) -> PacketKind {
    match p {
        DPacketTV::Ping(x) => if x.p_type == PingType::Req {
            PacketKind::PingReq
        } else {
            PacketKind::PingResp
        },
        DPacketTV::GetNodes(_) => PacketKind::GetN,
        DPacketTV::SendNodes(_) => PacketKind::SendN,
    }
}

/// The wire bytes of a control packet: the held variant's encoding, with no
/// union-level tag (the tag is added one level up, by the envelope).
pub open spec fn dpacket_bytes(p: DPacketTV) -> Seq<u8> {
    match p {
        DPacketTV::Ping(x) => ping_bytes(x),
        DPacketTV::GetNodes(g) => get_nodes_bytes(g),
        DPacketTV::SendNodes(s) => send_nodes_bytes(s),
    }
}

impl DPacketT {
    /// The packet kind this variant is dispatched under.
    pub fn kind(&self) -> (r: PacketKind)
        ensures
            r == dpacket_kind(self@),
    {
        match self {
            DPacketT::Ping(p) => if p.is_request() {
                PacketKind::PingReq
            } else {
                PacketKind::PingResp
            },
            DPacketT::GetNodes(_) => PacketKind::GetN,
            DPacketT::SendNodes(_) => PacketKind::SendN,
        }
    }

    /// The response to the held ping request, as a packet; nothing unless
    /// this holds a ping in request form.
    pub fn ping_resp(&self) -> (r: Option<DPacketT>)
        ensures
            match r {
                Some(d) => (self@ matches DPacketTV::Ping(p) && p.p_type == PingType::Req && d@
                    == DPacketTV::Ping(Ping { p_type: PingType::Resp, id: p.id })),
                None => !(self@ matches DPacketTV::Ping(p) && p.p_type == PingType::Req),
            },
    {
        match self {
            DPacketT::Ping(p) => match p.response() {
                Some(resp) => Some(DPacketT::Ping(resp)),
                None => None,
            },
            _ => None,
        }
    }
}

impl ToBytes for DPacketT {
    open spec fn to_bytes_spec(&self) -> Seq<u8> {
        dpacket_bytes(self@)
    }

    fn to_bytes(&self) -> (r: Vec<u8>) {
        match self {
            DPacketT::Ping(p) => p.to_bytes(),
            DPacketT::GetNodes(g) => g.to_bytes(),
            DPacketT::SendNodes(s) => s.to_bytes(),
        }
    }
}

impl Ping {
    /// This ping as a control packet.
    pub fn as_packet(self) -> (r: DPacketT)
        ensures
            r == DPacketT::Ping(self),
    {
        DPacketT::Ping(self)
    }
}

impl GetNodes {
    /// This query as a control packet.
    pub fn as_packet(self) -> (r: DPacketT)
        ensures
            r == DPacketT::GetNodes(self),
    {
        DPacketT::GetNodes(self)
    }
}

impl SendNodes {
    /// This response as a control packet.
    pub fn as_packet(self) -> (r: DPacketT)
        ensures
            r@ == DPacketTV::SendNodes(self@),
    {
        DPacketT::SendNodes(self)
    }
}

/// The mathematical content of an envelope.
#[verifier::ext_equal]
pub struct DhtPacketV {
    /// The tag byte of the payload's kind.
    pub kind: PacketKind,
    /// The sender's identity key bytes, carried in plaintext.
    pub sender_pk: Seq<u8>,
    /// The nonce bytes, carried in plaintext.
    pub nonce: Seq<u8>,
    /// The sealed payload.
    pub payload: Seq<u8>,
}

/// The authenticated, encrypted envelope around a control packet: plaintext
/// sender identity and nonce, then the ciphertext.
#[derive(Clone, PartialEq, Eq, Debug)]
pub struct DhtPacket {
    packet_type: PacketKind,
    /// The sender's identity key, carried in plaintext.
    pub sender_pk: PublicKey,
    nonce: Nonce,
    payload: Vec<u8>,
}

impl View for DhtPacket {
    type V = DhtPacketV;

    closed spec fn view(&self) -> DhtPacketV {
        DhtPacketV {
            kind: self.packet_type,
            sender_pk: self.sender_pk@,
            nonce: self.nonce@,
            payload: self.payload@,
        }
    }
}

/// The wire layout of an envelope: tag byte, 32 sender key bytes, 24 nonce
/// bytes, then the ciphertext.
pub open spec fn dht_packet_bytes(d: DhtPacketV) -> Seq<u8> {
    seq![packet_kind_byte(d.kind)] + d.sender_pk + d.nonce + d.payload
}

/// What decoding an envelope yields: the tag byte must be a known packet
/// kind and the buffer must hold the fixed-size key and nonce fields; all of
/// the remainder is the ciphertext. Nothing is decrypted here.
pub open spec fn dht_packet_from_bytes_spec(b: Seq<u8>) -> Option<DhtPacketV> {
    if b.len() < 1 {
        None
    } else {
        match packet_kind_from_byte(b[0]) {
            None => None,
            Some(k) => {
                if b.len() < 57 {
                    None
                } else {
                    Some(
                        DhtPacketV {
                            kind: k,
                            sender_pk: b.subrange(1, 33),
                            nonce: b.subrange(33, 57),
                            payload: b.skip(57),
                        },
                    )
                }
            },
        }
    }
}

/// What the sealed payload decodes to once opened, dispatched on the
/// envelope's kind tag.
pub open spec fn dht_payload_decode(kind: PacketKind, plain: Seq<u8>) -> Option<DPacketTV> {
    match kind {
        PacketKind::PingReq | PacketKind::PingResp => match ping_from_bytes_spec(plain) {
            Some(p) => Some(DPacketTV::Ping(p)),
            None => None,
        },
        PacketKind::GetN => match get_nodes_from_bytes_spec(plain) {
            Some(g) => Some(DPacketTV::GetNodes(g)),
            None => None,
        },
        PacketKind::SendN => match send_nodes_from_bytes_spec(plain) {
            Some(s) => Some(DPacketTV::SendNodes(s)),
            None => None,
        },
        _ => None,
    }
}

/// What extracting the payload of an envelope yields for the holder of
/// `sk`: open the ciphertext under the shared key of the plaintext sender
/// key and `sk`, then decode under the envelope's kind tag. Any
/// authentication failure yields nothing.
pub open spec fn get_packet_spec(d: DhtPacketV, sk: Seq<u8>) -> Option<DPacketTV> {
    match open_of(d.payload, d.nonce, shared_of(d.sender_pk, sk)) {
        None => None,
        Some(plain) => dht_payload_decode(d.kind, plain),
    }
}

impl DhtPacket {
    /// Seal a control packet: serialize it, encrypt under the precomputed
    /// key and the nonce, and record the payload's kind tag and the sender's
    /// identity.
    ///
    /// The last clause is the envelope round trip: when the sender's claimed
    /// key really belongs to the secret half of `prec`, the holder of the
    /// secret key matching `prec`'s public half extracts exactly the sealed
    /// packet.
    pub fn new(prec: &PrecomputedKey, pk: &PublicKey, nonce: &Nonce, payload: DPacketT) -> (r:
        DhtPacket)
        requires
            dpacket_bytes(payload@).len() + 16 <= usize::MAX,
        ensures
            r@.kind == dpacket_kind(payload@),
            r@.sender_pk == pk@,
            r@.nonce == nonce@,
            r@.payload == seal_of(dpacket_bytes(payload@), nonce@, prec@.key()),
            forall|sk2: Seq<u8>| prec@.pk == #[trigger] pk_of(sk2) ==> open_of(
                r@.payload,
                nonce@,
                shared_of(pk_of(prec@.sk), sk2),
            ) == Some(dpacket_bytes(payload@)),
            forall|sk2: Seq<u8>|
                (pk@ == pk_of(prec@.sk) && prec@.pk == #[trigger] pk_of(sk2)) ==> get_packet_spec(
                    r@,
                    sk2,
                ) == dht_payload_decode(dpacket_kind(payload@), dpacket_bytes(payload@)),
    {
        let packet_type = payload.kind();
        let plain = payload.to_bytes();
        let cipher = seal_precomputed(&plain, nonce, prec);
        let r = DhtPacket { packet_type, sender_pk: *pk, nonce: *nonce, payload: cipher };
        proof {
            assert forall|sk2: Seq<u8>|
                (pk@ == pk_of(prec@.sk) && prec@.pk == #[trigger] pk_of(sk2)) implies
                get_packet_spec(r@, sk2) == dht_payload_decode(
                    dpacket_kind(payload@),
                    dpacket_bytes(payload@),
                ) by {
                assert(shared_of(r@.sender_pk, sk2) == shared_of(pk_of(prec@.sk), sk2));
                assert(open_of(r@.payload, r@.nonce, shared_of(r@.sender_pk, sk2)) == Some(
                    dpacket_bytes(payload@),
                ));
            }
        }
        r
    }

    /// Decrypt the payload with the receiver's secret key and parse it as a
    /// control packet; any decryption failure yields nothing.
    pub fn get_packet(&self, own_secret_key: &SecretKey) -> (r: Option<DPacketT>)
        ensures
            match r {
                Some(p) => get_packet_spec(self@, own_secret_key@) == Some(p@),
                None => get_packet_spec(self@, own_secret_key@) is None,
            },
    {
        let key = precompute(&self.sender_pk, own_secret_key);
        let plain = match open_precomputed(&self.payload, &self.nonce, &key) {
            Some(p) => p,
            None => {
                return None;
            },
        };
        match self.packet_type {
            PacketKind::PingReq | PacketKind::PingResp => match Ping::from_bytes(
                plain.as_slice(),
            ) {
                Some(p) => Some(DPacketT::Ping(p)),
                None => None,
            },
            PacketKind::GetN => match GetNodes::from_bytes(plain.as_slice()) {
                Some(g) => Some(DPacketT::GetNodes(g)),
                None => None,
            },
            PacketKind::SendN => match SendNodes::from_bytes(plain.as_slice()) {
                Some(s) => Some(DPacketT::SendNodes(s)),
                None => None,
            },
            _ => None,
        }
    }

    /// Build and seal the response envelope to a held ping request: nothing
    /// unless the payload, once decrypted with `own_secret_key`, is a ping
    /// request. The response is sealed under `symmetric_key` with a fresh
    /// nonce and carries `own_public_key` as the sender.
    pub fn ping_resp(
        &self,
        own_secret_key: &SecretKey,
        symmetric_key: &PrecomputedKey,
        own_public_key: &PublicKey,
    ) -> (r: Option<DhtPacket>)
        ensures
            match r {
                Some(d) => (get_packet_spec(self@, own_secret_key@) matches Some(
                    DPacketTV::Ping(p),
                ) && p.p_type == PingType::Req && d@.kind == PacketKind::PingResp && d@.sender_pk
                    == own_public_key@ && d@.payload == seal_of(
                    ping_bytes(Ping { p_type: PingType::Resp, id: p.id }),
                    d@.nonce,
                    symmetric_key@.key(),
                )),
                None => !(get_packet_spec(self@, own_secret_key@) matches Some(
                    DPacketTV::Ping(p),
                ) && p.p_type == PingType::Req),
            },
    {
        let packet = match self.get_packet(own_secret_key) {
            Some(p) => p,
            None => {
                return None;
            },
        };
        let resp = match packet.ping_resp() {
            Some(p) => p,
            None => {
                return None;
            },
        };
        let nonce = gen_nonce();
        proof {
            assert(dpacket_bytes(resp@).len() == 9);
        }
        Some(DhtPacket::new(symmetric_key, own_public_key, &nonce, resp))
    }
}

impl ToBytes for DhtPacket {
    open spec fn to_bytes_spec(&self) -> Seq<u8> {
        dht_packet_bytes(self@)
    }

    fn to_bytes(&self) -> (r: Vec<u8>) {
        let mut r: Vec<u8> = Vec::new();
        r.push(self.packet_type.byte());
        extend_from_slice(&mut r, array_as_slice(&self.sender_pk.0));
        extend_from_slice(&mut r, array_as_slice(&self.nonce.0));
        extend_from_slice(&mut r, self.payload.as_slice());
        proof {
            assert(r@ =~= dht_packet_bytes(self@));
        }
        r
    }
}

impl FromBytes<DhtPacket> for DhtPacket {
    open spec fn from_bytes_spec(bytes: Seq<u8>) -> Option<DhtPacketV> {
        dht_packet_from_bytes_spec(bytes)
    }

    fn from_bytes(bytes: &[u8]) -> (r: Option<DhtPacket>) {
        if bytes.len() == 0 {
            return None;
        }
        let packet_type = match PacketKind::from_bytes(bytes) {
            Some(k) => k,
            None => {
                return None;
            },
        };
        if bytes.len() < 57 {
            return None;
        }
        let sender_pk = PublicKey(read_array::<32>(bytes, 1));
        let nonce = Nonce(read_array::<24>(bytes, 33));
        let payload = slice_to_vec(slice_subrange(bytes, 57, bytes.len()));
        proof {
            assert(bytes@.subrange(57, bytes@.len() as int) =~= bytes@.skip(57));
        }
        Some(DhtPacket { packet_type, sender_pk, nonce, payload })
    }
}

/// Encoding a transport tag and reading it back gives the tag: each tag maps
/// to its own wire code.
pub proof fn lemma_ip_type_round_trip(t: IpType)
    ensures
        ip_type_from_byte(ip_type_byte(t)) == Some(t),
{
}

/// Round trip with trailing-byte tolerance: a well-formed contact's
/// encoding, extended by arbitrary bytes, decodes back to the same contact.
pub proof fn lemma_packed_node_decode_prefix(n: PackedNodeV, tail: Seq<u8>)
    requires
        n.wf(),
    ensures
        packed_node_from_bytes_spec(packed_node_bytes(n) + tail) == Some(n),
{
    let b = packed_node_bytes(n) + tail;
    let alen = addr_len(n.ip_type);
    assert(b[0] == ip_type_byte(n.ip_type));
    lemma_ip_type_round_trip(n.ip_type);
    assert(b.len() >= packed_node_size(n.ip_type));
    assert(b.subrange(1, 1 + alen) =~= n.addr);
    assert(b.subrange(1 + alen, 3 + alen) =~= u16_be_bytes(n.port));
    lemma_u16_be_round_trip(n.port);
    assert(b.subrange(3 + alen, 35 + alen) =~= n.pk);
    assert(packed_node_from_bytes_spec(b) matches Some(d) && d =~= n);
}

/// Round trip: a well-formed contact decodes from its own encoding.
pub proof fn lemma_packed_node_round_trip(n: PackedNodeV)
    requires
        n.wf(),
    ensures
        packed_node_from_bytes_spec(packed_node_bytes(n)) == Some(n),
{
    assert(packed_node_bytes(n) + Seq::<u8>::empty() =~= packed_node_bytes(n));
    lemma_packed_node_decode_prefix(n, Seq::empty());
}

/// Truncation: a contact's encoding with its last byte removed fails to
/// decode.
pub proof fn lemma_packed_node_truncation(n: PackedNodeV)
    requires
        n.wf(),
    ensures
        packed_node_from_bytes_spec(packed_node_bytes(n).drop_last()) is None,
{
    let e = packed_node_bytes(n);
    let b = e.drop_last();
    assert(e.len() == packed_node_size(n.ip_type));
    assert(b[0] == ip_type_byte(n.ip_type));
    lemma_ip_type_round_trip(n.ip_type);
    assert(b.len() < packed_node_size(n.ip_type));
}

/// Round trip with trailing-byte tolerance for pings.
pub proof fn lemma_ping_decode_prefix(p: Ping, tail: Seq<u8>)
    ensures
        ping_from_bytes_spec(ping_bytes(p) + tail) == Some(p),
{
    let b = ping_bytes(p) + tail;
    assert(b.len() >= 9);
    assert(b[0] == ping_type_byte(p.p_type));
    crate::binary_io::lemma_u64_le_round_trip(p.id);
    assert(forall|i: int| 0 <= i < 8 ==> b.skip(1)[i] == u64_le_bytes(p.id)[i]);
    assert(u64_from_le(b.skip(1)) == u64_from_le(u64_le_bytes(p.id)));
}

/// Round trip: a ping decodes from its own encoding.
pub proof fn lemma_ping_round_trip(p: Ping)
    ensures
        ping_from_bytes_spec(ping_bytes(p)) == Some(p),
{
    assert(ping_bytes(p) + Seq::<u8>::empty() =~= ping_bytes(p));
    lemma_ping_decode_prefix(p, Seq::empty());
}

/// Truncation: a ping's encoding with its last byte removed fails to decode.
pub proof fn lemma_ping_truncation(p: Ping)
    ensures
        ping_from_bytes_spec(ping_bytes(p).drop_last()) is None,
{
    assert(ping_bytes(p).len() == 9);
}

/// Round trip with trailing-byte tolerance for node queries.
pub proof fn lemma_get_nodes_decode_prefix(g: GetNodesV, tail: Seq<u8>)
    requires
        g.pk.len() == 32,
    ensures
        get_nodes_from_bytes_spec(get_nodes_bytes(g) + tail) == Some(g),
{
    let b = get_nodes_bytes(g) + tail;
    assert(b.len() >= 40);
    assert(b.take(32) =~= g.pk);
    crate::binary_io::lemma_u64_le_round_trip(g.id);
    assert(forall|i: int| 0 <= i < 8 ==> b.skip(32)[i] == u64_le_bytes(g.id)[i]);
    assert(u64_from_le(b.skip(32)) == u64_from_le(u64_le_bytes(g.id)));
    assert(get_nodes_from_bytes_spec(b) matches Some(d) && d =~= g);
}

/// Round trip: a node query decodes from its own encoding.
pub proof fn lemma_get_nodes_round_trip(g: GetNodesV)
    requires
        g.pk.len() == 32,
    ensures
        get_nodes_from_bytes_spec(get_nodes_bytes(g)) == Some(g),
{
    assert(get_nodes_bytes(g) + Seq::<u8>::empty() =~= get_nodes_bytes(g));
    lemma_get_nodes_decode_prefix(g, Seq::empty());
}

/// Truncation: a node query's encoding with its last byte removed fails to
/// decode.
pub proof fn lemma_get_nodes_truncation(g: GetNodesV)
    requires
        g.pk.len() == 32,
    ensures
        get_nodes_from_bytes_spec(get_nodes_bytes(g).drop_last()) is None,
{
    assert(get_nodes_bytes(g).len() == 40);
}

/// Parsing the concatenated records of well-formed contacts consumes exactly
/// those records and leaves the rest.
pub proof fn lemma_parse_nodes_exact(ns: Seq<PackedNodeV>, rest: Seq<u8>)
    requires
        forall|i: int| 0 <= i < ns.len() ==> (#[trigger] ns[i]).wf(),
    ensures
        parse_n_nodes(nodes_bytes(ns) + rest, ns.len()) == Some((ns, rest)),
    decreases ns.len(),
{
    if ns.len() == 0 {
        assert(nodes_bytes(ns) + rest =~= rest);
        assert(ns =~= Seq::<PackedNodeV>::empty());
    } else {
        let b = nodes_bytes(ns) + rest;
        let sz = packed_node_size(ns[0].ip_type);
        assert(b =~= packed_node_bytes(ns[0]) + (nodes_bytes(ns.drop_first()) + rest));
        lemma_packed_node_decode_prefix(ns[0], nodes_bytes(ns.drop_first()) + rest);
        assert(packed_node_bytes(ns[0]).len() == sz);
        assert(b.skip(sz) =~= nodes_bytes(ns.drop_first()) + rest);
        assert(forall|i: int|
            0 <= i < ns.drop_first().len() ==> (#[trigger] ns.drop_first()[i]).wf());
        lemma_parse_nodes_exact(ns.drop_first(), rest);
        assert(seq![ns[0]] + ns.drop_first() =~= ns);
    }
}

/// Round trip with trailing-byte tolerance for node responses.
#[verifier::rlimit(100)]
pub proof fn lemma_send_nodes_decode_prefix(s: SendNodesV, tail: Seq<u8>)
    requires
        s.wf(),
    ensures
        send_nodes_from_bytes_spec(send_nodes_bytes(s) + tail) == Some(s),
{
    let b = send_nodes_bytes(s) + tail;
    assert(b[0] == s.nodes.len() as u8);
    assert(b.skip(1) =~= nodes_bytes(s.nodes) + (u64_le_bytes(s.id) + tail));
    lemma_parse_nodes_exact(s.nodes, u64_le_bytes(s.id) + tail);
    assert((b[0] as nat) == s.nodes.len());
    crate::binary_io::lemma_u64_le_round_trip(s.id);
    assert(forall|i: int|
        0 <= i < 8 ==> (u64_le_bytes(s.id) + tail)[i] == u64_le_bytes(s.id)[i]);
    assert(u64_from_le(u64_le_bytes(s.id) + tail) == u64_from_le(u64_le_bytes(s.id)));
    assert(send_nodes_from_bytes_spec(b) matches Some(d) && d =~= s);
}

/// Round trip: a well-formed node response decodes from its own encoding.
pub proof fn lemma_send_nodes_round_trip(s: SendNodesV)
    requires
        s.wf(),
    ensures
        send_nodes_from_bytes_spec(send_nodes_bytes(s)) == Some(s),
{
    assert(send_nodes_bytes(s) + Seq::<u8>::empty() =~= send_nodes_bytes(s));
    lemma_send_nodes_decode_prefix(s, Seq::empty());
}

/// Truncation: a node response's encoding with its last byte removed fails
/// to decode.
pub proof fn lemma_send_nodes_truncation(s: SendNodesV)
    requires
        s.wf(),
    ensures
        send_nodes_from_bytes_spec(send_nodes_bytes(s).drop_last()) is None,
{
    let e = send_nodes_bytes(s);
    let b = e.drop_last();
    assert(b[0] == s.nodes.len() as u8);
    assert(b.skip(1) =~= nodes_bytes(s.nodes) + u64_le_bytes(s.id).take(7));
    lemma_parse_nodes_exact(s.nodes, u64_le_bytes(s.id).take(7));
    assert((b[0] as nat) == s.nodes.len());
    assert(u64_le_bytes(s.id).take(7).len() < 8);
}

/// Encoding a packet kind and reading it back gives the kind: every kind
/// maps to its own wire code.
pub proof fn lemma_packet_kind_round_trip(k: PacketKind)
    ensures
        packet_kind_from_byte(packet_kind_byte(k)) == Some(k),
{
}

/// Well-formedness of a control packet: keys are 32 bytes and a node
/// response holds 1 to 4 well-formed contacts.
pub open spec fn dpacket_wf(p: DPacketTV) -> bool {
    match p {
        DPacketTV::Ping(_) => true,
        DPacketTV::GetNodes(g) => g.pk.len() == 32,
        DPacketTV::SendNodes(s) => s.wf(),
    }
}

/// A well-formed control packet decodes from its own encoding when
/// dispatched under its own kind tag.
pub proof fn lemma_dpacket_payload_round_trip(p: DPacketTV)
    requires
        dpacket_wf(p),
    ensures
        dht_payload_decode(dpacket_kind(p), dpacket_bytes(p)) == Some(p),
{
    match p {
        DPacketTV::Ping(x) => {
            lemma_ping_round_trip(x);
        },
        DPacketTV::GetNodes(g) => {
            lemma_get_nodes_round_trip(g);
        },
        DPacketTV::SendNodes(s) => {
            lemma_send_nodes_round_trip(s);
        },
    }
}

/// Round trip: an envelope decodes from its own encoding. Trailing bytes are
/// not ignored here: everything after the fixed-size fields is the
/// ciphertext.
pub proof fn lemma_dht_packet_round_trip(d: DhtPacketV)
    requires
        d.sender_pk.len() == 32,
        d.nonce.len() == 24,
    ensures
        dht_packet_from_bytes_spec(dht_packet_bytes(d)) == Some(d),
{
    let b = dht_packet_bytes(d);
    assert(b[0] == packet_kind_byte(d.kind));
    lemma_packet_kind_round_trip(d.kind);
    assert(b.len() >= 57);
    assert(b.subrange(1, 33) =~= d.sender_pk);
    assert(b.subrange(33, 57) =~= d.nonce);
    assert(b.skip(57) =~= d.payload);
    assert(dht_packet_from_bytes_spec(b) matches Some(r) && r =~= d);
}

} // verus!
