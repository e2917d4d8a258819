//! Addresses of peers.
use crate::table::Key;
use vstd::prelude::*;

verus! {

/// An address of a host.
#[derive(Debug, Clone, Copy, PartialEq, Eq)]
pub enum IpAddr {
    V4([u8; 4]),
    /// The sixteen octets, in network order.
    V6([u8; 16]),
}

/// An address of a host with a port.
#[derive(Debug, Clone, Copy, PartialEq, Eq)]
pub struct SocketAddr {
    pub ip: IpAddr,
    pub port: u16,
    /// The flow information of an IPv6 address, else 0.
    pub flowinfo: u32,
    /// The scope of an IPv6 address, else 0.
    pub scope_id: u32,
}

/// The address of a port of an IPv4 host.
pub fn socket_v4(a: u8, b: u8, c: u8, d: u8, port: u16) -> (r: SocketAddr)
    ensures
        r.ip matches IpAddr::V4(o) && o@ == seq![a, b, c, d],
        r.port == port,
        r.flowinfo == 0,
        r.scope_id == 0,
{
    let o: [u8; 4] = [a, b, c, d];
    assert(o@ =~= seq![a, b, c, d]);
    SocketAddr { ip: IpAddr::V4(o), port, flowinfo: 0, scope_id: 0 }
}

fn same_octets<const N: usize>(a: &[u8; N], b: &[u8; N]) -> (r: bool)
    ensures
        r == (*a == *b),
{
    let mut i: usize = 0;
    while i < N
        invariant
            i <= N,
            forall|j: int| 0 <= j < i ==> a@[j] == b@[j],
        decreases N - i,
    {
        if a[i] != b[i] {
            assert(a@[i as int] != b@[i as int]);
            return false;
        }
        i += 1;
    }
    assert(*a =~= *b);
    true
}

impl Key for IpAddr {
    fn same(&self, other: &Self) -> (r: bool) {
        match (self, other) {
            (IpAddr::V4(a), IpAddr::V4(b)) => same_octets(a, b),
            (IpAddr::V6(a), IpAddr::V6(b)) => same_octets(a, b),
            _ => false,
        }
    }
}

impl Key for SocketAddr {
    fn same(&self, other: &Self) -> (r: bool) {
        self.port == other.port && self.flowinfo == other.flowinfo && self.scope_id
            == other.scope_id && self.ip.same(&other.ip)
    }
}

/// Whether the octets of an IPv4 address are of no host on the public network: loopback,
/// private, link-local, broadcast, unspecified, multicast and documentation addresses.
pub open spec fn special_v4(o: Seq<u8>) -> bool {
    ||| o[0] == 127
    ||| o[0] == 10
    ||| o[0] == 172 && 16 <= o[1] <= 31
    ||| o[0] == 192 && o[1] == 168
    ||| o[0] == 169 && o[1] == 254
    ||| o[0] == 255 && o[1] == 255 && o[2] == 255 && o[3] == 255
    ||| o[0] == 0 && o[1] == 0 && o[2] == 0 && o[3] == 0
    ||| 224 <= o[0] <= 239
    ||| o[0] == 192 && o[1] == 0 && o[2] == 2
    ||| o[0] == 198 && o[1] == 51 && o[2] == 100
    ||| o[0] == 203 && o[1] == 0 && o[2] == 113
}

/// Whether the octets of an IPv6 address are of no host on the public network: loopback,
/// unspecified, multicast, unique-local and link-local addresses.
pub open spec fn special_v6(o: Seq<u8>) -> bool {
    ||| (forall|i: int| 0 <= i < 15 ==> o[i] == 0) && o[15] <= 1
    ||| o[0] == 0xff
    ||| o[0] == 0xfc || o[0] == 0xfd
    ||| o[0] == 0xfe && 0x80 <= o[1] <= 0xbf
}

/// Whether an address may be passed on to other peers.
pub open spec fn routable(ip: IpAddr) -> bool {
    match ip {
        IpAddr::V4(o) => !special_v4(o@),
        IpAddr::V6(o) => !special_v6(o@),
    }
}

/// Whether an address may be passed on to other peers.
pub fn is_routable(ip: &IpAddr) -> (r: bool)
    ensures
        r == routable(*ip),
{
    match ip {
        IpAddr::V4(o) => {
            let special: bool = o[0] == 127 || o[0] == 10 || (o[0] == 172 && o[1] >= 16 && o[1]
                <= 31) || (o[0] == 192 && o[1] == 168) || (o[0] == 169 && o[1] == 254) || (o[0]
                == 255 && o[1] == 255 && o[2] == 255 && o[3] == 255) || (o[0] == 0 && o[1] == 0
                && o[2] == 0 && o[3] == 0) || (o[0] >= 224 && o[0] <= 239) || (o[0] == 192 && o[1]
                == 0 && o[2] == 2) || (o[0] == 198 && o[1] == 51 && o[2] == 100) || (o[0] == 203
                && o[1] == 0 && o[2] == 113);
            !special
        },
        IpAddr::V6(o) => {
            if o[0] == 0xff || o[0] == 0xfc || o[0] == 0xfd || (o[0] == 0xfe && o[1] >= 0x80 && o[1]
                <= 0xbf) {
                return false;
            }
            let mut i: usize = 0;
            while i < 15
                invariant
                    i <= 15,
                    *ip == IpAddr::V6(*o),
                    o@[0] != 0xff && o@[0] != 0xfc && o@[0] != 0xfd,
                    !(o@[0] == 0xfe && 0x80 <= o@[1] <= 0xbf),
                    forall|j: int| 0 <= j < i ==> o@[j] == 0,
                decreases 15 - i,
            {
                if o[i] != 0 {
                    assert(o@[i as int] != 0);
                    return true;
                }
                i += 1;
            }
            o[15] > 1
        },
    }
}

/// The number of the network that a host belongs to: the first 24 bits of an IPv4
/// address, the first 48 bits of an IPv6 address.
pub open spec fn subnet(ip: IpAddr) -> nat {
    match ip {
        IpAddr::V4(o) => o@[0] as nat * 0x1_0000 + o@[1] as nat * 0x100 + o@[2] as nat,
        IpAddr::V6(o) => o@[0] as nat * 0x100_0000_0000 + o@[1] as nat * 0x1_0000_0000 + o@[2] as nat
            * 0x100_0000 + o@[3] as nat * 0x1_0000 + o@[4] as nat * 0x100 + o@[5] as nat,
    }
}

/// The number of a network has at most 48 bits.
pub proof fn lemma_subnet_fits(ip: IpAddr)
    ensures
        subnet(ip) < 0x1_0000_0000_0000,
{
}

/// The number of the network that a peer belongs to.
pub fn subnet_key(addr: &SocketAddr) -> (r: u64)
    ensures
        r == subnet(addr.ip),
{
    match &addr.ip {
        IpAddr::V4(o) => o[0] as u64 * 0x1_0000 + o[1] as u64 * 0x100 + o[2] as u64,
        IpAddr::V6(o) => o[0] as u64 * 0x100_0000_0000 + o[1] as u64 * 0x1_0000_0000 + o[2] as u64
            * 0x100_0000 + o[3] as u64 * 0x1_0000 + o[4] as u64 * 0x100 + o[5] as u64,
    }
}

/// Two IPv4 hosts are in one network exactly where their first three octets agree.
pub proof fn lemma_subnet_v4(a: [u8; 4], b: [u8; 4])
    ensures
        subnet(IpAddr::V4(a)) == subnet(IpAddr::V4(b)) <==> a@[0] == b@[0] && a@[1] == b@[1] && a@[2]
            == b@[2],
{
}

proof fn lemma_last_digit(x: int, y: int, a: u8, b: u8)
    requires
        x * 0x100 + a == y * 0x100 + b,
    ensures
        x == y,
        a == b,
{
}

/// Two IPv6 hosts are in one network exactly where their first six octets agree.
pub proof fn lemma_subnet_v6(a: [u8; 16], b: [u8; 16])
    ensures
        subnet(IpAddr::V6(a)) == subnet(IpAddr::V6(b)) <==> a@[0] == b@[0] && a@[1] == b@[1] && a@[2]
            == b@[2] && a@[3] == b@[3] && a@[4] == b@[4] && a@[5] == b@[5],
{
    let (p, q) = (a@, b@);
    if subnet(IpAddr::V6(a)) == subnet(IpAddr::V6(b)) {
        let x1 = p[0] * 0x100 + p[1];
        let y1 = q[0] * 0x100 + q[1];
        let x2 = x1 * 0x100 + p[2];
        let y2 = y1 * 0x100 + q[2];
        let x3 = x2 * 0x100 + p[3];
        let y3 = y2 * 0x100 + q[3];
        let x4 = x3 * 0x100 + p[4];
        let y4 = y3 * 0x100 + q[4];
        lemma_last_digit(x4, y4, p[5], q[5]);
        lemma_last_digit(x3, y3, p[4], q[4]);
        lemma_last_digit(x2, y2, p[3], q[3]);
        lemma_last_digit(x1, y1, p[2], q[2]);
        lemma_last_digit(p[0] as int, q[0] as int, p[1], q[1]);
    }
}

/// An IPv4 address, as a number of 32 bits, is routable exactly where it is outside of the
/// ranges that are set aside: 0.0.0.0, 10.0.0.0/8, 127.0.0.0/8, 169.254.0.0/16,
/// 172.16.0.0/12, 192.0.2.0/24, 192.168.0.0/16, 198.51.100.0/24, 203.0.113.0/24, 224.0.0.0/4
/// and 255.255.255.255.
pub proof fn lemma_routable_v4(o: [u8; 4])
    ensures
        ({
            let n = o@[0] * 0x100_0000 + o@[1] * 0x1_0000 + o@[2] * 0x100 + o@[3];
            routable(IpAddr::V4(o)) <==> {
                &&& n != 0
                &&& !(0x0a00_0000 <= n <= 0x0aff_ffff)
                &&& !(0x7f00_0000 <= n <= 0x7fff_ffff)
                &&& !(0xa9fe_0000 <= n <= 0xa9fe_ffff)
                &&& !(0xac10_0000 <= n <= 0xac1f_ffff)
                &&& !(0xc000_0200 <= n <= 0xc000_02ff)
                &&& !(0xc0a8_0000 <= n <= 0xc0a8_ffff)
                &&& !(0xc633_6400 <= n <= 0xc633_64ff)
                &&& !(0xcb00_7100 <= n <= 0xcb00_71ff)
                &&& !(0xe000_0000 <= n <= 0xefff_ffff)
                &&& n != 0xffff_ffff
            }
        }),
{
}

/// An IPv6 address is routable exactly where it is neither `::` nor `::1` and its first 16
/// bits are outside of fc00 to fdff, fe80 to febf and ff00 to ffff.
pub proof fn lemma_routable_v6(o: [u8; 16])
    ensures
        ({
            let n = o@[0] * 0x100 + o@[1];
            let small = o@.take(15) == Seq::new(15, |i: int| 0u8) && o@[15] <= 1;
            routable(IpAddr::V6(o)) <==> {
                &&& !small
                &&& !(0xfc00 <= n <= 0xfdff)
                &&& !(0xfe80 <= n <= 0xfebf)
                &&& !(0xff00 <= n <= 0xffff)
            }
        }),
{
    let zero = Seq::new(15, |i: int| 0u8);
    if forall|i: int| 0 <= i < 15 ==> o@[i] == 0 {
        assert(o@.take(15) =~= zero);
    } else {
        let i = choose|i: int| 0 <= i < 15 && o@[i] != 0;
        assert(o@.take(15)[i] != zero[i]);
    }
}

} // verus!
