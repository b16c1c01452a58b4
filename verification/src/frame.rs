//! Containers, link layers and tunnels: what the bytes of a capture and of a
//! frame say before anything is counted.

use vstd::prelude::*;

use crate::bytes::{be16, rest};
#[allow(unused_imports)]
use crate::bytes::{be16_at, tail};
use crate::text::push_decimal;
#[allow(unused_imports)]
use crate::text::decimal;

verus! {

/// The container of a capture.
#[derive(Clone, Copy, Debug, PartialEq, Eq, Structural)]
pub enum Format {
    Unknown,
    Pcap,
    PcapNg,
}

impl Format {
    pub open spec fn spec_name(self) -> Seq<char> {
        match self {
            Format::Unknown => "unknown"@,
            Format::Pcap => "pcap"@,
            Format::PcapNg => "pcapng"@,
        }
    }

    pub open spec fn spec_upper_name(self) -> Seq<char> {
        match self {
            Format::Unknown => "UNKNOWN"@,
            Format::Pcap => "PCAP"@,
            Format::PcapNg => "PCAPNG"@,
        }
    }

    /// The name of the container.
    pub fn name(self) -> (r: &'static str)
        ensures
            r@ == self.spec_name(),
    {
        match self {
            Format::Unknown => "unknown",
            Format::Pcap => "pcap",
            Format::PcapNg => "pcapng",
        }
    }

    /// The name of the container in capitals.
    pub fn upper_name(self) -> (r: &'static str)
        ensures
            r@ == self.spec_upper_name(),
    {
        match self {
            Format::Unknown => "UNKNOWN",
            Format::Pcap => "PCAP",
            Format::PcapNg => "PCAPNG",
        }
    }

    /// Whether the container is a capture at all.
    pub fn is_known(self) -> (r: bool)
        ensures
            r == (self != Format::Unknown),
    {
        match self {
            Format::Unknown => false,
            _ => true,
        }
    }
}

/// Whether the capture starts with these four bytes.
pub open spec fn starts_with(data: Seq<u8>, m: (u8, u8, u8, u8)) -> bool {
    data.len() >= 4 && data[0] == m.0 && data[1] == m.1 && data[2] == m.2 && data[3] == m.3
}

/// The magic numbers of a pcap file in big-endian order.
pub const PCAP_US: (u8, u8, u8, u8) = (0xa1, 0xb2, 0xc3, 0xd4);

pub const PCAP_US_SWAPPED: (u8, u8, u8, u8) = (0xd4, 0xc3, 0xb2, 0xa1);

pub const PCAP_NS: (u8, u8, u8, u8) = (0xa1, 0xb2, 0x3c, 0x4d);

pub const PCAP_NS_SWAPPED: (u8, u8, u8, u8) = (0x4d, 0x3c, 0xb2, 0xa1);

/// The block type that opens a pcapng file.
pub const PCAPNG: (u8, u8, u8, u8) = (0x0a, 0x0d, 0x0d, 0x0a);

fn opens_with(data: &[u8], m: (u8, u8, u8, u8)) -> (r: bool)
    ensures
        r == starts_with(data@, m),
{
    data.len() >= 4 && data[0] == m.0 && data[1] == m.1 && data[2] == m.2 && data[3] == m.3
}

/// The container that the magic bytes announce.
pub open spec fn format_of(data: Seq<u8>) -> Option<Format> {
    if starts_with(data, PCAP_US) || starts_with(data, PCAP_US_SWAPPED) || starts_with(data, PCAP_NS)
        || starts_with(data, PCAP_NS_SWAPPED) {
        Some(Format::Pcap)
    } else if starts_with(data, PCAPNG) {
        Some(Format::PcapNg)
    } else {
        None
    }
}

/// The length in nanoseconds of a tick of the fractional timestamp field.
pub open spec fn tick_of(data: Seq<u8>) -> u64 {
    if starts_with(data, PCAP_NS) || starts_with(data, PCAP_NS_SWAPPED) {
        1
    } else {
        1000
    }
}

pub open spec fn endian_of(data: Seq<u8>) -> Seq<char> {
    if starts_with(data, PCAP_US) || starts_with(data, PCAP_NS) {
        "big-endian"@
    } else if starts_with(data, PCAP_US_SWAPPED) || starts_with(data, PCAP_NS_SWAPPED) {
        "little-endian"@
    } else {
        "-"@
    }
}

pub open spec fn precision_of(data: Seq<u8>) -> Seq<char> {
    if starts_with(data, PCAP_NS) || starts_with(data, PCAP_NS_SWAPPED) {
        "ns"@
    } else {
        "µs"@
    }
}

/// Byte order and timestamp precision from the magic bytes.
pub fn magic_info(data: &[u8]) -> (r: (&'static str, &'static str))
    ensures
        r.0@ == endian_of(data@),
        r.1@ == precision_of(data@),
{
    if opens_with(data, PCAP_US) {
        ("big-endian", "µs")
    } else if opens_with(data, PCAP_US_SWAPPED) {
        ("little-endian", "µs")
    } else if opens_with(data, PCAP_NS) {
        ("big-endian", "ns")
    } else if opens_with(data, PCAP_NS_SWAPPED) {
        ("little-endian", "ns")
    } else {
        ("-", "µs")
    }
}

/// Detects the container from the first four bytes, and the length in
/// nanoseconds of a tick of its timestamps.
pub fn detect_format(data: &[u8]) -> (r: (Option<Format>, u64))
    ensures
        r.0 == format_of(data@),
        r.1 == tick_of(data@),
{
    if opens_with(data, PCAP_US) || opens_with(data, PCAP_US_SWAPPED) {
        (Some(Format::Pcap), 1000)
    } else if opens_with(data, PCAP_NS) || opens_with(data, PCAP_NS_SWAPPED) {
        (Some(Format::Pcap), 1)
    } else if opens_with(data, PCAPNG) {
        (Some(Format::PcapNg), 1000)
    } else {
        (None, 1000)
    }
}

pub const LINK_ETHERNET: i32 = 1;

pub const LINK_RAW_IP: i32 = 101;

pub const LINK_LINUX_SLL: i32 = 113;

/// The name of a link type.
pub open spec fn linktype_text(lt: i32) -> Seq<char> {
    if lt == 0 {
        "Null/Loopback"@
    } else if lt == 1 {
        "Ethernet"@
    } else if lt == 101 {
        "Raw IP"@
    } else if lt == 105 {
        "IEEE 802.11"@
    } else if lt == 113 {
        "Linux SLL"@
    } else if lt == 127 {
        "802.11 radiotap"@
    } else if lt < 0 {
        "LINKTYPE_"@.push('-') + decimal((-lt) as nat)
    } else {
        "LINKTYPE_"@ + decimal(lt as nat)
    }
}

/// The name of a link type, or its number where it has none.
pub fn linktype_name(lt: i32) -> (r: String)
    ensures
        r@ == linktype_text(lt),
{
    if lt == 0 {
        String::from_str("Null/Loopback")
    } else if lt == 1 {
        String::from_str("Ethernet")
    } else if lt == 101 {
        String::from_str("Raw IP")
    } else if lt == 105 {
        String::from_str("IEEE 802.11")
    } else if lt == 113 {
        String::from_str("Linux SLL")
    } else if lt == 127 {
        String::from_str("802.11 radiotap")
    } else {
        let mut out = String::from_str("LINKTYPE_");
        if lt < 0 {
            out.push('-');
            push_decimal(&mut out, (-(lt as i64)) as u128);
        } else {
            push_decimal(&mut out, lt as u128);
        }
        out
    }
}

pub open spec fn proto_text(p: u8) -> Seq<char> {
    if p == 1 {
        "ICMP"@
    } else if p == 6 {
        "TCP"@
    } else if p == 17 {
        "UDP"@
    } else if p == 2 {
        "IGMP"@
    } else if p == 89 {
        "OSPF"@
    } else if p == 112 {
        "VRRP"@
    } else {
        "IPproto"@
    }
}

/// The name of an IP protocol.
pub fn proto_name(p: u8) -> (r: &'static str)
    ensures
        r@ == proto_text(p),
{
    match p {
        1 => "ICMP",
        6 => "TCP",
        17 => "UDP",
        2 => "IGMP",
        89 => "OSPF",
        112 => "VRRP",
        _ => "IPproto",
    }
}

pub const ETHERTYPE_IPV4: u16 = 0x0800;

pub const ETHERTYPE_ARP: u16 = 0x0806;

pub const ETHERTYPE_IPV6: u16 = 0x86dd;

/// The ethertypes of a VLAN tag: 802.1Q and 802.1ad.
pub open spec fn is_vlan_tag(et: u16) -> bool {
    et == 0x8100 || et == 0x88a8
}

/// The VLAN tags that stand before offset `off`, where the ethertype `et` was
/// read: the ethertype behind the last tag, the offset behind it and the tag
/// control words; no ethertype where the frame ends within the tags.
pub struct TagStack {
    pub end: Option<(u16, int)>,
    pub tcis: Seq<u16>,
}

/// Reads the tags on from ethertype `et` with the next byte at `off`.
pub open spec fn tag_stack(f: Seq<u8>, et: u16, off: int) -> TagStack
    decreases f.len() - off,
{
    if !is_vlan_tag(et) {
        TagStack { end: Some((et, off)), tcis: Seq::empty() }
    } else {
        let tci = match be16_at(f, off) {
            Some(x) => seq![x],
            None => Seq::empty(),
        };
        match be16_at(f, off + 2) {
            Some(next) => {
                let inner = tag_stack(f, next, off + 4);
                TagStack { end: inner.end, tcis: tci + inner.tcis }
            },
            None => TagStack { end: None, tcis: tci },
        }
    }
}

/// The ethertype of a frame and the offset of its network layer.
pub open spec fn l2_of(f: Seq<u8>, link: i32) -> Option<(u16, int)> {
    if link == LINK_ETHERNET {
        match be16_at(f, 12) {
            Some(et) => tag_stack(f, et, 14).end,
            None => None,
        }
    } else if link == LINK_LINUX_SLL {
        match be16_at(f, 14) {
            Some(et) => Some((et, 16int)),
            None => None,
        }
    } else if link == LINK_RAW_IP {
        if f.len() == 0 {
            None
        } else if f[0] / 16 == 6 {
            Some((ETHERTYPE_IPV6, 0int))
        } else {
            Some((ETHERTYPE_IPV4, 0int))
        }
    } else {
        None
    }
}

/// The link layer, tags unwrapped: ethertype and offset of the network layer.
/// `None` for a link type without an ethertype, or a frame that ends before it.
pub fn l2(f: &[u8], link: i32) -> (r: Option<(u16, usize)>)
    ensures
        match (r, l2_of(f@, link)) {
            (Some(a), Some(b)) => a.0 == b.0 && a.1 == b.1 && a.1 <= f@.len(),
            (None, None) => true,
            _ => false,
        },
{
    if link == LINK_ETHERNET {
        let mut et: u16 = match be16(f, 12) {
            Some(x) => x,
            None => return None,
        };
        let mut off: usize = 14;
        while et == 0x8100 || et == 0x88a8
            invariant
                14 <= off <= f@.len(),
                link == LINK_ETHERNET,
                l2_of(f@, link) == tag_stack(f@, et, off as int).end,
            decreases f@.len() - off,
        {
            let n: usize = f.len();
            if n - off <= 2 {
                assert(be16_at(f@, off + 2) is None);
                return None;
            }
            et = match be16(f, off + 2) {
                Some(x) => x,
                None => return None,
            };
            off = off + 4;
        }
        Some((et, off))
    } else if link == LINK_LINUX_SLL {
        match be16(f, 14) {
            Some(et) => Some((et, 16)),
            None => None,
        }
    } else if link == LINK_RAW_IP {
        if f.len() == 0 {
            None
        } else if f[0] / 16 == 6 {
            Some((ETHERTYPE_IPV6, 0))
        } else {
            Some((ETHERTYPE_IPV4, 0))
        }
    } else {
        None
    }
}

/// The outer IP header of a frame: its protocol and the offset behind it.
pub open spec fn outer_ip(f: Seq<u8>, link: i32) -> Option<(u8, int)> {
    match l2_of(f, link) {
        Some((et, l3)) => {
            if et == ETHERTYPE_IPV4 {
                let d = tail(f, l3);
                if d.len() == 0 || (d[0] % 16) * 4 < 20 || d.len() < (d[0] % 16) * 4 {
                    None
                } else {
                    Some((d[9], l3 + (d[0] % 16) * 4))
                }
            } else if et == ETHERTYPE_IPV6 {
                if l3 + 6 < f.len() {
                    Some((f[l3 + 6], l3 + 40))
                } else {
                    None
                }
            } else {
                None
            }
        },
        None => None,
    }
}

/// One tunnel layer of a frame: what it counts as, and what it carries.
pub struct LayerModel {
    pub gre: bool,
    pub erspan: bool,
    pub vxlan: bool,
    pub vxlan_legacy: bool,
    pub vxlan_bad: bool,
    pub geneve: bool,
    /// The inner frame, its link type and the name of the layer.
    pub inner: Option<(Seq<u8>, i32, Seq<char>)>,
}

/// A frame that is no tunnel.
pub open spec fn no_tunnel() -> LayerModel {
    LayerModel {
        gre: false,
        erspan: false,
        vxlan: false,
        vxlan_legacy: false,
        vxlan_bad: false,
        geneve: false,
        inner: None,
    }
}

/// The length of a GRE header: four bytes, and four more for each of checksum,
/// routing, key and sequence number.
pub open spec fn gre_len(flags: u16) -> int {
    4 + (if flags & 0x8000 != 0 {
        4int
    } else {
        0
    }) + (if flags & 0x4000 != 0 {
        4int
    } else {
        0
    }) + (if flags & 0x2000 != 0 {
        4int
    } else {
        0
    }) + (if flags & 0x1000 != 0 {
        4int
    } else {
        0
    })
}

/// The GRE layer whose header starts at `off`.
pub open spec fn gre_layer(f: Seq<u8>, off: int) -> LayerModel {
    let plain = LayerModel { gre: true, ..no_tunnel() };
    match (be16_at(f, off), be16_at(f, off + 2)) {
        (Some(flags), Some(kind)) => {
            let body = off + gre_len(flags);
            if kind == 0x88be {
                LayerModel { erspan: true, inner: Some((tail(f, body + 8), LINK_ETHERNET, "GRE/ERSPAN"@)), ..plain }
            } else if kind == 0x22eb {
                LayerModel { erspan: true, inner: Some((tail(f, body + 12), LINK_ETHERNET, "GRE/ERSPAN"@)), ..plain }
            } else if kind == 0x6558 {
                LayerModel { inner: Some((tail(f, body), LINK_ETHERNET, "GRE"@)), ..plain }
            } else if kind == ETHERTYPE_IPV4 || kind == ETHERTYPE_IPV6 {
                LayerModel { inner: Some((tail(f, body), LINK_RAW_IP, "GRE"@)), ..plain }
            } else {
                plain
            }
        },
        _ => plain,
    }
}

pub const PORT_VXLAN: u16 = 4789;

pub const PORT_VXLAN_LEGACY: u16 = 8472;

pub const PORT_GENEVE: u16 = 6081;

/// The layer carried in the UDP datagram whose header starts at `off`: VXLAN on
/// its own port or on the legacy one, with a header that is malformed where its
/// `I` flag is clear; Geneve, which is only counted.
pub open spec fn udp_layer(f: Seq<u8>, off: int) -> LayerModel {
    match be16_at(f, off + 2) {
        Some(port) => if port == PORT_VXLAN || port == PORT_VXLAN_LEGACY {
            LayerModel {
                vxlan: true,
                vxlan_legacy: port == PORT_VXLAN_LEGACY,
                vxlan_bad: off + 16 <= f.len() && f[off + 8] & 0x08 == 0,
                inner: Some((tail(f, off + 16), LINK_ETHERNET, "VXLAN"@)),
                ..no_tunnel()
            }
        } else if port == PORT_GENEVE {
            LayerModel { geneve: true, ..no_tunnel() }
        } else {
            no_tunnel()
        },
        None => no_tunnel(),
    }
}

/// The outermost tunnel layer of a frame.
pub open spec fn layer_of(f: Seq<u8>, link: i32) -> LayerModel {
    match outer_ip(f, link) {
        Some((proto, off)) => if proto == 47 {
            gre_layer(f, off)
        } else if proto == 17 {
            udp_layer(f, off)
        } else {
            no_tunnel()
        },
        None => no_tunnel(),
    }
}

/// One tunnel layer of a frame: what it counts as, and what it carries.
pub struct Layer<'a> {
    pub gre: bool,
    pub erspan: bool,
    pub vxlan: bool,
    pub vxlan_legacy: bool,
    pub vxlan_bad: bool,
    pub geneve: bool,
    /// The inner frame, its link type and the name of the layer.
    pub inner: Option<(&'a [u8], i32, &'static str)>,
}

impl<'a> View for Layer<'a> {
    type V = LayerModel;

    open spec fn view(&self) -> LayerModel {
        LayerModel {
            gre: self.gre,
            erspan: self.erspan,
            vxlan: self.vxlan,
            vxlan_legacy: self.vxlan_legacy,
            vxlan_bad: self.vxlan_bad,
            geneve: self.geneve,
            inner: match self.inner {
                Some((f, link, name)) => Some((f@, link, name@)),
                None => None,
            },
        }
    }
}

fn plain_layer<'a>() -> (r: Layer<'a>)
    ensures
        r@ == no_tunnel(),
        r.inner is None,
{
    Layer {
        gre: false,
        erspan: false,
        vxlan: false,
        vxlan_legacy: false,
        vxlan_bad: false,
        geneve: false,
        inner: None,
    }
}

fn find_outer_ip(f: &[u8], link: i32) -> (r: Option<(u8, usize)>)
    requires
        f@.len() + 100 <= usize::MAX,
    ensures
        match (r, outer_ip(f@, link)) {
            (Some(a), Some(b)) => a.0 == b.0 && a.1 == b.1 && a.1 <= f@.len() + 40,
            (None, None) => true,
            _ => false,
        },
{
    let (et, l3): (u16, usize) = match l2(f, link) {
        Some(x) => x,
        None => return None,
    };
    let n: usize = f.len();
    if et == ETHERTYPE_IPV4 {
        let d = rest(f, l3);
        if d.len() == 0 {
            return None;
        }
        let ihl: usize = (d[0] % 16) as usize * 4;
        if ihl < 20 || d.len() < ihl {
            return None;
        }
        Some((d[9], l3 + ihl))
    } else if et == ETHERTYPE_IPV6 {
        if n - l3 > 6 {
            Some((f[l3 + 6], l3 + 40))
        } else {
            None
        }
    } else {
        None
    }
}

fn find_gre_layer<'a>(f: &'a [u8], off: usize) -> (r: Layer<'a>)
    requires
        off <= f@.len() + 40,
        f@.len() + 100 <= usize::MAX,
    ensures
        r@ == gre_layer(f@, off as int),
{
    let mut r = plain_layer();
    r.gre = true;
    let flags: u16 = match be16(f, off) {
        Some(x) => x,
        None => return r,
    };
    let kind: u16 = match be16(f, off + 2) {
        Some(x) => x,
        None => return r,
    };
    let mut len: usize = 4;
    if flags & 0x8000 != 0 {
        len = len + 4;
    }
    if flags & 0x4000 != 0 {
        len = len + 4;
    }
    if flags & 0x2000 != 0 {
        len = len + 4;
    }
    if flags & 0x1000 != 0 {
        len = len + 4;
    }
    let body: usize = off + len;
    if kind == 0x88be {
        r.erspan = true;
        r.inner = Some((rest(f, body + 8), LINK_ETHERNET, "GRE/ERSPAN"));
    } else if kind == 0x22eb {
        r.erspan = true;
        r.inner = Some((rest(f, body + 12), LINK_ETHERNET, "GRE/ERSPAN"));
    } else if kind == 0x6558 {
        r.inner = Some((rest(f, body), LINK_ETHERNET, "GRE"));
    } else if kind == ETHERTYPE_IPV4 || kind == ETHERTYPE_IPV6 {
        r.inner = Some((rest(f, body), LINK_RAW_IP, "GRE"));
    }
    r
}

fn find_udp_layer<'a>(f: &'a [u8], off: usize) -> (r: Layer<'a>)
    requires
        off <= f@.len() + 40,
        f@.len() + 100 <= usize::MAX,
    ensures
        r@ == udp_layer(f@, off as int),
{
    let mut r = plain_layer();
    let port: u16 = match be16(f, off + 2) {
        Some(x) => x,
        None => return r,
    };
    if port == PORT_VXLAN || port == PORT_VXLAN_LEGACY {
        r.vxlan = true;
        r.vxlan_legacy = port == PORT_VXLAN_LEGACY;
        r.vxlan_bad = off + 16 <= f.len() && f[off + 8] & 0x08 == 0;
        r.inner = Some((rest(f, off + 16), LINK_ETHERNET, "VXLAN"));
    } else if port == PORT_GENEVE {
        r.geneve = true;
    }
    r
}

/// Finds the outermost tunnel layer of a frame: GRE with its ERSPAN kinds,
/// VXLAN, Geneve.
pub fn layer<'a>(f: &'a [u8], link: i32) -> (r: Layer<'a>)
    requires
        f@.len() + 100 <= usize::MAX,
    ensures
        r@ == layer_of(f@, link),
{
    match find_outer_ip(f, link) {
        Some((proto, off)) => {
            if proto == 47 {
                find_gre_layer(f, off)
            } else if proto == 17 {
                find_udp_layer(f, off)
            } else {
                plain_layer()
            }
        },
        None => plain_layer(),
    }
}

/// The magic bytes of the five containers: pcap in either byte order with micro- or
/// nanoseconds, and pcapng. Whatever starts otherwise is no capture.
pub proof fn law_magic_bytes(data: Seq<u8>)
    requires
        data.len() >= 4,
    ensures
        ({
            let magic = data[0] * 0x100_0000 + data[1] * 0x1_0000 + data[2] * 0x100 + data[3];
            let swapped = data[3] * 0x100_0000 + data[2] * 0x1_0000 + data[1] * 0x100 + data[0];
            let micro = magic == 0xa1b2_c3d4 || swapped == 0xa1b2_c3d4;
            let nano = magic == 0xa1b2_3c4d || swapped == 0xa1b2_3c4d;
            &&& format_of(data) == Some(Format::Pcap) <==> micro || nano
            &&& format_of(data) == Some(Format::PcapNg) <==> magic == 0x0a0d_0d0a
            &&& format_of(data) is None <==> !micro && !nano && magic != 0x0a0d_0d0a
            &&& tick_of(data) == (if nano {
                1int
            } else {
                1000
            })
            &&& precision_of(data) == (if nano {
                "ns"@
            } else {
                "µs"@
            })
            &&& endian_of(data) == (if magic == 0xa1b2_c3d4 || magic == 0xa1b2_3c4d {
                "big-endian"@
            } else if micro || nano {
                "little-endian"@
            } else {
                "-"@
            })
        }),
{
}

/// Less than four bytes are no capture.
pub proof fn law_too_short_for_a_capture(data: Seq<u8>)
    requires
        data.len() < 4,
    ensures
        format_of(data) is None,
{
}

/// A frame with a VLAN tag put in front of its ethertype.
pub open spec fn tagged_with(f: Seq<u8>, hi: u8, lo: u8, tci: u16) -> Seq<u8> {
    f.take(12) + seq![hi, lo, (tci / 256) as u8, (tci % 256) as u8] + f.skip(12)
}

/// The tags are read the same four bytes further on.
proof fn lemma_tags_further_on(f: Seq<u8>, g: Seq<u8>, et: u16, off: int)
    requires
        g.len() == f.len() + 4,
        off >= 0,
        forall|i: int| off <= i < f.len() ==> #[trigger] g[i + 4] == f[i],
    ensures
        tag_stack(g, et, off + 4).tcis == tag_stack(f, et, off).tcis,
        tag_stack(f, et, off).end is None <==> tag_stack(g, et, off + 4).end is None,
        tag_stack(f, et, off).end matches Some((e, o)) ==> tag_stack(g, et, off + 4).end == Some((e, o + 4)),
    decreases f.len() - off,
{
    if is_vlan_tag(et) {
        if off + 1 < f.len() {
            assert(g[off + 4] == f[off] && g[(off + 1) + 4] == f[off + 1]);
        }
        assert(be16_at(g, off + 4) == be16_at(f, off));
        if off + 3 < f.len() {
            assert(g[(off + 2) + 4] == f[off + 2] && g[(off + 3) + 4] == f[off + 3]);
            assert(be16_at(g, off + 6) == be16_at(f, off + 2));
            lemma_tags_further_on(f, g, be16_at(f, off + 2)->0, off + 4);
        }
    }
}

/// A VLAN tag, 802.1Q or 802.1ad, hides nothing of an Ethernet frame: the ethertype
/// is the same, its network layer starts four bytes further on, and the tag comes
/// before those that the frame had.
pub proof fn law_tag_hides_nothing(f: Seq<u8>, hi: u8, lo: u8, tci: u16)
    requires
        f.len() >= 14,
        hi == 0x81 && lo == 0x00 || hi == 0x88 && lo == 0xa8,
    ensures
        ({
            let g = tagged_with(f, hi, lo, tci);
            &&& l2_of(f, 1) is None <==> l2_of(g, 1) is None
            &&& l2_of(f, 1) matches Some((et, off)) ==> l2_of(g, 1) == Some((et, off + 4))
            &&& tag_stack(g, be16_at(g, 12)->0, 14).tcis == seq![tci] + tag_stack(f, be16_at(f, 12)->0, 14).tcis
        }),
{
    let g = tagged_with(f, hi, lo, tci);
    assert(g.len() == f.len() + 4);
    assert(g[12] == hi && g[13] == lo && g[14] == (tci / 256) as u8 && g[15] == (tci % 256) as u8);
    assert(g[16] == f[12] && g[17] == f[13]);
    assert((tci / 256) * 256 + tci % 256 == tci);
    assert(be16_at(g, 14) == Some(tci));
    assert(be16_at(g, 16) == be16_at(f, 12));
    assert(forall|i: int| 14 <= i < f.len() ==> #[trigger] g[i + 4] == f[i]);
    lemma_tags_further_on(f, g, be16_at(f, 12)->0, 14);
}

/// Without a tag, the ethertype of an Ethernet frame is its bytes twelve and
/// thirteen, and the network layer starts at byte fourteen.
pub proof fn law_untagged_frame(f: Seq<u8>)
    requires
        f.len() >= 14,
        f[12] * 256 + f[13] != 0x8100,
        f[12] * 256 + f[13] != 0x88a8,
    ensures
        l2_of(f, 1) matches Some((et, off)) && et == f[12] * 256 + f[13] && off == 14,
        tag_stack(f, be16_at(f, 12)->0, 14).tcis.len() == 0,
{
}

/// A Linux cooked frame has its ethertype at byte fourteen and its network layer at
/// byte sixteen; a raw packet tells its version in its first four bits; of no other
/// link type is anything read.
pub proof fn law_other_links(f: Seq<u8>, link: i32)
    requires
        link != 1,
    ensures
        link == 113 && f.len() >= 16 ==> (l2_of(f, link) matches Some((et, off)) && et == f[14] * 256 + f[15] && off
            == 16),
        link == 113 && f.len() < 16 ==> l2_of(f, link) is None,
        link == 101 && f.len() > 0 ==> l2_of(f, link) == Some((
            if f[0] / 16 == 6 {
                0x86ddu16
            } else {
                0x0800u16
            },
            0int,
        )),
        link == 101 && f.len() == 0 ==> l2_of(f, link) is None,
        link != 101 && link != 113 ==> l2_of(f, link) is None,
{
}

/// An IP packet whose transport starts at `off` in a frame: `proto` is its protocol.
pub open spec fn carries(f: Seq<u8>, link: i32, proto: u8, off: int) -> bool {
    l2_of(f, link) matches Some((et, l3)) && {
        ||| {
            &&& et == 0x0800
            &&& l3 + 20 <= off <= f.len()
            &&& off == l3 + 4 * (f[l3] % 16)
            &&& f[l3 + 9] == proto
        }
        ||| et == 0x86dd && l3 + 6 < f.len() && off == l3 + 40 && f[l3 + 6] == proto
    }
}

proof fn lemma_carries(f: Seq<u8>, link: i32, proto: u8, off: int)
    requires
        carries(f, link, proto, off),
    ensures
        outer_ip(f, link) == Some((proto, off)),
{
    lemma_l2_within(f, link);
    let (et, l3) = l2_of(f, link)->0;
    if et == 0x0800 {
        let d = tail(f, l3);
        assert(d[0] == f[l3] && d[9] == f[l3 + 9]);
    }
}

proof fn lemma_tags_within(f: Seq<u8>, et: u16, off: int)
    requires
        0 <= off <= f.len(),
    ensures
        tag_stack(f, et, off).end matches Some((_, o)) ==> off <= o <= f.len(),
    decreases f.len() - off,
{
    if is_vlan_tag(et) {
        if let Some(next) = be16_at(f, off + 2) {
            lemma_tags_within(f, next, off + 4);
        }
    }
}

proof fn lemma_l2_within(f: Seq<u8>, link: i32)
    ensures
        l2_of(f, link) matches Some((_, off)) ==> 0 <= off <= f.len(),
{
    if link == 1 && f.len() >= 14 {
        lemma_tags_within(f, be16_at(f, 12)->0, 14);
    }
}

/// A datagram to UDP port 4789 or 8472 is VXLAN: it carries the Ethernet frame
/// behind sixteen bytes of UDP and VXLAN header. The old port is noted, and so is a
/// header whose flag that its network identifier is valid, bit three of its first
/// byte, is clear.
pub proof fn law_vxlan_layer(f: Seq<u8>, link: i32, off: int)
    requires
        carries(f, link, 17, off),
        off + 16 <= f.len(),
        f[off + 2] * 256 + f[off + 3] == 4789 || f[off + 2] * 256 + f[off + 3] == 8472,
    ensures
        ({
            let l = layer_of(f, link);
            &&& l.vxlan && !l.gre && !l.erspan && !l.geneve
            &&& l.vxlan_legacy <==> f[off + 2] * 256 + f[off + 3] == 8472
            &&& l.vxlan_bad <==> (f[off + 8] / 8) % 2 == 0
            &&& l.inner == Some((f.skip(off + 16), 1i32, "VXLAN"@))
        }),
{
    lemma_carries(f, link, 17, off);
    lemma_l2_within(f, link);
    let b = f[off + 8];
    assert((b & 0x08 == 0) == ((b / 8) % 2 == 0)) by (bit_vector);
    assert(tail(f, off + 16) =~= f.skip(off + 16));
}

/// A datagram to UDP port 6081 is Geneve, which is counted and not looked into; one
/// to any port but these three, or cut before its port, is no tunnel.
pub proof fn law_other_datagrams(f: Seq<u8>, link: i32, off: int)
    requires
        carries(f, link, 17, off),
        off + 4 <= f.len() ==> f[off + 2] * 256 + f[off + 3] != 4789 && f[off + 2] * 256 + f[off + 3] != 8472,
    ensures
        ({
            let l = layer_of(f, link);
            &&& !l.vxlan && !l.gre && !l.erspan && !l.vxlan_legacy && !l.vxlan_bad
            &&& l.geneve <==> off + 4 <= f.len() && f[off + 2] * 256 + f[off + 3] == 6081
            &&& l.inner is None
        }),
{
    lemma_carries(f, link, 17, off);
    lemma_l2_within(f, link);
}

/// The length of a GRE header: four bytes, and four more for each of its first four
/// flag bits that is set.
pub proof fn law_gre_length(flags: u16)
    ensures
        gre_len(flags) == 4 + 4 * ((flags / 0x8000) % 2) + 4 * ((flags / 0x4000) % 2) + 4 * ((flags / 0x2000) % 2) + 4
            * ((flags / 0x1000) % 2),
{
    assert((flags & 0x8000 != 0) == ((flags / 0x8000) % 2 == 1)) by (bit_vector);
    assert((flags & 0x4000 != 0) == ((flags / 0x4000) % 2 == 1)) by (bit_vector);
    assert((flags & 0x2000 != 0) == ((flags / 0x2000) % 2 == 1)) by (bit_vector);
    assert((flags & 0x1000 != 0) == ((flags / 0x1000) % 2 == 1)) by (bit_vector);
}

/// A GRE packet is told apart by the type in its third and fourth byte: ERSPAN II
/// carries an Ethernet frame behind eight more bytes, ERSPAN III behind twelve;
/// transparent bridging carries one, and IPv4 and IPv6 a packet, right behind the
/// header. Of any other type nothing is carried.
pub proof fn law_gre_layer(f: Seq<u8>, link: i32, off: int)
    requires
        carries(f, link, 47, off),
        off + 28 + 12 <= f.len(),
    ensures
        ({
            let l = layer_of(f, link);
            let kind = f[off + 2] * 256 + f[off + 3];
            let flags = f[off] / 16;
            let body = off + 4 + 4 * ((flags / 8) % 2) + 4 * ((flags / 4) % 2) + 4 * ((flags / 2) % 2) + 4 * (flags % 2);
            &&& l.gre && !l.vxlan && !l.vxlan_legacy && !l.vxlan_bad && !l.geneve
            &&& l.erspan <==> kind == 0x88be || kind == 0x22eb
            &&& kind == 0x88be ==> l.inner == Some((f.skip(body + 8), 1i32, "GRE/ERSPAN"@))
            &&& kind == 0x22eb ==> l.inner == Some((f.skip(body + 12), 1i32, "GRE/ERSPAN"@))
            &&& kind == 0x6558 ==> l.inner == Some((f.skip(body), 1i32, "GRE"@))
            &&& kind == 0x0800 || kind == 0x86dd ==> l.inner == Some((f.skip(body), 101i32, "GRE"@))
            &&& l.inner is Some ==> kind == 0x88be || kind == 0x22eb || kind == 0x6558 || kind == 0x0800 || kind
                == 0x86dd
        }),
{
    lemma_carries(f, link, 47, off);
    lemma_l2_within(f, link);
    let flags = be16_at(f, off)->0;
    law_gre_length(flags);
    let h = f[off];
    assert(flags / 0x8000 == h / 128 && flags / 0x4000 == h / 64 && flags / 0x2000 == h / 32 && flags / 0x1000 == h
        / 16);
    let body = off + gre_len(flags);
    assert(tail(f, body) =~= f.skip(body));
    assert(tail(f, body + 8) =~= f.skip(body + 8));
    assert(tail(f, body + 12) =~= f.skip(body + 12));
}

/// A frame without IP, or with IP of any protocol but GRE and UDP, is no tunnel.
pub proof fn law_no_tunnel(f: Seq<u8>, link: i32, proto: u8, off: int)
    requires
        (l2_of(f, link) matches Some((et, _)) ==> et != 0x0800 && et != 0x86dd) || carries(f, link, proto, off) && proto
            != 47 && proto != 17,
    ensures
        layer_of(f, link) == no_tunnel(),
        layer_of(f, link).inner is None,
        !layer_of(f, link).gre && !layer_of(f, link).vxlan && !layer_of(f, link).geneve && !layer_of(f, link).erspan,
{
    if carries(f, link, proto, off) {
        lemma_carries(f, link, proto, off);
    }
}

/// Six link types have a name; any other is called by its number.
pub proof fn law_link_names(lt: i32)
    ensures
        linktype_text(lt) == (match lt {
            0 => "Null/Loopback"@,
            1 => "Ethernet"@,
            101 => "Raw IP"@,
            105 => "IEEE 802.11"@,
            113 => "Linux SLL"@,
            127 => "802.11 radiotap"@,
            _ => "LINKTYPE_"@ + (if lt < 0 {
                seq!['-'] + decimal(-(lt as int) as nat)
            } else {
                decimal(lt as nat)
            }),
        }),
{
    if lt < 0 {
        assert("LINKTYPE_"@.push('-') + decimal((-lt) as nat) =~= "LINKTYPE_"@ + (seq!['-'] + decimal((-lt) as nat)));
    }
}

/// Six IP protocols have a name.
pub proof fn law_protocol_names(p: u8)
    ensures
        proto_text(p) == (match p {
            1 => "ICMP"@,
            2 => "IGMP"@,
            6 => "TCP"@,
            17 => "UDP"@,
            89 => "OSPF"@,
            112 => "VRRP"@,
            _ => "IPproto"@,
        }),
{
}

/// An IPv4 header that claims less than twenty bytes, or more than the frame holds,
/// carries no tunnel; nor does an IPv6 header without its seventh byte.
pub proof fn law_broken_headers_carry_nothing(f: Seq<u8>, link: i32)
    requires
        l2_of(f, link) is Some,
        ({
            let (et, l3) = l2_of(f, link)->0;
            ||| et == 0x0800 && (l3 >= f.len() || f[l3] % 16 < 5 || l3 + 4 * (f[l3] % 16) > f.len())
            ||| et == 0x86dd && l3 + 6 >= f.len()
        }),
    ensures
        layer_of(f, link) == no_tunnel(),
{
    lemma_l2_within(f, link);
    let (et, l3) = l2_of(f, link)->0;
    if et == 0x0800 && l3 < f.len() {
        assert(tail(f, l3)[0] == f[l3]);
    }
}

/// A tunnel that is cut within its header is counted: one of VXLAN carries an empty
/// frame and tells nothing of its flags, one of GRE carries nothing.
pub proof fn law_cut_tunnels(f: Seq<u8>, link: i32, off: int)
    ensures
        carries(f, link, 17, off) && off + 4 <= f.len() < off + 16 && f[off + 2] * 256 + f[off + 3] == 4789 ==> ({
            let l = layer_of(f, link);
            l.vxlan && !l.vxlan_bad && !l.vxlan_legacy && l.inner == Some((Seq::<u8>::empty(), 1i32, "VXLAN"@))
        }),
        carries(f, link, 47, off) && f.len() < off + 4 ==> ({
            let l = layer_of(f, link);
            l.gre && !l.erspan && l.inner is None
        }),
{
    lemma_l2_within(f, link);
    if carries(f, link, 17, off) {
        lemma_carries(f, link, 17, off);
    }
    if carries(f, link, 47, off) {
        lemma_carries(f, link, 47, off);
    }
}

} // verus!
