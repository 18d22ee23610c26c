//! Hosts on the wire: one tag byte, then the octets of an address or a
//! length-prefixed name. Protocols differ only in the tags.
use crate::octets::{array16, array4, push_all};
use crate::text::{from_utf8, lemma_utf8_round_trip, text_from_utf8, utf8, utf8_error};
use crate::types::{Host, HostModel, IpAddress, IpModel};
use vstd::prelude::*;
use vstd::slice::slice_subrange;

verus! {

/// The tag bytes of a protocol.
#[derive(Clone, Copy, Debug)]
pub struct Tags {
    pub v4: u8,
    pub domain: u8,
    pub v6: u8,
}

impl Tags {
    /// Whether the three tags differ.
    pub open spec fn distinct(self) -> bool {
        self.v4 != self.domain && self.domain != self.v6 && self.v4 != self.v6
    }
}

/// Whether a host can be written: a name takes at most 255 bytes.
pub open spec fn host_fits(host: HostModel) -> bool {
    host matches HostModel::Domain(name) ==> utf8(name).len() <= 255
}

/// A host on the wire.
pub open spec fn host_bytes(tags: Tags, host: HostModel) -> Seq<u8> {
    match host {
        HostModel::Ip(IpModel::V4(octets)) => seq![tags.v4] + octets,
        HostModel::Ip(IpModel::V6(octets)) => seq![tags.v6] + octets,
        HostModel::Domain(name) => seq![tags.domain, utf8(name).len() as u8] + utf8(name),
    }
}

/// Appends a host, unless its name is too long; then nothing is appended.
pub fn push_host(out: &mut Vec<u8>, tags: Tags, host: &Host) -> (written: bool)
    ensures
        written == host_fits(host@),
        written ==> final(out)@ == old(out)@ + host_bytes(tags, host@),
        !written ==> final(out)@ == old(out)@,
{
    match host {
        Host::Ip(IpAddress::V4(octets)) => {
            out.push(tags.v4);
            push_all(out, octets);
        },
        Host::Ip(IpAddress::V6(octets)) => {
            out.push(tags.v6);
            push_all(out, octets);
        },
        Host::Domain(name) => {
            let bytes = name.as_str().as_bytes();
            if bytes.len() > 255 {
                return false;
            }
            out.push(tags.domain);
            out.push(bytes.len() as u8);
            push_all(out, bytes);
        },
    }
    assert(out@ =~= old(out)@ + host_bytes(tags, host@));
    true
}

/// What stands at a place where a host is expected.
pub enum HostScanModel {
    /// More bytes are needed.
    Short,
    /// A name that is no UTF-8.
    BadText(Seq<u8>),
    /// A tag of no known kind.
    Unknown(u8),
    /// A host and where it ends.
    Found(HostModel, int),
}

/// Reads the host that starts at `at`.
pub open spec fn scan_host(tags: Tags, bytes: Seq<u8>, at: int) -> HostScanModel {
    if bytes.len() <= at {
        HostScanModel::Short
    } else if bytes[at] == tags.v4 {
        if bytes.len() < at + 5 {
            HostScanModel::Short
        } else {
            HostScanModel::Found(HostModel::Ip(IpModel::V4(bytes.subrange(at + 1, at + 5))), at + 5)
        }
    } else if bytes[at] == tags.domain {
        if bytes.len() < at + 2 {
            HostScanModel::Short
        } else {
            let end = at + 2 + bytes[at + 1];
            if bytes.len() < end {
                HostScanModel::Short
            } else {
                match from_utf8(bytes.subrange(at + 2, end)) {
                    Some(name) => HostScanModel::Found(HostModel::Domain(name), end),
                    None => HostScanModel::BadText(bytes.subrange(at + 2, end)),
                }
            }
        }
    } else if bytes[at] == tags.v6 {
        if bytes.len() < at + 17 {
            HostScanModel::Short
        } else {
            HostScanModel::Found(
                HostModel::Ip(IpModel::V6(bytes.subrange(at + 1, at + 17))),
                at + 17,
            )
        }
    } else {
        HostScanModel::Unknown(bytes[at])
    }
}

/// What [`read_host`] found.
pub enum HostScan {
    Short,
    /// The text of the decoding error.
    BadText(String),
    Unknown(u8),
    Found(Host, usize),
}

impl HostScan {
    /// Whether this is what `model` says.
    pub open spec fn is(self, model: HostScanModel) -> bool {
        match model {
            HostScanModel::Short => self is Short,
            HostScanModel::BadText(bytes) => self matches HostScan::BadText(error) && error@
                == utf8_error(bytes),
            HostScanModel::Unknown(tag) => self == HostScan::Unknown(tag),
            HostScanModel::Found(host, end) => self matches HostScan::Found(found, stop)
                && found@ == host && stop == end,
        }
    }
}

/// Reads the host that starts at `at`.
pub fn read_host(tags: Tags, bytes: &[u8], at: usize) -> (scan: HostScan)
    requires
        at <= bytes@.len(),
    ensures
        scan.is(scan_host(tags, bytes@, at as int)),
        scan matches HostScan::Found(_, end) ==> at < end <= bytes@.len(),
{
    let len: usize = bytes.len();
    if len <= at {
        return HostScan::Short;
    }
    let have: usize = len - at;
    let tag = bytes[at];
    if tag == tags.v4 {
        if have < 5 {
            return HostScan::Short;
        }
        HostScan::Found(Host::Ip(IpAddress::V4(array4(bytes, at + 1))), at + 5)
    } else if tag == tags.domain {
        if have < 2 {
            return HostScan::Short;
        }
        let name_len: usize = bytes[at + 1] as usize;
        if have - 2 < name_len {
            return HostScan::Short;
        }
        let end: usize = at + 2 + name_len;
        match text_from_utf8(slice_subrange(bytes, at + 2, end)) {
            Ok(name) => HostScan::Found(Host::Domain(name), end),
            Err(error) => HostScan::BadText(error),
        }
    } else if tag == tags.v6 {
        if have < 17 {
            return HostScan::Short;
        }
        HostScan::Found(Host::Ip(IpAddress::V6(array16(bytes, at + 1))), at + 17)
    } else {
        HostScan::Unknown(tag)
    }
}

/// A host that was written is read back, whatever stands before and after it.
pub proof fn lemma_host_round_trip(
    tags: Tags,
    host: HostModel,
    bytes: Seq<u8>,
    at: int,
    after: Seq<u8>,
)
    requires
        tags.distinct(),
        host.wf(),
        host_fits(host),
        0 <= at <= bytes.len(),
        bytes.skip(at) == host_bytes(tags, host) + after,
    ensures
        scan_host(tags, bytes, at) == HostScanModel::Found(
            host,
            at + host_bytes(tags, host).len(),
        ),
{
    let rest = bytes.skip(at);
    let wire = host_bytes(tags, host);
    assert(rest.len() == wire.len() + after.len());
    assert forall|i: int| 0 <= i < wire.len() implies #[trigger] bytes[at + i] == wire[i] by {
        assert(rest[i] == wire[i]);
    }
    assert(bytes[at + 0] == wire[0]);
    match host {
        HostModel::Ip(IpModel::V4(octets)) => {
            assert(bytes.subrange(at + 1, at + 5) =~= octets) by {
                assert forall|i: int| 0 <= i < 4 implies bytes[at + 1 + i] == octets[i] by {
                    assert(bytes[at + (1 + i)] == wire[1 + i]);
                }
            }
        },
        HostModel::Ip(IpModel::V6(octets)) => {
            assert(bytes.subrange(at + 1, at + 17) =~= octets) by {
                assert forall|i: int| 0 <= i < 16 implies bytes[at + 1 + i] == octets[i] by {
                    assert(bytes[at + (1 + i)] == wire[1 + i]);
                }
            }
        },
        HostModel::Domain(name) => {
            let text = utf8(name);
            assert(bytes[at + 1] == wire[1]);
            assert(bytes.subrange(at + 2, at + 2 + text.len()) =~= text) by {
                assert forall|i: int| 0 <= i < text.len() implies bytes[at + 2 + i] == text[i] by {
                    assert(bytes[at + (2 + i)] == wire[2 + i]);
                }
            }
            lemma_utf8_round_trip(name);
        },
    }
}

/// Bytes that follow do not change a host that was found.
pub proof fn lemma_scan_prefix(tags: Tags, bytes: Seq<u8>, more: Seq<u8>, at: int)
    requires
        0 <= at,
        !(scan_host(tags, bytes, at) is Short),
    ensures
        scan_host(tags, bytes + more, at) == scan_host(tags, bytes, at),
{
    let long = bytes + more;
    assert(long[at] == bytes[at]);
    if bytes[at] == tags.v4 {
        assert(long.subrange(at + 1, at + 5) =~= bytes.subrange(at + 1, at + 5));
    } else if bytes[at] == tags.domain {
        let end = at + 2 + bytes[at + 1];
        assert(long[at + 1] == bytes[at + 1]);
        assert(long.subrange(at + 2, end) =~= bytes.subrange(at + 2, end));
    } else if bytes[at] == tags.v6 {
        assert(long.subrange(at + 1, at + 17) =~= bytes.subrange(at + 1, at + 17));
    }
}

/// Whether the bytes from `at` on spell a host: a tag, then the octets of an
/// address, or the length of a name in one byte and the name.
pub open spec fn spells_host(
    bytes: Seq<u8>,
    at: int,
    v4: u8,
    domain: u8,
    v6: u8,
    host: HostModel,
) -> bool {
    match host {
        HostModel::Ip(IpModel::V4(octets)) => {
            &&& bytes.len() >= at + 5
            &&& bytes[at] == v4
            &&& bytes.subrange(at + 1, at + 5) == octets
        },
        HostModel::Ip(IpModel::V6(octets)) => {
            &&& bytes.len() >= at + 17
            &&& bytes[at] == v6
            &&& bytes.subrange(at + 1, at + 17) == octets
        },
        HostModel::Domain(name) => {
            &&& bytes.len() >= at + 2 + utf8(name).len()
            &&& bytes[at] == domain
            &&& bytes[at + 1] == utf8(name).len()
            &&& bytes.subrange(at + 2, at + 2 + utf8(name).len()) == utf8(name)
        },
    }
}

/// How many bytes a host takes.
pub open spec fn host_len(host: HostModel) -> int {
    match host {
        HostModel::Ip(IpModel::V4(_)) => 5,
        HostModel::Ip(IpModel::V6(_)) => 17,
        HostModel::Domain(name) => 2 + utf8(name).len() as int,
    }
}

/// A host that is written is spelled by its bytes, wherever they stand.
pub proof fn law_host_spelled(tags: Tags, host: HostModel, before: Seq<u8>, after: Seq<u8>)
    requires
        host.wf(),
        host_fits(host),
    ensures
        host_bytes(tags, host).len() == host_len(host),
        spells_host(
            before + host_bytes(tags, host) + after,
            before.len() as int,
            tags.v4,
            tags.domain,
            tags.v6,
            host,
        ),
{
    let bytes = before + host_bytes(tags, host) + after;
    let at = before.len() as int;
    match host {
        HostModel::Ip(IpModel::V4(octets)) => {
            assert(bytes.subrange(at + 1, at + 5) =~= octets);
        },
        HostModel::Ip(IpModel::V6(octets)) => {
            assert(bytes.subrange(at + 1, at + 17) =~= octets);
        },
        HostModel::Domain(name) => {
            assert(bytes.subrange(at + 2, at + 2 + utf8(name).len()) =~= utf8(name));
        },
    }
}

/// A name fits where it takes at most 255 bytes; addresses always do.
pub proof fn law_host_fits(host: HostModel)
    ensures
        host_fits(host) <==> match host {
            HostModel::Ip(_) => true,
            HostModel::Domain(name) => utf8(name).len() <= 255,
        },
{
}

/// A host that is spelled out is read, and where it ends; a name only where it
/// is text.
pub proof fn law_spelled_host_read(tags: Tags, bytes: Seq<u8>, at: int, host: HostModel)
    requires
        0 <= at,
        host.wf(),
        tags.v4 != tags.domain,
        tags.v4 != tags.v6,
        tags.domain != tags.v6,
        spells_host(bytes, at, tags.v4, tags.domain, tags.v6, host),
    ensures
        scan_host(tags, bytes, at) == HostScanModel::Found(host, at + host_len(host)),
{
    if let HostModel::Domain(name) = host {
        lemma_utf8_round_trip(name);
    }
}

/// A tag that is none of the three is reported, and bytes that end within a host
/// are too few.
pub proof fn law_no_host(tags: Tags, bytes: Seq<u8>, at: int)
    requires
        0 <= at <= bytes.len(),
    ensures
        bytes.len() == at ==> scan_host(tags, bytes, at) is Short,
        at < bytes.len() && bytes[at] != tags.v4 && bytes[at] != tags.domain && bytes[at]
            != tags.v6 ==> scan_host(tags, bytes, at) == HostScanModel::Unknown(bytes[at]),
        at < bytes.len() < at + 5 && bytes[at] == tags.v4 ==> scan_host(tags, bytes, at) is Short,
{
}

} // verus!
