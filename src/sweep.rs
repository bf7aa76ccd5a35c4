//! One discovery sweep: a broadcast ARP request for every address of the
//! subnet, and the map from hardware address to IPv4 address built from the
//! replies that arrived within the collection window.

use vstd::prelude::*;

use crate::frame::{encode_request, request_frame, ArpReply};
use crate::mac::MacAddr;
use crate::table::{pairs_map, MacTable};

verus! {

broadcast use vstd::seq_lib::lemma_seq_contains_after_push;

/// The collection window of a sweep, in milliseconds from its start.
pub const DEFAULT_WINDOW_MS: u64 = 2000;

/// The network mask of a prefix length of at most 32.
pub open spec fn netmask(prefix: u8) -> u32 {
    !((0xffff_ffffu64 >> (prefix as u64)) as u32)
}

/// The number of addresses in a network with this prefix length.
pub open spec fn host_count(prefix: u8) -> u64 {
    1u64 << ((32 - prefix) as u64)
}

proof fn lemma_network_room(addr: u32, p: u64)
    requires
        p <= 32,
    ensures
        ((addr & !((0xffff_ffffu64 >> p) as u32)) as u64) + (1u64 << ((32 - p) as u64))
            <= 0x1_0000_0000u64,
        1u64 << ((32 - p) as u64) >= 1,
{
    let h: u64 = (32 - p) as u64;
    assert(((addr & !((0xffff_ffffu64 >> p) as u32)) as u64) + (1u64 << h) <= 0x1_0000_0000u64
        && 1u64 << h >= 1) by (bit_vector)
        requires
            p <= 32,
            h == 32 - p,
    ;
}

/// An IPv4 network given by an address within it and a prefix length.
#[derive(Clone, Copy, Debug, PartialEq, Eq, Structural)]
pub struct Subnet {
    addr: u32,
    prefix: u8,
}

impl Subnet {
    #[verifier::type_invariant]
    spec fn inv(&self) -> bool {
        self.prefix <= 32
    }

    pub closed spec fn addr_spec(&self) -> u32 {
        self.addr
    }

    pub closed spec fn prefix_spec(&self) -> u8 {
        self.prefix
    }

    /// The lowest address of the network.
    pub open spec fn network_spec(&self) -> u32 {
        self.addr_spec() & netmask(self.prefix_spec())
    }

    /// Whether `ip` lies in the network.
    pub open spec fn contains_spec(&self, ip: u32) -> bool {
        ip & netmask(self.prefix_spec()) == self.network_spec()
    }

    /// The network of `addr` with `prefix` bits; `None` where the prefix is
    /// longer than 32.
    pub fn new(addr: u32, prefix: u8) -> (r: Option<Subnet>)
        ensures
            prefix <= 32 <==> r.is_some(),
            r.is_some() ==> r.unwrap().addr_spec() == addr && r.unwrap().prefix_spec() == prefix,
    {
        if prefix > 32 {
            None
        } else {
            Some(Subnet { addr, prefix })
        }
    }

    pub fn addr(&self) -> (r: u32)
        ensures
            r == self.addr_spec(),
    {
        self.addr
    }

    pub fn prefix(&self) -> (r: u8)
        ensures
            r == self.prefix_spec(),
            r <= 32,
    {
        proof {
            use_type_invariant(self);
        }
        self.prefix
    }

    pub fn network(&self) -> (r: u32)
        ensures
            r == self.network_spec(),
    {
        proof {
            use_type_invariant(self);
        }
        self.addr & !((0xffff_ffffu64 >> (self.prefix as u64)) as u32)
    }

    /// The number of addresses in the network, network and broadcast
    /// addresses included.
    pub fn size(&self) -> (r: u64)
        ensures
            r == host_count(self.prefix_spec()),
            r >= 1,
            self.network_spec() + r <= 0x1_0000_0000,
    {
        proof {
            use_type_invariant(self);
            lemma_network_room(self.addr, self.prefix as u64);
        }
        1u64 << ((32 - self.prefix) as u64)
    }

    /// The `n`-th address of the network, counted from its lowest.
    pub fn nth(&self, n: u64) -> (r: Option<u32>)
        ensures
            r == if n < host_count(self.prefix_spec()) {
                Some((self.network_spec() + n) as u32)
            } else {
                None::<u32>
            },
    {
        let size = self.size();
        if n < size {
            Some((self.network() as u64 + n) as u32)
        } else {
            None
        }
    }
}

/// What a sweep needs to know of the interface it runs on.
#[derive(Clone, Debug)]
pub struct Interface {
    pub name: String,
    pub hardware_address: MacAddr,
    pub source_ipv4: u32,
    pub subnet: Subnet,
}

/// The target address of the `i`-th request of a sweep of `subnet`.
pub open spec fn target_at(subnet: Subnet, i: int) -> u32 {
    (subnet.network_spec() + i) as u32
}

/// The requests of a sweep over the interface, in the order they are sent:
/// one for every address of the subnet, from the lowest up.
pub open spec fn sweep_requests(iface: Interface) -> Seq<Seq<u8>> {
    Seq::new(
        host_count(iface.subnet.prefix_spec()) as nat,
        |i: int| request_frame(iface.hardware_address, iface.source_ipv4, target_at(iface.subnet, i)),
    )
}

/// The `index`-th request frame of a sweep over the interface, or `None`
/// once every address of the subnet has had its request.
pub fn request_for(iface: &Interface, index: u64) -> (r: Option<Vec<u8>>)
    ensures
        match r {
            Some(f) => index < sweep_requests(*iface).len() && f@ == sweep_requests(*iface)[index as int],
            None => index >= sweep_requests(*iface).len(),
        },
{
    match iface.subnet.nth(index) {
        Some(target) => Some(encode_request(iface.hardware_address, iface.source_ipv4, target)),
        None => None,
    }
}

/// A sweep sends exactly one request per address of the subnet: as many
/// requests as the subnet has addresses, to pairwise different targets,
/// each of them inside the subnet, and every address of the subnet is the
/// target of one of them.
pub proof fn lemma_one_request_per_address(iface: Interface)
    requires
        iface.subnet.prefix_spec() <= 32,
    ensures
        sweep_requests(iface).len() == host_count(iface.subnet.prefix_spec()),
        forall|i: int, j: int|
            0 <= i < j < sweep_requests(iface).len() ==> target_at(iface.subnet, i) != target_at(
                iface.subnet,
                j,
            ),
        forall|i: int|
            0 <= i < sweep_requests(iface).len() ==> #[trigger] iface.subnet.contains_spec(
                target_at(iface.subnet, i),
            ),
        forall|a: u32|
            #[trigger] iface.subnet.contains_spec(a) ==> exists|i: int|
                0 <= i < sweep_requests(iface).len() && target_at(iface.subnet, i) == a,
{
    let s = iface.subnet;
    let a = s.addr_spec();
    let p = s.prefix_spec() as u64;
    let n = host_count(s.prefix_spec());
    lemma_network_room(a, p);
    assert forall|i: int| 0 <= i < sweep_requests(iface).len() implies #[trigger] s.contains_spec(
        target_at(s, i),
    ) by {
        let k = i as u64;
        let h: u64 = (32 - p) as u64;
        assert(k < n);
        let t = target_at(s, i);
        assert(t == ((a & !((0xffff_ffffu64 >> p) as u32)) as u64 + k) as u32);
        assert((((a & !((0xffff_ffffu64 >> p) as u32)) as u64 + k) as u32) & !((0xffff_ffffu64
            >> p) as u32) == a & !((0xffff_ffffu64 >> p) as u32)) by (bit_vector)
            requires
                p <= 32,
                h == 32 - p,
                k < (1u64 << h),
        ;
    }
    assert forall|x: u32| #[trigger] s.contains_spec(x) implies exists|i: int|
        0 <= i < sweep_requests(iface).len() && target_at(s, i) == x by {
        let h: u64 = (32 - p) as u64;
        let net = a & !((0xffff_ffffu64 >> p) as u32);
        assert(x & !((0xffff_ffffu64 >> p) as u32) == net);
        assert((x as u64) >= (net as u64) && (x as u64) - (net as u64) < (1u64 << h)) by (bit_vector)
            requires
                p <= 32,
                h == 32 - p,
                net == a & !((0xffff_ffffu64 >> p) as u32),
                x & !((0xffff_ffffu64 >> p) as u32) == net,
        ;
        let i: int = x as int - net as int;
        assert(target_at(s, i) == x);
    }
}

/// A reply together with when it arrived, in milliseconds from the start
/// of the sweep.
#[derive(Clone, Copy, Debug, PartialEq, Eq, Structural)]
pub struct TimedReply {
    pub reply: ArpReply,
    pub at_ms: u64,
}

/// The pairs (hardware address, IPv4 address) of the replies that arrived
/// before the window closed, in the order the replies were processed.
pub open spec fn arrived(s: Seq<TimedReply>, window_ms: u64) -> Seq<(MacAddr, u32)>
    decreases s.len(),
{
    if s.len() == 0 {
        Seq::empty()
    } else {
        let rest = arrived(s.drop_last(), window_ms);
        if s.last().at_ms < window_ms {
            rest.push((s.last().reply.mac, s.last().reply.ip))
        } else {
            rest
        }
    }
}

/// The result of a sweep whose replies were processed in the order `s`.
pub open spec fn sweep_map(s: Seq<TimedReply>, window_ms: u64) -> Map<MacAddr, u32> {
    pairs_map(arrived(s, window_ms))
}

/// The result of a sweep: for each hardware address that replied, the IPv4
/// address it announced last.
pub type SweepResult = MacTable<u32>;

/// Builds the result of a sweep from the replies in the order they were
/// processed: replies that arrived at or after the close of the window are
/// left out, and a later reply for a hardware address overwrites an
/// earlier one.
pub fn collect_replies(replies: &Vec<TimedReply>, window_ms: u64) -> (r: SweepResult)
    ensures
        r@ == sweep_map(replies@, window_ms),
{
    let mut result: SweepResult = MacTable::new();
    let mut i: usize = 0;
    while i < replies.len()
        invariant
            i <= replies@.len(),
            result@ == sweep_map(replies@.take(i as int), window_ms),
        decreases replies@.len() - i,
    {
        let r = replies[i];
        let ghost t = replies@.take(i + 1);
        assert(t.drop_last() =~= replies@.take(i as int));
        assert(t.last() == r);
        if r.at_ms < window_ms {
            result.insert(r.reply.mac, r.reply.ip);
            assert(arrived(t, window_ms).drop_last() =~= arrived(
                replies@.take(i as int),
                window_ms,
            ));
        }
        i = i + 1;
    }
    assert(replies@.take(replies@.len() as int) =~= replies@);
    result
}

/// The result of a sweep depends only on which replies arrived before the
/// window closed, and in which order: two reply streams that agree on those
/// give the same result.
pub proof fn lemma_result_depends_on_arrivals(
    s1: Seq<TimedReply>,
    s2: Seq<TimedReply>,
    window_ms: u64,
)
    requires
        arrived(s1, window_ms) == arrived(s2, window_ms),
    ensures
        sweep_map(s1, window_ms) == sweep_map(s2, window_ms),
{
}

/// A reply that arrives at or after the close of the window leaves the
/// result as it was.
pub proof fn lemma_late_reply_ignored(s: Seq<TimedReply>, late: TimedReply, window_ms: u64)
    requires
        late.at_ms >= window_ms,
    ensures
        sweep_map(s.push(late), window_ms) == sweep_map(s, window_ms),
{
    assert(s.push(late).drop_last() =~= s);
}

/// When two replies within the window give different IPv4 addresses for
/// one hardware address, the result holds the address of the later one.
pub proof fn lemma_later_reply_wins(
    s: Seq<TimedReply>,
    first: TimedReply,
    second: TimedReply,
    window_ms: u64,
)
    requires
        first.at_ms < window_ms,
        second.at_ms < window_ms,
        first.reply.mac == second.reply.mac,
    ensures
        sweep_map(s.push(first).push(second), window_ms).contains_key(second.reply.mac),
        sweep_map(s.push(first).push(second), window_ms)[second.reply.mac] == second.reply.ip,
{
    let t = s.push(first).push(second);
    assert(t.drop_last() =~= s.push(first));
    assert(s.push(first).drop_last() =~= s);
    let a = arrived(t, window_ms);
    assert(a.drop_last() =~= arrived(s.push(first), window_ms));
}

/// The hosts are in ascending order of IPv4 address.
pub open spec fn sorted_by_address(s: Seq<(MacAddr, u32)>) -> bool {
    forall|i: int, j: int| 0 <= i < j < s.len() ==> #[trigger] s[i].1 <= #[trigger] s[j].1
}

/// The hosts of a sweep result, each once, in ascending order of IPv4
/// address.
pub fn hosts_by_address(result: &SweepResult) -> (r: Vec<(MacAddr, u32)>)
    ensures
        r@.len() == result.pairs().len(),
        sorted_by_address(r@),
        r@.to_set() == result.pairs().to_set(),
{
    let entries = result.entries();
    let mut r: Vec<(MacAddr, u32)> = Vec::new();
    let mut i: usize = 0;
    while i < entries.len()
        invariant
            i <= entries@.len(),
            entries@ == result.pairs(),
            r@.len() == i,
            sorted_by_address(r@),
            r@.to_set() == entries@.take(i as int).to_set(),
        decreases entries@.len() - i,
    {
        let e = entries[i];
        let mut pos: usize = 0;
        while pos < r.len() && r[pos].1 <= e.1
            invariant
                pos <= r@.len(),
                forall|k: int| 0 <= k < pos ==> #[trigger] r@[k].1 <= e.1,
            decreases r@.len() - pos,
        {
            pos = pos + 1;
        }
        let ghost before = r@;
        r.insert(pos, e);
        proof {
            before.insert_ensures(pos as int, e);
            assert(r@[pos as int] == e);
            assert forall|a: int, b: int| 0 <= a < b < r@.len() implies #[trigger] r@[a].1
                <= #[trigger] r@[b].1 by {
                if b < pos {
                } else if b == pos {
                    assert(r@[a] == before[a]);
                } else if a < pos {
                    assert(r@[b] == before[b - 1]);
                    assert(r@[a] == before[a]);
                    if pos < before.len() {
                        assert(before[pos as int].1 > e.1);
                        assert(before[pos as int].1 <= before[b - 1].1);
                    }
                } else if a == pos {
                    assert(r@[b] == before[b - 1]);
                    assert(before[pos as int].1 > e.1);
                    assert(before[pos as int].1 <= before[b - 1].1);
                } else {
                    assert(r@[b] == before[b - 1]);
                    assert(r@[a] == before[a - 1]);
                }
            }
            assert(entries@.take(i + 1) =~= entries@.take(i as int).push(e));
            assert forall|x: (MacAddr, u32)| r@.contains(x) <==> before.contains(x) || x == e by {
                if r@.contains(x) {
                    let k = choose|k: int| 0 <= k < r@.len() && r@[k] == x;
                    if k < pos {
                        assert(before[k] == x);
                    } else if k > pos {
                        assert(before[k - 1] == x);
                    }
                }
                if before.contains(x) {
                    let k = choose|k: int| 0 <= k < before.len() && before[k] == x;
                    if k < pos {
                        assert(r@[k] == x);
                    } else {
                        assert(r@[k + 1] == x);
                    }
                }
            }
            assert forall|x: (MacAddr, u32)| #[trigger] r@.to_set().contains(x) == entries@.take(
                i + 1,
            ).to_set().contains(x) by {
                assert(before.to_set().contains(x) == entries@.take(i as int).to_set().contains(x));
                assert(entries@.take(i as int).push(e).contains(x) == (entries@.take(
                    i as int,
                ).contains(x) || x == e));
            }
            assert(r@.to_set() =~= entries@.take(i + 1).to_set());
        }
        i = i + 1;
    }
    assert(entries@.take(entries@.len() as int) =~= entries@);
    r
}

} // verus!
