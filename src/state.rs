//! The state kept between runs (vendor names already looked up, and the
//! addresses to watch), its text form, and the vendor cache rules.
//!
//! In the text form a hardware address is written as six two-digit
//! lower-case hexadecimal bytes joined by colons (`aa:bb:cc:dd:ee:ff`).

use vstd::prelude::*;
use vstd::string::StringExecFns;

use crate::mac::MacAddr;
use crate::table::{keys_unique, pairs_map, MacTable};

verus! {

broadcast use vstd::seq_lib::lemma_seq_contains_after_push;

/// The lower-case hexadecimal digit of a value below 16.
pub open spec fn hex_digit(n: u8) -> char {
    if n < 10 {
        (48 + n) as char
    } else {
        (87 + n) as char
    }
}

/// A byte as two hexadecimal digits.
pub open spec fn byte_text(b: u8) -> Seq<char> {
    seq![hex_digit(b / 16), hex_digit(b % 16)]
}

/// The canonical text of a hardware address.
pub open spec fn mac_text(m: MacAddr) -> Seq<char> {
    byte_text(m.0) + seq![':'] + byte_text(m.1) + seq![':'] + byte_text(m.2) + seq![':']
        + byte_text(m.3) + seq![':'] + byte_text(m.4) + seq![':'] + byte_text(m.5)
}

/// The six bytes that pnet's parser reads from a text, if it accepts it.
pub uninterp spec fn parsed_mac(s: Seq<char>) -> Option<(u8, u8, u8, u8, u8, u8)>;

/// The address whose bytes are these.
pub open spec fn mac_of(b: (u8, u8, u8, u8, u8, u8)) -> MacAddr {
    MacAddr(b.0, b.1, b.2, b.3, b.4, b.5)
}

/// Relies on pnet's `Display` for `MacAddr`, which writes the six bytes
/// as `{:02x}` joined by colons.
#[verifier::external_body]
fn mac_to_text(m: MacAddr) -> (r: String)
    ensures
        r@ == mac_text(m),
{
    pnet_datalink::MacAddr::new(m.0, m.1, m.2, m.3, m.4, m.5).to_string()
}

/// Relies on pnet's `FromStr` for `MacAddr`: it splits the text at colons
/// and reads each of exactly six non-empty parts as a hexadecimal byte, so
/// that the canonical text of an address reads back as that address.
#[verifier::external_body]
fn parse_mac_text(s: &str) -> (r: Option<MacAddr>)
    ensures
        r == match parsed_mac(s@) {
            Some(b) => Some(mac_of(b)),
            None => None::<MacAddr>,
        },
        forall|m: MacAddr| s@ == mac_text(m) ==> r == Some(m),
{
    match s.parse::<pnet_datalink::MacAddr>() {
        Ok(m) => Some(MacAddr(m.0, m.1, m.2, m.3, m.4, m.5)),
        Err(_) => None,
    }
}

/// The state kept between runs.
pub struct StateProperties {
    pub stored_vendors: MacTable<String>,
    pub monitor_macs: Vec<MacAddr>,
}

/// The state kept between runs in text form, addresses written out.
#[derive(Clone, Debug, PartialEq, Eq)]
pub struct StateText {
    pub stored_vendors: Vec<(String, String)>,
    pub monitor_macs: Vec<String>,
}

impl StateProperties {
    /// No vendor names and no watched addresses: the state of a first run,
    /// or of a state file that is missing or unreadable.
    pub fn empty() -> (r: StateProperties)
        ensures
            r.stored_vendors@ == Map::<MacAddr, String>::empty(),
            r.monitor_macs@.len() == 0,
    {
        StateProperties { stored_vendors: MacTable::new(), monitor_macs: Vec::new() }
    }
}

/// The text form of a list of addresses.
pub open spec fn macs_text(s: Seq<MacAddr>) -> Seq<Seq<char>> {
    s.map_values(|m: MacAddr| mac_text(m))
}

/// The text form of the vendor table, entry by entry.
pub open spec fn vendors_text(s: Seq<(MacAddr, String)>) -> Seq<(Seq<char>, Seq<char>)> {
    s.map_values(|e: (MacAddr, String)| (mac_text(e.0), e.1@))
}

pub open spec fn text_view(t: StateText) -> (Seq<(Seq<char>, Seq<char>)>, Seq<Seq<char>>) {
    (
        t.stored_vendors@.map_values(|e: (String, String)| (e.0@, e.1@)),
        t.monitor_macs@.map_values(|s: String| s@),
    )
}

/// Writes the state in text form: every address as its canonical text,
/// the vendor entries in the table's order.
pub fn properties_to_text(p: &StateProperties) -> (r: StateText)
    ensures
        text_view(r) == (vendors_text(p.stored_vendors.pairs()), macs_text(p.monitor_macs@)),
{
    let entries = p.stored_vendors.entries();
    let mut vendors: Vec<(String, String)> = Vec::new();
    let mut i: usize = 0;
    while i < entries.len()
        invariant
            i <= entries@.len(),
            entries@ == p.stored_vendors.pairs(),
            vendors@.len() == i,
            forall|j: int|
                0 <= j < i ==> #[trigger] vendors@[j].0@ == mac_text(entries@[j].0) && vendors@[j].1@
                    == entries@[j].1@,
        decreases entries@.len() - i,
    {
        let key = mac_to_text(entries[i].0);
        let value = entries[i].1.clone();
        vendors.push((key, value));
        i = i + 1;
    }
    let mut monitor: Vec<String> = Vec::new();
    let mut i: usize = 0;
    while i < p.monitor_macs.len()
        invariant
            i <= p.monitor_macs@.len(),
            monitor@.len() == i,
            forall|j: int| 0 <= j < i ==> #[trigger] monitor@[j]@ == mac_text(p.monitor_macs@[j]),
        decreases p.monitor_macs@.len() - i,
    {
        monitor.push(mac_to_text(p.monitor_macs[i]));
        i = i + 1;
    }
    let r = StateText { stored_vendors: vendors, monitor_macs: monitor };
    assert(text_view(r).0 =~= vendors_text(p.stored_vendors.pairs()));
    assert(text_view(r).1 =~= macs_text(p.monitor_macs@));
    r
}

/// Every address in the text form is accepted by the parser.
pub open spec fn text_parses(t: StateText) -> bool {
    &&& forall|i: int|
        0 <= i < t.stored_vendors@.len() ==> (#[trigger] parsed_mac(t.stored_vendors@[i].0@)).is_some()
    &&& forall|i: int| 0 <= i < t.monitor_macs@.len() ==> (#[trigger] parsed_mac(t.monitor_macs@[i]@)).is_some()
}

/// The vendor entries of a text form that parses, addresses read.
pub open spec fn parsed_vendors(s: Seq<(String, String)>) -> Seq<(MacAddr, String)> {
    s.map_values(|e: (String, String)| (mac_of(parsed_mac(e.0@).unwrap()), e.1))
}

/// The vendor names of a vendor table, as text.
pub open spec fn names(m: Map<MacAddr, String>) -> Map<MacAddr, Seq<char>> {
    m.map_values(|s: String| s@)
}

/// `t` is the text form of `p`.
pub open spec fn is_text_of(t: StateText, p: StateProperties) -> bool {
    text_view(t) == (vendors_text(p.stored_vendors.pairs()), macs_text(p.monitor_macs@))
}

proof fn lemma_names_of_pairs(a: Seq<(MacAddr, String)>, b: Seq<(MacAddr, String)>)
    requires
        a.len() == b.len(),
        forall|j: int| 0 <= j < a.len() ==> #[trigger] a[j].0 == b[j].0 && a[j].1@ == b[j].1@,
    ensures
        names(pairs_map(a)) == names(pairs_map(b)),
    decreases a.len(),
{
    if a.len() > 0 {
        let (da, db) = (a.drop_last(), b.drop_last());
        assert forall|j: int| 0 <= j < da.len() implies #[trigger] da[j].0 == db[j].0 && da[j].1@
            == db[j].1@ by {
            assert(da[j] == a[j] && db[j] == b[j]);
        }
        lemma_names_of_pairs(da, db);
        assert(a[a.len() - 1].0 == b[b.len() - 1].0 && a[a.len() - 1].1@ == b[b.len() - 1].1@);
        let (ma, mb) = (pairs_map(a), pairs_map(b));
        assert(ma == pairs_map(da).insert(a.last().0, a.last().1));
        assert(mb == pairs_map(db).insert(b.last().0, b.last().1));
        assert(names(pairs_map(da)).dom() == pairs_map(da).dom());
        assert(names(pairs_map(db)).dom() == pairs_map(db).dom());
        assert(ma.dom() =~= mb.dom());
        assert forall|k: MacAddr| ma.contains_key(k) implies ma[k]@ == mb[k]@ by {
            if k != a.last().0 {
                assert(names(pairs_map(da))[k] == names(pairs_map(db))[k]);
            }
        }
        assert(names(ma) =~= names(mb));
    }
}

/// Reads the state from its text form: `None` unless every address in it
/// is accepted by the parser. A later entry for an address overwrites an
/// earlier one. The text form of a state reads back as that state.
pub fn properties_from_text(t: &StateText) -> (r: Option<StateProperties>)
    ensures
        r.is_some() == text_parses(*t),
        r.is_some() ==> r.unwrap().stored_vendors@ == pairs_map(parsed_vendors(t.stored_vendors@)),
        r.is_some() ==> r.unwrap().monitor_macs@ == t.monitor_macs@.map_values(
            |s: String| mac_of(parsed_mac(s@).unwrap()),
        ),
        forall|p: StateProperties|
            #[trigger] is_text_of(*t, p) ==> r.is_some() && names(r.unwrap().stored_vendors@)
                == names(p.stored_vendors@) && r.unwrap().monitor_macs@ == p.monitor_macs@,
{
    let ghost sv = t.stored_vendors@;
    let ghost mm = t.monitor_macs@;
    let mut vendors: MacTable<String> = MacTable::new();
    let mut i: usize = 0;
    while i < t.stored_vendors.len()
        invariant
            i <= sv.len(),
            sv == t.stored_vendors@,
            forall|j: int| 0 <= j < i ==> (#[trigger] parsed_mac(sv[j].0@)).is_some(),
            forall|j: int, m: MacAddr|
                0 <= j < i && #[trigger] sv[j].0@ == #[trigger] mac_text(m) ==> mac_of(
                    parsed_mac(sv[j].0@).unwrap(),
                ) == m,
            vendors@ == pairs_map(parsed_vendors(sv.take(i as int))),
        decreases sv.len() - i,
    {
        let parsed = parse_mac_text(t.stored_vendors[i].0.as_str());
        match parsed {
            Some(mac) => {
                vendors.insert(mac, t.stored_vendors[i].1.clone());
                assert(parsed_vendors(sv.take(i + 1)).drop_last() =~= parsed_vendors(
                    sv.take(i as int),
                ));
            },
            None => {
                proof {
                    assert forall|p: StateProperties| !#[trigger] is_text_of(*t, p) by {
                        if is_text_of(*t, p) {
                            let pp = p.stored_vendors.pairs();
                            assert(text_view(*t).0.len() == pp.len());
                            assert(text_view(*t).0[i as int] == (sv[i as int].0@, sv[i as int].1@));
                            assert(vendors_text(pp)[i as int] == (
                                mac_text(pp[i as int].0),
                                pp[i as int].1@,
                            ));
                            assert(sv[i as int].0@ == mac_text(pp[i as int].0));
                        }
                    }
                }
                return None;
            },
        }
        i = i + 1;
    }
    assert(sv.take(sv.len() as int) =~= sv);
    let mut monitor: Vec<MacAddr> = Vec::new();
    let mut i: usize = 0;
    while i < t.monitor_macs.len()
        invariant
            i <= mm.len(),
            mm == t.monitor_macs@,
            monitor@.len() == i,
            forall|j: int| 0 <= j < i ==> (#[trigger] parsed_mac(mm[j]@)).is_some(),
            forall|j: int| 0 <= j < i ==> #[trigger] monitor@[j] == mac_of(parsed_mac(mm[j]@).unwrap()),
            forall|j: int, m: MacAddr|
                0 <= j < i && #[trigger] mm[j]@ == #[trigger] mac_text(m) ==> monitor@[j] == m,
        decreases mm.len() - i,
    {
        let parsed = parse_mac_text(t.monitor_macs[i].as_str());
        match parsed {
            Some(mac) => {
                monitor.push(mac);
            },
            None => {
                proof {
                    assert forall|p: StateProperties| !#[trigger] is_text_of(*t, p) by {
                        if is_text_of(*t, p) {
                            let pm = p.monitor_macs@;
                            assert(text_view(*t).1.len() == pm.len());
                            assert(text_view(*t).1[i as int] == mm[i as int]@);
                            assert(macs_text(pm)[i as int] == mac_text(pm[i as int]));
                            assert(mm[i as int]@ == mac_text(pm[i as int]));
                        }
                    }
                }
                return None;
            },
        }
        i = i + 1;
    }
    assert(monitor@ =~= mm.map_values(|s: String| mac_of(parsed_mac(s@).unwrap())));
    proof {
        assert forall|p: StateProperties| #[trigger] is_text_of(*t, p) implies names(vendors@) == names(
            p.stored_vendors@,
        ) && monitor@ == p.monitor_macs@ by {
            let pv = parsed_vendors(sv);
            let pp = p.stored_vendors.pairs();
            assert(text_view(*t).0.len() == sv.len());
            assert(pv.len() == pp.len());
            assert forall|j: int| 0 <= j < pv.len() implies #[trigger] pv[j].0 == pp[j].0 && pv[j].1@
                == pp[j].1@ by {
                assert(text_view(*t).0.len() == pp.len());
                assert(text_view(*t).0[j] == (sv[j].0@, sv[j].1@));
                assert(vendors_text(pp)[j] == (mac_text(pp[j].0), pp[j].1@));
                assert(sv[j].0@ == mac_text(pp[j].0));
                assert(pv[j] == (mac_of(parsed_mac(sv[j].0@).unwrap()), sv[j].1));
            }
            lemma_names_of_pairs(pv, pp);
            assert(text_view(*t).1.len() == mm.len());
            assert(monitor@.len() == p.monitor_macs@.len());
            assert forall|j: int| 0 <= j < monitor@.len() implies monitor@[j] == p.monitor_macs@[j] by {
                assert(text_view(*t).1.len() == p.monitor_macs@.len());
                assert(text_view(*t).1[j] == mm[j]@);
                assert(macs_text(p.monitor_macs@)[j] == mac_text(p.monitor_macs@[j]));
                assert(mm[j]@ == mac_text(p.monitor_macs@[j]));
            }
            assert(monitor@ =~= p.monitor_macs@);
        }
    }
    Some(StateProperties { stored_vendors: vendors, monitor_macs: monitor })
}

/// The addresses whose vendor is not in the cache `stored`.
pub open spec fn not_cached(stored: Map<MacAddr, String>) -> spec_fn(MacAddr) -> bool {
    |m: MacAddr| !stored.contains_key(m)
}

/// Of `addresses`, in order, those whose vendor is not in the cache: the
/// only ones that need a lookup.
pub fn uncached_macs(addresses: &Vec<MacAddr>, stored: &MacTable<String>) -> (r: Vec<MacAddr>)
    ensures
        r@ == addresses@.filter(not_cached(stored@)),
{
    let mut r: Vec<MacAddr> = Vec::new();
    let mut i: usize = 0;
    while i < addresses.len()
        invariant
            i <= addresses@.len(),
            r@ == addresses@.take(i as int).filter(not_cached(stored@)),
        decreases addresses@.len() - i,
    {
        proof {
            assert(addresses@.take(i + 1) =~= addresses@.take(i as int).push(addresses@[i as int]));
            addresses@.take(i as int).lemma_filter_push(addresses@[i as int], not_cached(stored@));
        }
        if !stored.contains(&addresses[i]) {
            r.push(addresses[i]);
        }
        i = i + 1;
    }
    assert(addresses@.take(addresses@.len() as int) =~= addresses@);
    r
}

/// The vendor name to report for an address: the cached one, or
/// `Unknown`.
pub fn vendor_name(vendors: &MacTable<String>, mac: &MacAddr) -> (r: String)
    ensures
        r@ == if vendors@.contains_key(*mac) {
            vendors@[*mac]@
        } else {
            "Unknown"@
        },
{
    match vendors.get(mac) {
        Some(name) => name.clone(),
        None => String::from_str("Unknown"),
    }
}

} // verus!
