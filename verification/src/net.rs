//! Per-interface records and the registry merging two independent data
//! sources: an address listing and a traffic-counter report.
//!
//! The registry is a map from interface name to record. Address observations
//! merge field-wise and create missing records; counter observations update
//! existing records only and never create one. No record is ever removed.

use vstd::prelude::*;

use crate::text::parse_u64;
use crate::text::spec_lines;
use crate::text::spec_parse_u64;
use crate::text::spec_trim_char;
use crate::text::split_ws;
use crate::text::str_eq;
use crate::text::str_lines;
use crate::text::trim_char;
use crate::text::ws_tokens;

verus! {

/// Addresses and cumulative traffic counters of one network interface.
/// An address field is empty while that family was never observed.
#[derive(Clone, Debug)]
pub struct NetIntfInfo {
    pub ipv4: String,
    pub ipv6: String,
    pub rx: u64,
    pub tx: u64,
}

/// The mathematical image of one interface record.
pub struct NetIntfView {
    pub ipv4: Seq<char>,
    pub ipv6: Seq<char>,
    pub rx: u64,
    pub tx: u64,
}

impl View for NetIntfInfo {
    type V = NetIntfView;

    open spec fn view(&self) -> NetIntfView {
        NetIntfView { ipv4: self.ipv4@, ipv6: self.ipv6@, rx: self.rx, tx: self.tx }
    }
}

/// The record not yet observed: both address families empty, counters zero.
pub open spec fn empty_intf() -> NetIntfView {
    NetIntfView { ipv4: Seq::empty(), ipv6: Seq::empty(), rx: 0, tx: 0 }
}

/// The record after one address observation: field-level merge that never
/// clobbers the other address family or the counters, creating the record
/// when absent.
pub open spec fn merge_addr(prev: Option<NetIntfView>, addr: Seq<char>, v4: bool) -> NetIntfView {
    let base = match prev {
        Some(e) => e,
        None => empty_intf(),
    };
    if v4 {
        NetIntfView { ipv4: addr, ipv6: base.ipv6, rx: base.rx, tx: base.tx }
    } else {
        NetIntfView { ipv4: base.ipv4, ipv6: addr, rx: base.rx, tx: base.tx }
    }
}

/// The map image of a sequence of keyed records; on a duplicate key the later
/// entry wins (the registry keeps its keys unique, so this never matters).
pub open spec fn reg_map(s: Seq<(String, NetIntfInfo)>) -> Map<Seq<char>, NetIntfView>
    decreases s.len(),
{
    if s.len() == 0 {
        Map::empty()
    } else {
        reg_map(s.drop_last()).insert(s.last().0@, s.last().1@)
    }
}

proof fn lemma_reg_map_contains(s: Seq<(String, NetIntfInfo)>, k: Seq<char>)
    ensures
        reg_map(s).contains_key(k) <==> exists|i: int| 0 <= i < s.len() && #[trigger] s[i].0@ == k,
    decreases s.len(),
{
    if s.len() > 0 {
        lemma_reg_map_contains(s.drop_last(), k);
        if s.last().0@ == k {
            assert(s[s.len() - 1].0@ == k);
        } else if reg_map(s).contains_key(k) {
            let i = choose|i: int| 0 <= i < s.drop_last().len() && #[trigger] s.drop_last()[i].0@
                == k;
            assert(s[i].0@ == k);
        } else {
            if exists|i: int| 0 <= i < s.len() && #[trigger] s[i].0@ == k {
                let i = choose|i: int| 0 <= i < s.len() && #[trigger] s[i].0@ == k;
                assert(s.drop_last()[i].0@ == k);
            }
        }
    }
}

/// With unique keys, entry `i` is what the map holds for its key.
proof fn lemma_reg_map_entry(s: Seq<(String, NetIntfInfo)>, i: int)
    requires
        0 <= i < s.len(),
        forall|x: int, y: int|
            0 <= x < y < s.len() ==> (#[trigger] s[x].0)@ != (#[trigger] s[y].0)@,
    ensures
        reg_map(s).contains_key(s[i].0@),
        reg_map(s)[s[i].0@] == s[i].1@,
    decreases s.len(),
{
    if i == s.len() - 1 {
    } else {
        lemma_reg_map_entry(s.drop_last(), i);
        assert(s.drop_last()[i] == s[i]);
        assert(s[i].0@ != s[s.len() - 1].0@);
    }
}

/// Updating entry `i` in place is an insert on the map image, provided keys
/// are unique.
proof fn lemma_reg_map_update(s: Seq<(String, NetIntfInfo)>, i: int, e: (String, NetIntfInfo))
    requires
        0 <= i < s.len(),
        e.0@ == s[i].0@,
        forall|x: int, y: int|
            0 <= x < y < s.len() ==> (#[trigger] s[x].0)@ != (#[trigger] s[y].0)@,
    ensures
        reg_map(s.update(i, e)) == reg_map(s).insert(e.0@, e.1@),
    decreases s.len(),
{
    let t = s.update(i, e);
    if i == s.len() - 1 {
        assert(t.drop_last() =~= s.drop_last());
        assert(t.last() == e);
        assert(reg_map(t) == reg_map(s.drop_last()).insert(e.0@, e.1@));
        assert(reg_map(s.drop_last()).insert(s.last().0@, s.last().1@).insert(e.0@, e.1@)
            =~= reg_map(s.drop_last()).insert(e.0@, e.1@));
    } else {
        assert(t.drop_last() =~= s.drop_last().update(i, e));
        assert(t.last() == s.last());
        assert forall|x: int, y: int|
            0 <= x < y < s.drop_last().len() implies (#[trigger] s.drop_last()[x].0)@
            != (#[trigger] s.drop_last()[y].0)@ by {
            assert(s.drop_last()[x] == s[x]);
            assert(s.drop_last()[y] == s[y]);
        }
        assert(s.drop_last()[i] == s[i]);
        lemma_reg_map_update(s.drop_last(), i, e);
        assert(s.last().0@ != e.0@);
        assert(reg_map(s.drop_last()).insert(e.0@, e.1@).insert(s.last().0@, s.last().1@)
            =~= reg_map(s.drop_last()).insert(s.last().0@, s.last().1@).insert(e.0@, e.1@));
    }
}

/// The registry: a collection of interface records with unique names, viewed
/// as a map from name to record.
pub struct InterfaceRegistry {
    entries: Vec<(String, NetIntfInfo)>,
}

impl View for InterfaceRegistry {
    type V = Map<Seq<char>, NetIntfView>;

    closed spec fn view(&self) -> Map<Seq<char>, NetIntfView> {
        reg_map(self.entries@)
    }
}

impl InterfaceRegistry {
    /// Interface names are pairwise distinct.
    pub closed spec fn wf(&self) -> bool {
        forall|x: int, y: int|
            0 <= x < y < self.entries@.len() ==> (#[trigger] self.entries@[x].0)@
                != (#[trigger] self.entries@[y].0)@
    }

    /// Number of records held.
    pub closed spec fn count(&self) -> nat {
        self.entries@.len()
    }

    /// An empty registry.
    pub fn new() -> (r: InterfaceRegistry)
        ensures
            r.wf(),
            r@ == Map::<Seq<char>, NetIntfView>::empty(),
            r.count() == 0,
    {
        InterfaceRegistry { entries: Vec::new() }
    }

    /// Whether no interface was ever registered.
    pub fn is_empty(&self) -> (r: bool)
        ensures
            r == (self.count() == 0),
            r ==> self@ == Map::<Seq<char>, NetIntfView>::empty(),
    {
        self.entries.len() == 0
    }

    /// Number of records held.
    pub fn len(&self) -> (r: usize)
        ensures
            r == self.count(),
    {
        self.entries.len()
    }

    /// The name and record at position `i`, in insertion order.
    pub fn entry_at(&self, i: usize) -> (r: (&String, &NetIntfInfo))
        requires
            self.wf(),
            i < self.count(),
        ensures
            self@.contains_key(r.0@),
            self@[r.0@] == r.1@,
    {
        proof {
            lemma_reg_map_entry(self.entries@, i as int);
        }
        let e = &self.entries[i];
        (&e.0, &e.1)
    }

    /// Index of the entry named `name`, if any.
    fn find_index(&self, name: &str) -> (r: Option<usize>)
        ensures
            match r {
                Some(i) => i < self.entries@.len() && self.entries@[i as int].0@ == name@,
                None => !self@.contains_key(name@),
            },
    {
        let mut i: usize = 0;
        let n = self.entries.len();
        while i < n
            invariant
                n == self.entries@.len(),
                i <= n,
                forall|k: int| 0 <= k < i ==> (#[trigger] self.entries@[k].0)@ != name@,
            decreases n - i,
        {
            if str_eq(self.entries[i].0.as_str(), name) {
                return Some(i);
            }
            i = i + 1;
        }
        proof {
            lemma_reg_map_contains(self.entries@, name@);
        }
        None
    }

    /// Whether a record named `name` exists.
    pub fn contains(&self, name: &str) -> (r: bool)
        ensures
            r == self@.contains_key(name@),
    {
        proof {
            lemma_reg_map_contains(self.entries@, name@);
        }
        match self.find_index(name) {
            Some(i) => {
                proof {
                    assert(self.entries@[i as int].0@ == name@);
                }
                true
            },
            None => false,
        }
    }

    /// Merges one address observation into the record named `name`, creating
    /// the record when absent; the other address family and the counters are
    /// untouched.
    pub fn set_addr(&mut self, name: &str, addr: &str, v4: bool)
        requires
            old(self).wf(),
        ensures
            final(self).wf(),
            final(self)@ == old(self)@.insert(
                name@,
                merge_addr(
                    if old(self)@.contains_key(name@) {
                        Some(old(self)@[name@])
                    } else {
                        None
                    },
                    addr@,
                    v4,
                ),
            ),
            final(self).count() == old(self).count() + (if old(self)@.contains_key(name@) {
                0int
            } else {
                1int
            }),
    {
        let addr_s = String::from_str(addr);
        match self.find_index(name) {
            Some(i) => {
                proof {
                    lemma_reg_map_entry(self.entries@, i as int);
                }
                let name_s = String::from_str(name);
                let prev = &self.entries[i].1;
                let updated = if v4 {
                    NetIntfInfo {
                        ipv4: addr_s,
                        ipv6: prev.ipv6.clone(),
                        rx: prev.rx,
                        tx: prev.tx,
                    }
                } else {
                    NetIntfInfo {
                        ipv4: prev.ipv4.clone(),
                        ipv6: addr_s,
                        rx: prev.rx,
                        tx: prev.tx,
                    }
                };
                let ghost s0 = self.entries@;
                let ghost e = (name_s, updated);
                self.entries[i] = (name_s, updated);
                proof {
                    lemma_reg_map_update(s0, i as int, e);
                    assert forall|x: int, y: int|
                        0 <= x < y < self.entries@.len() implies (#[trigger] self.entries@[x].0)@
                        != (#[trigger] self.entries@[y].0)@ by {
                        assert(self.entries@[x].0@ == s0[x].0@);
                        assert(self.entries@[y].0@ == s0[y].0@);
                    }
                }
            },
            None => {
                let name_s = String::from_str(name);
                let created = if v4 {
                    NetIntfInfo { ipv4: addr_s, ipv6: String::new(), rx: 0, tx: 0 }
                } else {
                    NetIntfInfo { ipv4: String::new(), ipv6: addr_s, rx: 0, tx: 0 }
                };
                let ghost s0 = self.entries@;
                self.entries.push((name_s, created));
                proof {
                    lemma_reg_map_contains(s0, name@);
                    assert(self.entries@.drop_last() =~= s0);
                    assert forall|x: int, y: int|
                        0 <= x < y < self.entries@.len() implies (#[trigger] self.entries@[x].0)@
                        != (#[trigger] self.entries@[y].0)@ by {
                        if y < self.entries@.len() - 1 {
                            assert(self.entries@[x].0@ == s0[x].0@);
                            assert(self.entries@[y].0@ == s0[y].0@);
                        } else {
                            assert(self.entries@[x].0@ == s0[x].0@);
                        }
                    }
                }
            },
        }
    }

    /// Stores one counter observation into the record named `name`; a name
    /// never seen in an address listing is ignored, so counters never create
    /// a record.
    pub fn set_counters(&mut self, name: &str, rx: u64, tx: u64)
        requires
            old(self).wf(),
        ensures
            final(self).wf(),
            final(self).count() == old(self).count(),
            final(self)@ == (if old(self)@.contains_key(name@) {
                old(self)@.insert(
                    name@,
                    NetIntfView {
                        ipv4: old(self)@[name@].ipv4,
                        ipv6: old(self)@[name@].ipv6,
                        rx: rx,
                        tx: tx,
                    },
                )
            } else {
                old(self)@
            }),
            final(self)@.dom() == old(self)@.dom(),
    {
        match self.find_index(name) {
            Some(i) => {
                proof {
                    lemma_reg_map_entry(self.entries@, i as int);
                }
                let name_s = String::from_str(name);
                let prev = &self.entries[i].1;
                let updated = NetIntfInfo {
                    ipv4: prev.ipv4.clone(),
                    ipv6: prev.ipv6.clone(),
                    rx: rx,
                    tx: tx,
                };
                let ghost s0 = self.entries@;
                let ghost e = (name_s, updated);
                self.entries[i] = (name_s, updated);
                proof {
                    lemma_reg_map_update(s0, i as int, e);
                    assert forall|x: int, y: int|
                        0 <= x < y < self.entries@.len() implies (#[trigger] self.entries@[x].0)@
                        != (#[trigger] self.entries@[y].0)@ by {
                        assert(self.entries@[x].0@ == s0[x].0@);
                        assert(self.entries@[y].0@ == s0[y].0@);
                    }
                    assert(final(self)@.dom() =~= old(self)@.dom());
                }
            },
            None => {
                proof {
                    assert(final(self)@.dom() =~= old(self)@.dom());
                }
            },
        }
    }
}

// ------------------------------------------------------------------
// the two extractors
// ------------------------------------------------------------------

/// One tokenized line of the address listing applied to the registry image:
/// a line of at least four tokens whose third is exactly `inet` or `inet6`
/// merges its fourth token (the address) into the record named by its second.
pub open spec fn apply_addr_fields(
    m: Map<Seq<char>, NetIntfView>,
    t: Seq<Seq<char>>,
) -> Map<Seq<char>, NetIntfView> {
    if t.len() >= 4 && (t[2] == "inet"@ || t[2] == "inet6"@) {
        let prev = if m.contains_key(t[1]) {
            Some(m[t[1]])
        } else {
            None
        };
        m.insert(t[1], merge_addr(prev, t[3], t[2] == "inet"@))
    } else {
        m
    }
}

/// The address-listing lines from `i` on, applied in order.
pub open spec fn apply_addr_lines(
    m: Map<Seq<char>, NetIntfView>,
    ls: Seq<Seq<char>>,
    i: int,
) -> Map<Seq<char>, NetIntfView>
    decreases ls.len() - i,
{
    if i < 0 || i >= ls.len() {
        m
    } else {
        apply_addr_lines(apply_addr_fields(m, split_ws(ls[i])), ls, i + 1)
    }
}

/// One tokenized line of the counter report applied to the registry image: a
/// line of exactly seventeen tokens whose first token, colons stripped, names
/// a registered interface and whose second and tenth tokens are numeric
/// stores those as receive and transmit counters.
pub open spec fn apply_counter_fields(
    m: Map<Seq<char>, NetIntfView>,
    t: Seq<Seq<char>>,
) -> Map<Seq<char>, NetIntfView> {
    if t.len() == 17 {
        let name = spec_trim_char(t[0], ':');
        if m.contains_key(name) && spec_parse_u64(t[1]) is Some && spec_parse_u64(t[9]) is Some {
            m.insert(
                name,
                NetIntfView {
                    ipv4: m[name].ipv4,
                    ipv6: m[name].ipv6,
                    rx: spec_parse_u64(t[1]).unwrap(),
                    tx: spec_parse_u64(t[9]).unwrap(),
                },
            )
        } else {
            m
        }
    } else {
        m
    }
}

/// The counter-report lines from `i` on, applied in order.
pub open spec fn apply_counter_lines(
    m: Map<Seq<char>, NetIntfView>,
    ls: Seq<Seq<char>>,
    i: int,
) -> Map<Seq<char>, NetIntfView>
    decreases ls.len() - i,
{
    if i < 0 || i >= ls.len() {
        m
    } else {
        apply_counter_lines(apply_counter_fields(m, split_ws(ls[i])), ls, i + 1)
    }
}

/// Counter observations never create or remove an interface record: the set
/// of registered names is unchanged by a whole counter report.
pub proof fn lemma_counters_preserve_interfaces(
    m: Map<Seq<char>, NetIntfView>,
    ls: Seq<Seq<char>>,
    i: int,
)
    ensures
        apply_counter_lines(m, ls, i).dom() == m.dom(),
    decreases ls.len() - i,
{
    if 0 <= i < ls.len() {
        let m2 = apply_counter_fields(m, split_ws(ls[i]));
        assert(m2.dom() =~= m.dom());
        lemma_counters_preserve_interfaces(m2, ls, i + 1);
    }
}

impl InterfaceRegistry {
    /// Feeds the whole address listing to the registry: every relevant line
    /// merges one address, in order.
    pub fn update_from_addr_listing(&mut self, text: &str)
        requires
            old(self).wf(),
        ensures
            final(self).wf(),
            final(self)@ == apply_addr_lines(old(self)@, spec_lines(text@), 0),
    {
        let ghost m0 = self@;
        let ghost ls = spec_lines(text@);
        let lines = str_lines(text);
        let mut li: usize = 0;
        while li < lines.len()
            invariant
                self.wf(),
                lines.deep_view() == ls,
                li <= lines@.len(),
                apply_addr_lines(self@, ls, li as int) == apply_addr_lines(m0, ls, 0),
            decreases lines@.len() - li,
        {
            let line = lines[li];
            proof {
                assert(ls[li as int] == line@);
            }
            let toks = ws_tokens(line);
            if toks.len() >= 4 {
                let fam = toks[2];
                let is4 = str_eq(fam, "inet");
                let is6 = str_eq(fam, "inet6");
                if is4 || is6 {
                    let ghost before = self@;
                    self.set_addr(toks[1], toks[3], is4);
                    proof {
                        let t = split_ws(line@);
                        assert(toks.deep_view() == t);
                        assert(t[1] == toks@[1]@ && t[2] == toks@[2]@ && t[3] == toks@[3]@);
                        assert(self@ == apply_addr_fields(before, t));
                    }
                }
            }
            li = li + 1;
        }
        proof {
            assert(apply_addr_lines(self@, ls, lines@.len() as int) == self@);
        }
    }

    /// Feeds the whole counter report to the registry: every line of the
    /// expected shape that names a registered interface updates its counters;
    /// no record is created or removed.
    pub fn update_from_counters(&mut self, text: &str)
        requires
            old(self).wf(),
        ensures
            final(self).wf(),
            final(self)@ == apply_counter_lines(old(self)@, spec_lines(text@), 0),
            final(self)@.dom() == old(self)@.dom(),
    {
        let ghost m0 = self@;
        let ghost ls = spec_lines(text@);
        let lines = str_lines(text);
        let mut li: usize = 0;
        while li < lines.len()
            invariant
                self.wf(),
                lines.deep_view() == ls,
                li <= lines@.len(),
                apply_counter_lines(self@, ls, li as int) == apply_counter_lines(m0, ls, 0),
            decreases lines@.len() - li,
        {
            let line = lines[li];
            proof {
                assert(ls[li as int] == line@);
            }
            let toks = ws_tokens(line);
            if toks.len() == 17 {
                let name = trim_char(toks[0], ':');
                let rx = parse_u64(toks[1]);
                let tx = parse_u64(toks[9]);
                let ghost t = split_ws(line@);
                proof {
                    assert(toks.deep_view() == t);
                    assert(t[0] == toks@[0]@ && t[1] == toks@[1]@ && t[9] == toks@[9]@);
                }
                if self.contains(name) {
                    match (rx, tx) {
                        (Some(rxv), Some(txv)) => {
                            let ghost before = self@;
                            self.set_counters(name, rxv, txv);
                            proof {
                                assert(self@ == apply_counter_fields(before, t));
                            }
                        },
                        _ => {
                            proof {
                                assert(self@ == apply_counter_fields(self@, t));
                            }
                        },
                    }
                } else {
                    proof {
                        assert(self@ == apply_counter_fields(self@, t));
                    }
                }
            }
            li = li + 1;
        }
        proof {
            assert(apply_counter_lines(self@, ls, lines@.len() as int) == self@);
            lemma_counters_preserve_interfaces(m0, ls, 0);
        }
    }
}

} // verus!
