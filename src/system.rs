//! Hosts and PLC systems, with their abstract views.

use vstd::prelude::*;

use crate::text::{decimal, join_lines, push_char, push_decimal};

verus! {

/// What a host is, abstractly.
pub struct HostView {
    pub label: Seq<char>,
    pub address: Seq<char>,
    pub responding: bool,
}

/// What a PLC system is, abstractly; `alarm` is `None` while unknown.
pub struct SystemView {
    pub name: Seq<char>,
    pub eths: Seq<HostView>,
    pub nodes: Seq<HostView>,
    pub alarm: Option<bool>,
}

/// A network host that belongs to a PLC system.
#[derive(Clone, Debug)]
pub struct Host {
    pub hostname: String,
    pub ip_address: String,
    pub responding: bool,
}

impl View for Host {
    type V = HostView;

    open spec fn view(&self) -> HostView {
        HostView { label: self.hostname@, address: self.ip_address@, responding: self.responding }
    }
}

/// A PLC system: its ethernet interface hosts, its node hosts and the last
/// alarm summary read from the device.
#[derive(Clone, Debug)]
pub struct SystemInfo {
    pub name: String,
    pub plc_eths: Vec<Host>,
    pub plc_nodes: Vec<Host>,
    pub alarms_active: Option<bool>,
}

pub open spec fn host_views(hosts: Seq<Host>) -> Seq<HostView> {
    hosts.map_values(|h: Host| h@)
}

impl View for SystemInfo {
    type V = SystemView;

    open spec fn view(&self) -> SystemView {
        SystemView {
            name: self.name@,
            eths: host_views(self.plc_eths@),
            nodes: host_views(self.plc_nodes@),
            alarm: self.alarms_active,
        }
    }
}

/// Probe results as plain values: an address and whether it answered.
pub open spec fn response_views(responses: Seq<(String, bool)>) -> Seq<(Seq<char>, bool)> {
    responses.map_values(|e: (String, bool)| (e.0@, e.1))
}

/// `responses` holds an entry for `address`.
pub open spec fn covers(responses: Seq<(Seq<char>, bool)>, address: Seq<char>) -> bool {
    exists|k: int| 0 <= k < responses.len() && #[trigger] responses[k].0 == address
}

/// The answer recorded for `address`: that of its first entry, `false` without one.
pub open spec fn response_for(responses: Seq<(Seq<char>, bool)>, address: Seq<char>) -> bool
    decreases responses.len(),
{
    if responses.len() == 0 {
        false
    } else if responses[0].0 == address {
        responses[0].1
    } else {
        response_for(responses.drop_first(), address)
    }
}

/// `response_for` is the answer of the first entry for `address`.
pub proof fn lemma_response_for(responses: Seq<(Seq<char>, bool)>, address: Seq<char>, k: int)
    requires
        0 <= k < responses.len(),
        responses[k].0 == address,
        forall|j: int| 0 <= j < k ==> responses[j].0 != address,
    ensures
        response_for(responses, address) == responses[k].1,
    decreases k,
{
    if k > 0 {
        lemma_response_for(responses.drop_first(), address, k - 1);
    }
}

/// Each host with the answer that `responses` records for its address.
pub open spec fn with_responses(hosts: Seq<HostView>, responses: Seq<(Seq<char>, bool)>) -> Seq<
    HostView,
> {
    hosts.map_values(
        |h: HostView|
            HostView {
                label: h.label,
                address: h.address,
                responding: response_for(responses, h.address),
            },
    )
}

/// Every host in `hosts` is responding; true of no hosts at all.
pub open spec fn all_responding(hosts: Seq<HostView>) -> bool {
    forall|i: int| 0 <= i < hosts.len() ==> #[trigger] hosts[i].responding
}

/// How many hosts of `hosts` are responding.
pub open spec fn count_responding(hosts: Seq<HostView>) -> nat
    decreases hosts.len(),
{
    if hosts.len() == 0 {
        0
    } else {
        count_responding(hosts.drop_last()) + if hosts.last().responding {
            1nat
        } else {
            0nat
        }
    }
}

/// The labels of the hosts that are not responding, in order.
pub open spec fn failed_labels(hosts: Seq<HostView>) -> Seq<Seq<char>>
    decreases hosts.len(),
{
    if hosts.len() == 0 {
        Seq::empty()
    } else if hosts.last().responding {
        failed_labels(hosts.drop_last())
    } else {
        failed_labels(hosts.drop_last()).push(hosts.last().label)
    }
}

/// The addresses of `hosts`, in order.
pub open spec fn addresses_of(hosts: Seq<HostView>) -> Seq<Seq<char>> {
    hosts.map_values(|h: HostView| h.address)
}

/// `address` is where a device session goes: the first responding ethernet
/// host's address, or the first one's when none responds.
pub open spec fn is_contact_address(eths: Seq<HostView>, address: Seq<char>) -> bool {
    ||| exists|i: int|
        0 <= i < eths.len() && #[trigger] eths[i].responding && eths[i].address == address
            && forall|j: int| 0 <= j < i ==> !#[trigger] eths[j].responding
    ||| eths.len() > 0 && !(exists|i: int| 0 <= i < eths.len() && #[trigger] eths[i].responding)
        && eths[0].address == address
}

/// `a/b`: `a` responding hosts out of `b`.
pub open spec fn ratio_text(hosts: Seq<HostView>) -> Seq<char> {
    decimal(count_responding(hosts)) + seq!['/'] + decimal(hosts.len())
}

/// The views of a sequence of strings.
pub open spec fn string_views(v: Seq<String>) -> Seq<Seq<char>> {
    v.map_values(|s: String| s@)
}

impl Host {
    /// A host that has not answered yet.
    pub fn new(hostname: String, ip_address: String) -> (r: Host)
        ensures
            r@ == (HostView { label: hostname@, address: ip_address@, responding: false }),
    {
        Host { hostname, ip_address, responding: false }
    }
}

/// The answer that `responses` records for `address`.
fn lookup_response(responses: &Vec<(String, bool)>, address: &String) -> (r: bool)
    requires
        covers(response_views(responses@), address@),
    ensures
        r == response_for(response_views(responses@), address@),
{
    let ghost rv = response_views(responses@);
    let mut k: usize = 0;
    while k < responses.len()
        invariant
            rv == response_views(responses@),
            covers(rv, address@),
            forall|j: int| 0 <= j < k ==> rv[j].0 != address@,
        decreases responses@.len() - k,
    {
        if responses[k].0 == *address {
            proof {
                lemma_response_for(rv, address@, k as int);
            }
            return responses[k].1;
        }
        k = k + 1;
    }
    false
}

/// Sets each host's `responding` to the answer recorded for its address.
fn apply_responses(hosts: &mut Vec<Host>, responses: &Vec<(String, bool)>)
    requires
        forall|i: int|
            0 <= i < old(hosts)@.len() ==> covers(
                response_views(responses@),
                #[trigger] old(hosts)@[i].ip_address@,
            ),
    ensures
        host_views(final(hosts)@) == with_responses(
            host_views(old(hosts)@),
            response_views(responses@),
        ),
{
    let ghost rv = response_views(responses@);
    let ghost before = host_views(hosts@);
    let mut i: usize = 0;
    while i < hosts.len()
        invariant
            rv == response_views(responses@),
            before == host_views(old(hosts)@),
            hosts@.len() == before.len(),
            forall|j: int|
                0 <= j < hosts@.len() ==> covers(rv, #[trigger] hosts@[j].ip_address@),
            forall|j: int|
                0 <= j < hosts@.len() ==> #[trigger] hosts@[j].ip_address@ == before[j].address
                    && hosts@[j].hostname@ == before[j].label,
            forall|j: int|
                0 <= j < i ==> #[trigger] hosts@[j].responding == response_for(
                    rv,
                    before[j].address,
                ),
        decreases hosts@.len() - i,
    {
        let answer = lookup_response(responses, &hosts[i].ip_address);
        hosts[i].responding = answer;
        i = i + 1;
    }
    assert(host_views(hosts@) =~= with_responses(before, rv));
}

/// How many of `hosts` are responding.
fn responding_count(hosts: &Vec<Host>) -> (r: usize)
    ensures
        r == count_responding(host_views(hosts@)),
        r <= hosts@.len(),
{
    let ghost hv = host_views(hosts@);
    let mut n: usize = 0;
    let mut i: usize = 0;
    while i < hosts.len()
        invariant
            hv == host_views(hosts@),
            i <= hosts@.len(),
            n <= i,
            n == count_responding(hv.take(i as int)),
        decreases hosts@.len() - i,
    {
        assert(hv.take(i + 1).drop_last() =~= hv.take(i as int));
        if hosts[i].responding {
            n = n + 1;
        }
        i = i + 1;
    }
    assert(hv.take(i as int) =~= hv);
    n
}

/// `count/total` for `hosts`.
fn ratio_string(hosts: &Vec<Host>) -> (r: String)
    ensures
        r@ == ratio_text(host_views(hosts@)),
{
    let mut s = String::new();
    push_decimal(&mut s, responding_count(hosts));
    push_char(&mut s, '/');
    push_decimal(&mut s, hosts.len());
    s
}

/// Whether every host of `hosts` responds.
fn all_hosts_responding(hosts: &Vec<Host>) -> (r: bool)
    ensures
        r == all_responding(host_views(hosts@)),
{
    let mut i: usize = 0;
    while i < hosts.len()
        invariant
            forall|j: int| 0 <= j < i ==> #[trigger] hosts@[j].responding,
        decreases hosts@.len() - i,
    {
        if !hosts[i].responding {
            assert(!host_views(hosts@)[i as int].responding);
            return false;
        }
        i = i + 1;
    }
    true
}

/// Appends the labels of the hosts that do not respond to `out`, each after
/// a line break unless `out` was still empty of labels.
fn push_failed_labels(
    out: &mut String,
    parts: Ghost<Seq<Seq<char>>>,
    none_yet: bool,
    hosts: &Vec<Host>,
) -> (r: (Ghost<Seq<Seq<char>>>, bool))
    requires
        old(out)@ == join_lines(parts@),
        none_yet == (parts@.len() == 0),
    ensures
        r.0@ == parts@ + failed_labels(host_views(hosts@)),
        final(out)@ == join_lines(r.0@),
        r.1 == (r.0@.len() == 0),
{
    let ghost hv = host_views(hosts@);
    let ghost mut acc = parts@;
    let mut i: usize = 0;
    let mut first = none_yet;
    while i < hosts.len()
        invariant
            hv == host_views(hosts@),
            i <= hosts@.len(),
            acc == parts@ + failed_labels(hv.take(i as int)),
            out@ == join_lines(acc),
            first == (acc.len() == 0),
        decreases hosts@.len() - i,
    {
        assert(hv.take(i + 1).drop_last() =~= hv.take(i as int));
        if !hosts[i].responding {
            if !first {
                push_char(out, '\n');
            }
            out.append(hosts[i].hostname.as_str());
            proof {
                let next = acc.push(hosts@[i as int].hostname@);
                assert(next.drop_last() =~= acc);
                assert(parts@ + failed_labels(hv.take(i + 1)) =~= next);
                acc = next;
            }
            first = false;
        } else {
            assert(parts@ + failed_labels(hv.take(i + 1)) =~= acc);
        }
        i = i + 1;
    }
    assert(hv.take(i as int) =~= hv);
    (Ghost(acc), first)
}

impl SystemInfo {
    /// A system with no hosts and an unknown alarm state.
    pub fn new(system_name: String) -> (r: SystemInfo)
        ensures
            r@ == (SystemView {
                name: system_name@,
                eths: Seq::empty(),
                nodes: Seq::empty(),
                alarm: None,
            }),
    {
        let r = SystemInfo {
            name: system_name,
            plc_eths: Vec::new(),
            plc_nodes: Vec::new(),
            alarms_active: None,
        };
        assert(r@.eths =~= Seq::empty());
        assert(r@.nodes =~= Seq::empty());
        r
    }

    /// Appends an ethernet interface host.
    pub fn add_eth(&mut self, host: Host)
        ensures
            final(self)@ == (SystemView { eths: old(self)@.eths.push(host@), ..old(self)@ }),
    {
        self.plc_eths.push(host);
        assert(self@.eths =~= old(self)@.eths.push(host@));
    }

    /// Appends a node host.
    pub fn add_node(&mut self, host: Host)
        ensures
            final(self)@ == (SystemView { nodes: old(self)@.nodes.push(host@), ..old(self)@ }),
    {
        self.plc_nodes.push(host);
        assert(self@.nodes =~= old(self)@.nodes.push(host@));
    }

    /// Records the probe answers for the ethernet hosts.
    pub fn update_eth(&mut self, responses: &Vec<(String, bool)>)
        requires
            forall|i: int|
                0 <= i < old(self)@.eths.len() ==> covers(
                    response_views(responses@),
                    #[trigger] old(self)@.eths[i].address,
                ),
        ensures
            final(self)@ == (SystemView {
                eths: with_responses(old(self)@.eths, response_views(responses@)),
                ..old(self)@
            }),
    {
        assert forall|i: int| 0 <= i < self.plc_eths@.len() implies covers(
            response_views(responses@),
            #[trigger] self.plc_eths@[i].ip_address@,
        ) by {
            assert(self@.eths[i].address == self.plc_eths@[i].ip_address@);
        }
        apply_responses(&mut self.plc_eths, responses);
    }

    /// Records the probe answers for the node hosts.
    pub fn update_nodes(&mut self, responses: &Vec<(String, bool)>)
        requires
            forall|i: int|
                0 <= i < old(self)@.nodes.len() ==> covers(
                    response_views(responses@),
                    #[trigger] old(self)@.nodes[i].address,
                ),
        ensures
            final(self)@ == (SystemView {
                nodes: with_responses(old(self)@.nodes, response_views(responses@)),
                ..old(self)@
            }),
    {
        assert forall|i: int| 0 <= i < self.plc_nodes@.len() implies covers(
            response_views(responses@),
            #[trigger] self.plc_nodes@[i].ip_address@,
        ) by {
            assert(self@.nodes[i].address == self.plc_nodes@[i].ip_address@);
        }
        apply_responses(&mut self.plc_nodes, responses);
    }

    /// The addresses of all hosts: ethernet hosts first, then nodes.
    pub fn get_addresses(&self) -> (r: Vec<String>)
        ensures
            string_views(r@) == addresses_of(self@.eths) + addresses_of(self@.nodes),
    {
        let ghost want = addresses_of(self@.eths) + addresses_of(self@.nodes);
        let ne = self.plc_eths.len();
        let mut addresses: Vec<String> = Vec::new();
        let mut i: usize = 0;
        while i < ne
            invariant
                ne == self.plc_eths@.len(),
                want == addresses_of(self@.eths) + addresses_of(self@.nodes),
                i <= ne,
                string_views(addresses@) =~= want.take(i as int),
            decreases ne - i,
        {
            assert(want[i as int] == self.plc_eths@[i as int].ip_address@);
            let ghost prev = addresses@;
            addresses.push(self.plc_eths[i].ip_address.clone());
            assert(addresses@ == prev.push(self.plc_eths@[i as int].ip_address));
            assert(string_views(addresses@) =~= string_views(prev).push(want[i as int]));
            i = i + 1;
        }
        let mut k: usize = 0;
        while k < self.plc_nodes.len()
            invariant
                ne == self.plc_eths@.len(),
                want == addresses_of(self@.eths) + addresses_of(self@.nodes),
                k <= self.plc_nodes@.len(),
                string_views(addresses@) =~= want.take(ne + k),
            decreases self.plc_nodes@.len() - k,
        {
            assert(want[ne + k] == self.plc_nodes@[k as int].ip_address@);
            let ghost prev = addresses@;
            addresses.push(self.plc_nodes[k].ip_address.clone());
            assert(addresses@ == prev.push(self.plc_nodes@[k as int].ip_address));
            assert(string_views(addresses@) =~= string_views(prev).push(want[ne + k]));
            k = k + 1;
        }
        assert(want.take(ne + k) =~= want);
        addresses
    }

    /// The address to open a device session with: the first responding
    /// ethernet host, or the first ethernet host when none responds.
    pub fn get_eth_address(&self) -> (r: String)
        requires
            self@.eths.len() > 0,
        ensures
            is_contact_address(self@.eths, r@),
    {
        let ghost ev = self@.eths;
        let mut i: usize = 0;
        while i < self.plc_eths.len()
            invariant
                ev == self@.eths,
                forall|j: int| 0 <= j < i ==> !#[trigger] ev[j].responding,
            decreases self.plc_eths@.len() - i,
        {
            if self.plc_eths[i].responding {
                assert(ev[i as int].responding);
                return self.plc_eths[i].ip_address.clone();
            }
            i = i + 1;
        }
        assert(!(exists|i: int| 0 <= i < ev.len() && #[trigger] ev[i].responding));
        self.plc_eths[0].ip_address.clone()
    }

    /// `responding/total` for the ethernet hosts.
    pub fn eth_status(&self) -> (r: String)
        ensures
            r@ == ratio_text(self@.eths),
    {
        ratio_string(&self.plc_eths)
    }

    /// `responding/total` for the node hosts.
    pub fn nodes_status(&self) -> (r: String)
        ensures
            r@ == ratio_text(self@.nodes),
    {
        ratio_string(&self.plc_nodes)
    }

    /// The last alarm summary read, `None` while unknown.
    pub fn active_alarms(&self) -> (r: Option<bool>)
        ensures
            r == self@.alarm,
    {
        self.alarms_active
    }

    /// The labels of the hosts that do not respond, ethernet hosts first, one per line.
    pub fn failed_hosts(&self) -> (r: String)
        ensures
            r@ == join_lines(failed_labels(self@.eths) + failed_labels(self@.nodes)),
    {
        let mut out = String::new();
        assert(out@ == join_lines(Seq::empty()));
        let (parts, none_yet) = push_failed_labels(&mut out, Ghost(Seq::empty()), true, &self.plc_eths);
        let (all, _) = push_failed_labels(&mut out, parts, none_yet, &self.plc_nodes);
        assert(all@ =~= failed_labels(self@.eths) + failed_labels(self@.nodes));
        out
    }

    /// Whether every ethernet host responds; true when there are none.
    pub fn eths_ok(&self) -> (r: bool)
        ensures
            r == all_responding(self@.eths),
    {
        all_hosts_responding(&self.plc_eths)
    }

    /// Whether every node host responds; true when there are none.
    pub fn nodes_ok(&self) -> (r: bool)
        ensures
            r == all_responding(self@.nodes),
    {
        all_hosts_responding(&self.plc_nodes)
    }
}

} // verus!
