//! The poll loop's state and decisions. Each cycle the driver drains the
//! commands, probes every host, runs the device transactions that the
//! poller plans, hands the results back, publishes the systems and sleeps;
//! this module decides everything in between.

use vstd::prelude::*;

use crate::importer::{import, lemma_import_classification, system_views, topology};
use crate::plc_comms::alarm_views;
use crate::prober::{lemma_every_address_answered, probe_outcome, Multipinger};
use crate::system::{
    all_responding, covers, is_contact_address, response_views, string_views, with_responses,
    HostView, SystemInfo, SystemView,
};

verus! {

/// A command from the consumer to the poll loop.
#[derive(Clone, Debug)]
pub enum BackgroundMessage {
    /// Reset the alarms of the named system in the next cycle.
    Reset(String),
    /// Reset the alarms of every system known now.
    ResetAll,
    /// Replace the topology with the host list in the named file.
    LoadFile(String),
}

/// What the poll loop publishes: once its command sink, then every cycle
/// each system, and a message when a host list cannot be read.
#[derive(Clone, Debug)]
pub enum Event<S> {
    Setup(S),
    Update(SystemInfo),
    FileError(String),
}

/// All hosts of a system: ethernet hosts, then nodes.
pub open spec fn hosts_of(s: SystemView) -> Seq<HostView> {
    s.eths + s.nodes
}

/// `address` belongs to some host of some system.
pub open spec fn is_host_address(systems: Seq<SystemView>, address: Seq<char>) -> bool {
    exists|i: int, k: int|
        0 <= i < systems.len() && 0 <= k < hosts_of(systems[i]).len() && #[trigger] hosts_of(
            systems[i],
        )[k].address == address
}

/// `addresses` is the union of the host addresses of `systems`: each once.
pub open spec fn is_address_union(addresses: Seq<Seq<char>>, systems: Seq<SystemView>) -> bool {
    &&& addresses.no_duplicates()
    &&& forall|k: int| 0 <= k < addresses.len() ==> is_host_address(systems, #[trigger] addresses[k])
    &&& forall|i: int, k: int|
        0 <= i < systems.len() && 0 <= k < hosts_of(systems[i]).len() ==> addresses.contains(
            #[trigger] hosts_of(systems[i])[k].address,
        )
}

/// No two systems share a name.
pub open spec fn names_distinct(systems: Seq<SystemView>) -> bool {
    forall|i: int, j: int|
        0 <= i < j < systems.len() ==> #[trigger] systems[i].name != #[trigger] systems[j].name
}

/// The names of all systems, in order.
pub open spec fn names_of(systems: Seq<SystemView>) -> Seq<Seq<char>> {
    systems.map_values(|s: SystemView| s.name)
}

/// A device session is opened for a system: it has ethernet hosts and all respond.
pub open spec fn contactable(s: SystemView) -> bool {
    s.eths.len() > 0 && all_responding(s.eths)
}

/// Whether `v` holds the string `s`.
pub fn contains_string(v: &Vec<String>, s: &String) -> (r: bool)
    ensures
        r == string_views(v@).contains(s@),
{
    let mut i: usize = 0;
    while i < v.len()
        invariant
            i <= v@.len(),
            forall|k: int| 0 <= k < i ==> string_views(v@)[k] != s@,
        decreases v@.len() - i,
    {
        if v[i] == *s {
            assert(string_views(v@)[i as int] == s@);
            return true;
        }
        i = i + 1;
    }
    false
}

proof fn lemma_push_contains(s: Seq<Seq<char>>, x: Seq<char>, y: Seq<char>)
    ensures
        s.push(x).contains(x),
        s.contains(y) ==> s.push(x).contains(y),
{
    assert(s.push(x)[s.len() as int] == x);
    if s.contains(y) {
        let k = choose|k: int| 0 <= k < s.len() && s[k] == y;
        assert(s.push(x)[k] == y);
    }
}

/// The host addresses of all systems, each once, in order of first mention.
fn address_union(systems: &Vec<SystemInfo>) -> (r: Vec<String>)
    ensures
        is_address_union(string_views(r@), system_views(systems@)),
{
    let ghost sv = system_views(systems@);
    let mut out: Vec<String> = Vec::new();
    let mut i: usize = 0;
    while i < systems.len()
        invariant
            sv == system_views(systems@),
            i <= systems@.len(),
            string_views(out@).no_duplicates(),
            forall|k: int| 0 <= k < out@.len() ==> is_host_address(sv, #[trigger] string_views(out@)[k]),
            forall|q: int, k: int|
                0 <= q < i && 0 <= k < hosts_of(sv[q]).len() ==> string_views(out@).contains(
                    #[trigger] hosts_of(sv[q])[k].address,
                ),
        decreases systems@.len() - i,
    {
        let addrs = systems[i].get_addresses();
        let ghost av = string_views(addrs@);
        assert(av.len() == hosts_of(sv[i as int]).len());
        assert(forall|k: int| 0 <= k < av.len() ==> av[k] == #[trigger] hosts_of(sv[i as int])[k].address);
        let mut j: usize = 0;
        while j < addrs.len()
            invariant
                sv == system_views(systems@),
                i < systems@.len(),
                av == string_views(addrs@),
                av.len() == hosts_of(sv[i as int]).len(),
                forall|k: int| 0 <= k < av.len() ==> av[k] == #[trigger] hosts_of(sv[i as int])[k].address,
                j <= addrs@.len(),
                string_views(out@).no_duplicates(),
                forall|k: int| 0 <= k < out@.len() ==> is_host_address(sv, #[trigger] string_views(out@)[k]),
                forall|q: int, k: int|
                    0 <= q < i && 0 <= k < hosts_of(sv[q]).len() ==> string_views(out@).contains(
                        #[trigger] hosts_of(sv[q])[k].address,
                    ),
                forall|k: int| 0 <= k < j ==> string_views(out@).contains(#[trigger] av[k]),
            decreases addrs@.len() - j,
        {
            if !contains_string(&out, &addrs[j]) {
                let ghost prev = out@;
                out.push(addrs[j].clone());
                let ghost ov = string_views(out@);
                assert(ov =~= string_views(prev).push(av[j as int]));
                assert(is_host_address(sv, av[j as int])) by {
                    assert(hosts_of(sv[i as int])[j as int].address == av[j as int]);
                }
                assert forall|k: int| 0 <= k < out@.len() implies is_host_address(sv, #[trigger] ov[k]) by {
                    if k < prev.len() {
                        assert(ov[k] == string_views(prev)[k]);
                    }
                }
                assert forall|q: int, k: int|
                    0 <= q < i && 0 <= k < hosts_of(sv[q]).len() implies ov.contains(
                        #[trigger] hosts_of(sv[q])[k].address,
                    ) by {
                    lemma_push_contains(string_views(prev), av[j as int], hosts_of(sv[q])[k].address);
                }
                assert forall|k: int| 0 <= k < j + 1 implies ov.contains(#[trigger] av[k]) by {
                    lemma_push_contains(string_views(prev), av[j as int], av[k]);
                }
            }
            j = j + 1;
        }
        assert forall|q: int, k: int|
            0 <= q < i + 1 && 0 <= k < hosts_of(sv[q]).len() implies string_views(out@).contains(
                #[trigger] hosts_of(sv[q])[k].address,
            ) by {
            if q == i {
                assert(av[k] == hosts_of(sv[q])[k].address);
            }
        }
        i = i + 1;
    }
    out
}

/// The systems are `before` with nothing changed but what probes and reads
/// record: names and host labels and addresses stay.
pub open spec fn same_shape(before: Seq<SystemView>, after: Seq<SystemView>) -> bool {
    &&& before.len() == after.len()
    &&& forall|i: int|
        0 <= i < before.len() ==> (#[trigger] after[i]).name == before[i].name && hosts_of(
            after[i],
        ).len() == hosts_of(before[i]).len() && forall|k: int|
            0 <= k < hosts_of(before[i]).len() ==> #[trigger] hosts_of(after[i])[k].address
                == hosts_of(before[i])[k].address
}

proof fn lemma_same_shape_keeps_wf(
    addresses: Seq<Seq<char>>,
    before: Seq<SystemView>,
    after: Seq<SystemView>,
)
    requires
        same_shape(before, after),
        names_distinct(before),
        is_address_union(addresses, before),
    ensures
        names_distinct(after),
        is_address_union(addresses, after),
{
    assert forall|i: int, j: int| 0 <= i < j < after.len() implies #[trigger] after[i].name
        != #[trigger] after[j].name by {
        assert(before[i].name != before[j].name);
    }
    assert forall|k: int| 0 <= k < addresses.len() implies is_host_address(
        after,
        #[trigger] addresses[k],
    ) by {
        assert(is_host_address(before, addresses[k]));
        let (i, q) = choose|i: int, q: int|
            0 <= i < before.len() && 0 <= q < hosts_of(before[i]).len() && #[trigger] hosts_of(
                before[i],
            )[q].address == addresses[k];
        assert(hosts_of(after[i])[q].address == addresses[k]);
    }
    assert forall|i: int, k: int|
        0 <= i < after.len() && 0 <= k < hosts_of(after[i]).len() implies addresses.contains(
        #[trigger] hosts_of(after[i])[k].address,
    ) by {
        assert(hosts_of(before[i])[k].address == hosts_of(after[i])[k].address);
    }
}

/// Once the device transactions are planned, a system whose ethernet hosts
/// are not all responding holds no alarm value.
pub open spec fn unknown_when_down(systems: Seq<SystemView>) -> bool {
    forall|i: int|
        0 <= i < systems.len() && !all_responding(#[trigger] systems[i].eths)
            ==> systems[i].alarm is None
}

/// The name and reset flag of each planned transaction: one per contactable
/// system, in order, with a reset when its name is queued.
pub open spec fn planned(systems: Seq<SystemView>, resets: Seq<Seq<char>>) -> Seq<
    (Seq<char>, bool),
>
    decreases systems.len(),
{
    if systems.len() == 0 {
        Seq::empty()
    } else {
        let before = planned(systems.drop_last(), resets);
        if contactable(systems.last()) {
            before.push((systems.last().name, resets.contains(systems.last().name)))
        } else {
            before
        }
    }
}

/// `request` goes to a system of `systems` that is contactable, at its
/// contact address.
pub open spec fn serves_contactable(systems: Seq<SystemView>, request: (String, String, bool)) -> bool {
    exists|i: int|
        0 <= i < systems.len() && #[trigger] systems[i].name == request.0@ && contactable(systems[i])
            && is_contact_address(systems[i].eths, request.1@)
}

/// Each planned transaction names a system of `systems`.
pub proof fn lemma_planned_names(systems: Seq<SystemView>, resets: Seq<Seq<char>>)
    ensures
        forall|k: int|
            0 <= k < planned(systems, resets).len() ==> exists|j: int|
                0 <= j < systems.len() && #[trigger] systems[j].name == (#[trigger] planned(
                    systems,
                    resets,
                )[k]).0,
    decreases systems.len(),
{
    if systems.len() > 0 {
        let init = systems.drop_last();
        lemma_planned_names(init, resets);
        assert forall|k: int| 0 <= k < planned(systems, resets).len() implies exists|j: int|
            0 <= j < systems.len() && #[trigger] systems[j].name == (#[trigger] planned(
                systems,
                resets,
            )[k]).0 by {
            if k < planned(init, resets).len() {
                let j = choose|j: int|
                    0 <= j < init.len() && #[trigger] init[j].name == (#[trigger] planned(
                        init,
                        resets,
                    )[k]).0;
                assert(systems[j] == init[j]);
            } else {
                assert(systems[systems.len() - 1] == systems.last());
            }
        }
    }
}

/// No device transaction is planned for a system whose ethernet hosts are
/// not all responding.
pub proof fn lemma_no_transaction_when_down(
    systems: Seq<SystemView>,
    resets: Seq<Seq<char>>,
    i: int,
)
    requires
        names_distinct(systems),
        0 <= i < systems.len(),
        !all_responding(systems[i].eths),
    ensures
        forall|k: int|
            0 <= k < planned(systems, resets).len() ==> (#[trigger] planned(systems, resets)[k]).0
                != systems[i].name,
    decreases systems.len(),
{
    let init = systems.drop_last();
    let last = systems.len() - 1;
    if i < last {
        assert(names_distinct(init)) by {
            assert forall|p: int, q: int| 0 <= p < q < init.len() implies #[trigger] init[p].name
                != #[trigger] init[q].name by {
                assert(systems[p].name != systems[q].name);
            }
        }
        assert(init[i] == systems[i]);
        lemma_no_transaction_when_down(init, resets, i);
        assert(systems[i].name != systems[last].name);
    } else {
        lemma_planned_names(init, resets);
        assert forall|k: int| 0 <= k < planned(init, resets).len() implies (#[trigger] planned(
            init,
            resets,
        )[k]).0 != systems[i].name by {
            let j = choose|j: int|
                0 <= j < init.len() && #[trigger] init[j].name == (#[trigger] planned(
                    init,
                    resets,
                )[k]).0;
            assert(systems[j].name != systems[last].name);
        }
    }
}

pub open spec fn request_views(requests: Seq<(String, String, bool)>) -> Seq<(Seq<char>, bool)> {
    requests.map_values(|r: (String, String, bool)| (r.0@, r.2))
}

/// `results` holds an entry named `name`.
pub open spec fn names_entry(results: Seq<(Seq<char>, Option<bool>)>, name: Seq<char>) -> bool {
    exists|k: int| 0 <= k < results.len() && #[trigger] results[k].0 == name
}

/// The value of the first entry named `name`.
pub open spec fn value_for(results: Seq<(Seq<char>, Option<bool>)>, name: Seq<char>) -> Option<
    bool,
>
    decreases results.len(),
{
    if results.len() == 0 {
        None
    } else if results[0].0 == name {
        results[0].1
    } else {
        value_for(results.drop_first(), name)
    }
}

proof fn lemma_value_for(results: Seq<(Seq<char>, Option<bool>)>, name: Seq<char>, k: int)
    requires
        0 <= k < results.len(),
        results[k].0 == name,
        forall|j: int| 0 <= j < k ==> results[j].0 != name,
    ensures
        value_for(results, name) == results[k].1,
    decreases k,
{
    if k > 0 {
        lemma_value_for(results.drop_first(), name, k - 1);
    }
}

/// The state that the poll loop keeps between cycles.
pub struct SystemPoller {
    /// The authoritative system map, in order of first mention.
    pub systems: Vec<SystemInfo>,
    /// Names of the systems whose alarms are reset in the next cycle.
    pub to_reset: Vec<String>,
    /// Probes every host address once per cycle.
    pub pinger: Multipinger,
}

impl SystemPoller {
    pub open spec fn system_views(&self) -> Seq<SystemView> {
        system_views(self.systems@)
    }

    pub open spec fn reset_names(&self) -> Seq<Seq<char>> {
        string_views(self.to_reset@)
    }

    pub open spec fn probe_addresses(&self) -> Seq<Seq<char>> {
        string_views(self.pinger.addresses@)
    }

    /// System names are distinct and the prober covers exactly the host addresses.
    pub open spec fn wf(&self) -> bool {
        &&& names_distinct(self.system_views())
        &&& is_address_union(self.probe_addresses(), self.system_views())
    }

    /// A poller with no topology yet; `os` names the platform, for `ping`.
    pub fn new(os: &str) -> (r: SystemPoller)
        ensures
            r.wf(),
            r.system_views().len() == 0,
            r.reset_names().len() == 0,
            r.probe_addresses().len() == 0,
    {
        let r = SystemPoller {
            systems: Vec::new(),
            to_reset: Vec::new(),
            pinger: Multipinger::new(Vec::new(), os),
        };
        assert(r.probe_addresses() =~= Seq::<Seq<char>>::empty());
        r
    }

    /// Takes in the outcome of reading a host list. On success the topology
    /// is replaced wholesale, the prober covers its hosts and the pending
    /// resets, which named the old systems, are dropped. On failure nothing
    /// changes and the message is returned to be published.
    pub fn load(&mut self, contents: Result<String, String>) -> (r: Option<String>)
        requires
            old(self).wf(),
        ensures
            final(self).wf(),
            match contents {
                Ok(text) => r is None && final(self).system_views() == topology(text@)
                    && final(self).reset_names().len() == 0,
                Err(message) => r == Some(message) && *final(self) == *old(self),
            },
    {
        match contents {
            Ok(text) => {
                let systems = import(text.as_str());
                proof {
                    lemma_import_classification(text@);
                }
                let addresses = address_union(&systems);
                self.systems = systems;
                self.pinger.addresses = addresses;
                self.to_reset = Vec::new();
                assert(self.reset_names() =~= Seq::<Seq<char>>::empty());
                None
            },
            Err(message) => Some(message),
        }
    }

    /// Records the outcome of one round of probes: `completed` holds, for
    /// each probe that finished, the index of its address in the prober and
    /// whether it answered. Every host gets the answer for its address; an
    /// address whose probe did not finish counts as not responding.
    pub fn record_probes(&mut self, completed: &Vec<(usize, bool)>)
        requires
            old(self).wf(),
        ensures
            final(self).wf(),
            final(self).to_reset == old(self).to_reset,
            final(self).pinger == old(self).pinger,
            final(self).system_views().len() == old(self).system_views().len(),
            forall|i: int|
                0 <= i < old(self).system_views().len() ==> #[trigger] final(self).system_views()[i]
                    == (SystemView {
                    eths: with_responses(
                        old(self).system_views()[i].eths,
                        probe_outcome(old(self).probe_addresses(), completed@),
                    ),
                    nodes: with_responses(
                        old(self).system_views()[i].nodes,
                        probe_outcome(old(self).probe_addresses(), completed@),
                    ),
                    ..old(self).system_views()[i]
                }),
    {
        let results = self.pinger.merge_results(completed);
        let ghost out = probe_outcome(self.probe_addresses(), completed@);
        let ghost before = self.system_views();
        let ghost addrs = self.probe_addresses();
        proof {
            lemma_every_address_answered(addrs, completed@);
        }
        let mut i: usize = 0;
        while i < self.systems.len()
            invariant
                self.pinger == old(self).pinger,
                self.to_reset == old(self).to_reset,
                addrs == self.probe_addresses(),
                before == old(self).system_views(),
                names_distinct(before),
                is_address_union(addrs, before),
                out == probe_outcome(addrs, completed@),
                response_views(results@) == out,
                forall|k: int| 0 <= k < addrs.len() ==> covers(out, #[trigger] addrs[k]),
                i <= self.systems@.len(),
                self.systems@.len() == before.len(),
                forall|q: int|
                    0 <= q < i ==> #[trigger] self.system_views()[q] == (SystemView {
                        eths: with_responses(before[q].eths, out),
                        nodes: with_responses(before[q].nodes, out),
                        ..before[q]
                    }),
                forall|q: int| i <= q < before.len() ==> #[trigger] self.system_views()[q] == before[q],
            decreases self.systems@.len() - i,
        {
            let ghost cur = before[i as int];
            assert(self.system_views()[i as int] == cur);
            assert forall|k: int| 0 <= k < hosts_of(cur).len() implies covers(
                out,
                #[trigger] hosts_of(cur)[k].address,
            ) by {
                assert(addrs.contains(hosts_of(before[i as int])[k].address));
                let m = choose|m: int| 0 <= m < addrs.len() && addrs[m] == hosts_of(cur)[k].address;
                assert(covers(out, addrs[m]));
            }
            assert forall|k: int| 0 <= k < cur.eths.len() implies covers(
                response_views(results@),
                #[trigger] cur.eths[k].address,
            ) by {
                assert(hosts_of(cur)[k] == cur.eths[k]);
            }
            assert forall|k: int| 0 <= k < cur.nodes.len() implies covers(
                response_views(results@),
                #[trigger] cur.nodes[k].address,
            ) by {
                assert(hosts_of(cur)[cur.eths.len() + k] == cur.nodes[k]);
            }
            let ghost prev = self.systems@;
            self.systems[i].update_eth(&results);
            self.systems[i].update_nodes(&results);
            assert(self.systems@.len() == prev.len());
            assert forall|q: int| 0 <= q < prev.len() && q != i implies self.systems@[q] == prev[q] by {}
            assert(self.system_views()[i as int] == (SystemView {
                eths: with_responses(before[i as int].eths, out),
                nodes: with_responses(before[i as int].nodes, out),
                ..before[i as int]
            }));
            assert forall|q: int| 0 <= q < prev.len() && q != i implies #[trigger] self.system_views()[q]
                == system_views(prev)[q] by {}
            i = i + 1;
        }
        proof {
            let after = self.system_views();
            assert forall|q: int| 0 <= q < before.len() implies (#[trigger] after[q]).name
                == before[q].name && hosts_of(after[q]).len() == hosts_of(before[q]).len()
                && forall|k: int|
                0 <= k < hosts_of(before[q]).len() ==> #[trigger] hosts_of(after[q])[k].address
                    == hosts_of(before[q])[k].address by {
                assert forall|k: int| 0 <= k < hosts_of(before[q]).len() implies #[trigger] hosts_of(
                    after[q],
                )[k].address == hosts_of(before[q])[k].address by {
                    if k < before[q].eths.len() {
                        assert(hosts_of(after[q])[k] == after[q].eths[k]);
                    } else {
                        assert(hosts_of(after[q])[k] == after[q].nodes[k - before[q].eths.len()]);
                    }
                }
            }
            lemma_same_shape_keeps_wf(addrs, before, after);
        }
    }

    /// Plans this cycle's device transactions, after the probes: one
    /// `(system, address, reset)` per system whose ethernet hosts all respond
    /// (and that has at least one), in order, at the address of its first
    /// responding ethernet host, with a reset when its name is queued. Every
    /// other system gets no transaction and its alarm becomes unknown.
    pub fn plan_transactions(&mut self) -> (r: Vec<(String, String, bool)>)
        requires
            old(self).wf(),
        ensures
            final(self).wf(),
            final(self).to_reset == old(self).to_reset,
            final(self).pinger == old(self).pinger,
            final(self).system_views().len() == old(self).system_views().len(),
            forall|i: int|
                0 <= i < old(self).system_views().len() ==> #[trigger] final(self).system_views()[i]
                    == (SystemView {
                    alarm: if contactable(old(self).system_views()[i]) {
                        old(self).system_views()[i].alarm
                    } else {
                        None
                    },
                    ..old(self).system_views()[i]
                }),
            unknown_when_down(final(self).system_views()),
            request_views(r@) == planned(old(self).system_views(), old(self).reset_names()),
            forall|k: int|
                0 <= k < r@.len() ==> serves_contactable(old(self).system_views(), #[trigger] r@[k]),
    {
        let ghost before = self.system_views();
        let ghost resets = self.reset_names();
        let mut requests: Vec<(String, String, bool)> = Vec::new();
        let mut i: usize = 0;
        while i < self.systems.len()
            invariant
                self.pinger == old(self).pinger,
                self.to_reset == old(self).to_reset,
                before == old(self).system_views(),
                resets == string_views(self.to_reset@),
                i <= self.systems@.len(),
                self.systems@.len() == before.len(),
                forall|q: int|
                    0 <= q < i ==> #[trigger] self.system_views()[q] == (SystemView {
                        alarm: if contactable(before[q]) {
                            before[q].alarm
                        } else {
                            None
                        },
                        ..before[q]
                    }),
                forall|q: int| i <= q < before.len() ==> #[trigger] self.system_views()[q] == before[q],
                request_views(requests@) == planned(before.take(i as int), resets),
                forall|k: int|
                    0 <= k < requests@.len() ==> serves_contactable(before, #[trigger] requests@[k]),
            decreases self.systems@.len() - i,
        {
            let ghost cur = before[i as int];
            assert(self.system_views()[i as int] == cur);
            assert(before.take(i + 1).drop_last() =~= before.take(i as int));
            assert(before.take(i + 1).last() == cur);
            let ghost prev = self.systems@;
            if self.systems[i].plc_eths.len() > 0 && self.systems[i].eths_ok() {
                let name = self.systems[i].name.clone();
                let address = self.systems[i].get_eth_address();
                let reset = contains_string(&self.to_reset, &name);
                let ghost prev_requests = requests@;
                requests.push((name, address, reset));
                assert(request_views(requests@) =~= request_views(prev_requests).push(
                    (cur.name, resets.contains(cur.name)),
                ));
                assert forall|k: int|
                    0 <= k < requests@.len() implies serves_contactable(before, #[trigger] requests@[k]) by {
                    if k == prev_requests.len() {
                        assert(before[i as int].name == requests@[k].0@);
                    } else {
                        assert(requests@[k] == prev_requests[k]);
                    }
                }
            } else {
                self.systems[i].alarms_active = None;
            }
            assert(self.systems@.len() == prev.len());
            assert forall|q: int| 0 <= q < prev.len() && q != i implies #[trigger] self.system_views()[q]
                == system_views(prev)[q] by {
                assert(self.systems@[q] == prev[q]);
            }
            i = i + 1;
        }
        assert(before.take(i as int) =~= before);
        proof {
            let after = self.system_views();
            assert forall|q: int| 0 <= q < before.len() implies (#[trigger] after[q]).name
                == before[q].name && hosts_of(after[q]).len() == hosts_of(before[q]).len()
                && forall|k: int|
                0 <= k < hosts_of(before[q]).len() ==> #[trigger] hosts_of(after[q])[k].address
                    == hosts_of(before[q])[k].address by {
                assert(hosts_of(after[q]) == hosts_of(before[q]));
            }
            lemma_same_shape_keeps_wf(self.probe_addresses(), before, after);
        }
        requests
    }

    /// Records the alarm values that the transactions returned, as
    /// `(system, value)` pairs. Only systems that were contacted take a value,
    /// that of the first pair with their name; all others keep theirs.
    pub fn record_alarms(&mut self, results: &Vec<(String, Option<bool>)>)
        requires
            old(self).wf(),
        ensures
            final(self).wf(),
            final(self).to_reset == old(self).to_reset,
            final(self).pinger == old(self).pinger,
            final(self).system_views().len() == old(self).system_views().len(),
            forall|i: int|
                0 <= i < old(self).system_views().len() ==> #[trigger] final(self).system_views()[i]
                    == (SystemView {
                    alarm: if contactable(old(self).system_views()[i]) && names_entry(
                        alarm_views(results@),
                        old(self).system_views()[i].name,
                    ) {
                        value_for(alarm_views(results@), old(self).system_views()[i].name)
                    } else {
                        old(self).system_views()[i].alarm
                    },
                    ..old(self).system_views()[i]
                }),
            unknown_when_down(old(self).system_views()) ==> unknown_when_down(
                final(self).system_views(),
            ),
    {
        let ghost before = self.system_views();
        let ghost rv = alarm_views(results@);
        let mut i: usize = 0;
        while i < self.systems.len()
            invariant
                self.pinger == old(self).pinger,
                self.to_reset == old(self).to_reset,
                before == old(self).system_views(),
                rv == alarm_views(results@),
                i <= self.systems@.len(),
                self.systems@.len() == before.len(),
                forall|q: int|
                    0 <= q < i ==> #[trigger] self.system_views()[q] == (SystemView {
                        alarm: if contactable(before[q]) && names_entry(rv, before[q].name) {
                            value_for(rv, before[q].name)
                        } else {
                            before[q].alarm
                        },
                        ..before[q]
                    }),
                forall|q: int| i <= q < before.len() ==> #[trigger] self.system_views()[q] == before[q],
            decreases self.systems@.len() - i,
        {
            let ghost cur = before[i as int];
            assert(self.system_views()[i as int] == cur);
            let ghost prev = self.systems@;
            if self.systems[i].plc_eths.len() > 0 && self.systems[i].eths_ok() {
                let mut k: usize = 0;
                while k < results.len() && !(results[k].0 == self.systems[i].name)
                    invariant
                        rv == alarm_views(results@),
                        self.systems@ == prev,
                        i < prev.len(),
                        cur == system_views(prev)[i as int],
                        k <= results@.len(),
                        forall|j: int| 0 <= j < k ==> rv[j].0 != cur.name,
                    decreases results@.len() - k,
                {
                    assert(rv[k as int].0 == results@[k as int].0@);
                    k = k + 1;
                }
                if k < results.len() {
                    assert(rv[k as int].0 == cur.name);
                    proof {
                        lemma_value_for(rv, cur.name, k as int);
                    }
                    self.systems[i].alarms_active = results[k].1;
                } else {
                    assert(!names_entry(rv, cur.name));
                }
            }
            assert(self.systems@.len() == prev.len());
            assert forall|q: int| 0 <= q < prev.len() && q != i implies #[trigger] self.system_views()[q]
                == system_views(prev)[q] by {
                assert(self.systems@[q] == prev[q]);
            }
            i = i + 1;
        }
        proof {
            let after = self.system_views();
            assert forall|q: int| 0 <= q < before.len() implies (#[trigger] after[q]).name
                == before[q].name && hosts_of(after[q]).len() == hosts_of(before[q]).len()
                && forall|k: int|
                0 <= k < hosts_of(before[q]).len() ==> #[trigger] hosts_of(after[q])[k].address
                    == hosts_of(before[q])[k].address by {
                assert(hosts_of(after[q]) == hosts_of(before[q]));
            }
            lemma_same_shape_keeps_wf(self.probe_addresses(), before, after);
        }
    }

    /// Ends a cycle: the queued resets have been handed out.
    pub fn finish_cycle(&mut self)
        ensures
            final(self).systems == old(self).systems,
            final(self).pinger == old(self).pinger,
            final(self).reset_names().len() == 0,
    {
        self.to_reset = Vec::new();
        assert(self.reset_names() =~= Seq::<Seq<char>>::empty());
    }

    /// Whether a topology with at least one system is loaded.
    pub fn has_systems(&self) -> (r: bool)
        ensures
            r == (self.system_views().len() > 0),
    {
        self.systems.len() > 0
    }

    /// Handles one command. A reset request is queued for the next cycle;
    /// `ResetAll` queues the names of exactly the systems known now. For
    /// `LoadFile` nothing changes and the file name is returned: the caller
    /// reads it and hands the outcome to `load`.
    pub fn handle_message(&mut self, message: BackgroundMessage) -> (r: Option<String>)
        ensures
            final(self).system_views() == old(self).system_views(),
            final(self).pinger == old(self).pinger,
            match message {
                BackgroundMessage::Reset(name) => r is None && final(self).reset_names() == old(
                    self,
                ).reset_names().push(name@),
                BackgroundMessage::ResetAll => r is None && final(self).reset_names() == old(
                    self,
                ).reset_names() + names_of(old(self).system_views()),
                BackgroundMessage::LoadFile(file) => r == Some(file) && final(self).reset_names()
                    == old(self).reset_names(),
            },
    {
        match message {
            BackgroundMessage::Reset(name) => {
                let ghost prev = self.to_reset@;
                self.to_reset.push(name);
                assert(self.reset_names() =~= string_views(prev).push(name@));
                None
            },
            BackgroundMessage::ResetAll => {
                let ghost start = self.reset_names();
                let ghost names = names_of(self.system_views());
                let mut i: usize = 0;
                while i < self.systems.len()
                    invariant
                        self.systems == old(self).systems,
                        self.pinger == old(self).pinger,
                        i <= self.systems@.len(),
                        names == names_of(system_views(self.systems@)),
                        string_views(self.to_reset@) =~= start + names.take(i as int),
                    decreases self.systems@.len() - i,
                {
                    let ghost prev = self.to_reset@;
                    let name = self.systems[i].name.clone();
                    self.to_reset.push(name);
                    assert(string_views(self.to_reset@) =~= string_views(prev).push(
                        names[i as int],
                    ));
                    i = i + 1;
                }
                assert(names.take(i as int) =~= names);
                None
            },
            BackgroundMessage::LoadFile(file) => Some(file),
        }
    }
}

/// How long to sleep after a cycle that took `elapsed_ms` of a
/// `period_ms` budget: the rest of the budget, nothing after an overrun.
pub fn pause_millis(period_ms: u64, elapsed_ms: u64) -> (r: u64)
    ensures
        r == if elapsed_ms >= period_ms {
            0
        } else {
            period_ms - elapsed_ms
        },
{
    if elapsed_ms >= period_ms {
        0
    } else {
        period_ms - elapsed_ms
    }
}

} // verus!
