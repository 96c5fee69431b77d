//! The topology importer: builds the system map from a host list, one host
//! per line as `label,address`.

use vstd::prelude::*;

use crate::system::{Host, HostView, SystemInfo, SystemView};
use crate::text::{
    before_first, chars_of, contains_eth, find_char, lemma_before_first, mentions_eth, split_on,
    string_of, trim_bounds, trimmed,
};

verus! {

/// The name of the system that a host label belongs to: the part before the first `_`.
pub open spec fn system_name(label: Seq<char>) -> Seq<char> {
    before_first(label, '_')
}

/// The host that a line describes, as trimmed label and address; `None` for a
/// line that does not hold exactly two comma-separated fields.
pub open spec fn line_entry(line: Seq<char>) -> Option<(Seq<char>, Seq<char>)> {
    let parts = split_on(line, ',');
    if parts.len() == 2 {
        Some((trimmed(parts[0]), trimmed(parts[1])))
    } else {
        None
    }
}

/// The index of the first system named `name`, or -1.
pub open spec fn position_of(systems: Seq<SystemView>, name: Seq<char>) -> int
    decreases systems.len(),
{
    if systems.len() == 0 {
        -1
    } else if systems[0].name == name {
        0
    } else {
        let p = position_of(systems.drop_first(), name);
        if p < 0 {
            -1
        } else {
            p + 1
        }
    }
}

/// `system` with `host` appended to its ethernet hosts when the label
/// mentions `eth` in any case, else to its nodes.
pub open spec fn with_host(system: SystemView, host: HostView) -> SystemView {
    if mentions_eth(host.label) {
        SystemView { eths: system.eths.push(host), ..system }
    } else {
        SystemView { nodes: system.nodes.push(host), ..system }
    }
}

/// `systems` after one more host line: the host joins the system named after
/// its label, which is created at the end when it is new.
pub open spec fn add_host(systems: Seq<SystemView>, label: Seq<char>, address: Seq<char>) -> Seq<
    SystemView,
> {
    let host = HostView { label, address, responding: false };
    let k = position_of(systems, system_name(label));
    if k < 0 {
        let fresh = SystemView {
            name: system_name(label),
            eths: Seq::empty(),
            nodes: Seq::empty(),
            alarm: None,
        };
        systems.push(with_host(fresh, host))
    } else {
        systems.update(k, with_host(systems[k], host))
    }
}

/// The systems that the lines describe, in order of first mention.
pub open spec fn topology_of_lines(lines: Seq<Seq<char>>) -> Seq<SystemView>
    decreases lines.len(),
{
    if lines.len() == 0 {
        Seq::empty()
    } else {
        let before = topology_of_lines(lines.drop_last());
        match line_entry(lines.last()) {
            Some(entry) => add_host(before, entry.0, entry.1),
            None => before,
        }
    }
}

/// The systems that a host list describes.
pub open spec fn topology(text: Seq<char>) -> Seq<SystemView> {
    topology_of_lines(split_on(text, '\n'))
}

pub open spec fn system_views(systems: Seq<SystemInfo>) -> Seq<SystemView> {
    systems.map_values(|s: SystemInfo| s@)
}

/// `position_of` finds the first system with the name.
pub proof fn lemma_position_of(systems: Seq<SystemView>, name: Seq<char>, k: int)
    requires
        0 <= k <= systems.len(),
        forall|j: int| 0 <= j < k ==> systems[j].name != name,
        k == systems.len() || systems[k].name == name,
    ensures
        position_of(systems, name) == if k == systems.len() {
            -1
        } else {
            k
        },
    decreases systems.len(),
{
    if systems.len() > 0 && systems[0].name != name {
        lemma_position_of(systems.drop_first(), name, k - 1);
    }
}

/// The system name of a label is the prefix that ends just before its first
/// `_`, or the whole label when it has none.
pub proof fn lemma_system_name(label: Seq<char>)
    ensures
        system_name(label).len() <= label.len(),
        system_name(label) == label.take(system_name(label).len() as int),
        !system_name(label).contains('_'),
        system_name(label).len() < label.len() ==> label[system_name(label).len() as int] == '_',
{
    let k = choose_first(label, '_');
    lemma_before_first(label, '_', k);
    assert(label.take(k) =~= system_name(label));
    assert forall|j: int| 0 <= j < k implies system_name(label)[j] != '_' by {}
}

/// The index of the first `c` in `s`, or its length.
proof fn choose_first(s: Seq<char>, c: char) -> (k: int)
    ensures
        0 <= k <= s.len(),
        forall|j: int| 0 <= j < k ==> s[j] != c,
        k == s.len() || s[k] == c,
    decreases s.len(),
{
    if s.len() == 0 {
        0
    } else {
        let k = choose_first(s.drop_last(), c);
        assert(forall|j: int| 0 <= j < s.len() - 1 ==> s.drop_last()[j] == s[j]);
        if k < s.len() - 1 {
            k
        } else if s.last() == c {
            s.len() - 1
        } else {
            s.len() as int
        }
    }
}

/// Whether a host label names an ethernet interface: it contains `eth` in any case.
pub fn is_ethernet_label(label: &str) -> (r: bool)
    ensures
        r == mentions_eth(label@),
{
    contains_eth(&chars_of(label))
}

/// The name of the system that a host label belongs to.
pub fn system_name_of(label: &str) -> (r: String)
    ensures
        r@ == system_name(label@),
{
    let chars = chars_of(label);
    let k = find_char(&chars, '_');
    string_of(&chars, 0, k)
}

/// The trimmed label and address of the line `chars[lo..hi]`, if it holds
/// exactly two comma-separated fields.
fn parse_line(chars: &Vec<char>, lo: usize, hi: usize) -> (r: Option<(String, String)>)
    requires
        lo <= hi <= chars@.len(),
    ensures
        match line_entry(chars@.subrange(lo as int, hi as int)) {
            Some(e) => r matches Some(p) && p.0@ == e.0 && p.1@ == e.1,
            None => r is None,
        },
{
    let mut commas: usize = 0;
    let mut comma_at: usize = lo;
    let mut j: usize = lo;
    assert(chars@.subrange(lo as int, lo as int) =~= Seq::<char>::empty());
    while j < hi
        invariant
            lo <= j <= hi <= chars@.len(),
            commas <= j - lo,
            split_on(chars@.subrange(lo as int, j as int), ',').len() == commas + 1,
            commas == 0 ==> split_on(chars@.subrange(lo as int, j as int), ',') == seq![
                chars@.subrange(lo as int, j as int),
            ],
            commas == 1 ==> lo <= comma_at < j && split_on(
                chars@.subrange(lo as int, j as int),
                ',',
            ) == seq![
                chars@.subrange(lo as int, comma_at as int),
                chars@.subrange(comma_at + 1, j as int),
            ],
        decreases hi - j,
    {
        let ghost sub = chars@.subrange(lo as int, j as int);
        let ghost next = chars@.subrange(lo as int, j + 1);
        assert(next.drop_last() =~= sub);
        assert(next.last() == chars@[j as int]);
        if chars[j] == ',' {
            if commas == 0 {
                comma_at = j;
                assert(split_on(next, ',') =~~= seq![
                    chars@.subrange(lo as int, comma_at as int),
                    chars@.subrange(comma_at + 1, j + 1),
                ]);
            }
            commas = commas + 1;
        } else {
            if commas == 0 {
                assert(split_on(next, ',') =~~= seq![next]);
            } else if commas == 1 {
                assert(split_on(next, ',') =~~= seq![
                    chars@.subrange(lo as int, comma_at as int),
                    chars@.subrange(comma_at + 1, j + 1),
                ]);
            }
        }
        j = j + 1;
    }
    if commas != 1 {
        return None;
    }
    let (a, b) = trim_bounds(chars, lo, comma_at);
    let (c, d) = trim_bounds(chars, comma_at + 1, hi);
    Some((string_of(chars, a, b), string_of(chars, c, d)))
}

/// Adds the host `label,address` to the system named after its label.
fn add_host_line(systems: &mut Vec<SystemInfo>, label: String, address: String)
    ensures
        system_views(final(systems)@) == add_host(system_views(old(systems)@), label@, address@),
{
    let ghost sv = system_views(systems@);
    let name = system_name_of(label.as_str());
    let eth = is_ethernet_label(label.as_str());
    let host = Host::new(label, address);
    let mut k: usize = 0;
    while k < systems.len() && !(systems[k].name == name)
        invariant
            sv == system_views(systems@),
            systems@ == old(systems)@,
            k <= systems@.len(),
            forall|j: int| 0 <= j < k ==> sv[j].name != name@,
        decreases systems@.len() - k,
    {
        assert(sv[k as int].name == systems@[k as int].name@);
        k = k + 1;
    }
    assert(k < sv.len() ==> sv[k as int].name == systems@[k as int].name@);
    proof {
        lemma_position_of(sv, name@, k as int);
    }
    if k == systems.len() {
        let mut fresh = SystemInfo::new(name);
        if eth {
            fresh.add_eth(host);
        } else {
            fresh.add_node(host);
        }
        systems.push(fresh);
    } else {
        if eth {
            systems[k].add_eth(host);
        } else {
            systems[k].add_node(host);
        }
    }
    assert(system_views(systems@) =~= add_host(sv, label@, address@));
}

/// Builds the systems that a host list describes. Lines that do not hold
/// exactly two comma-separated fields are skipped; labels and addresses are
/// trimmed of white space.
pub fn import(contents: &str) -> (r: Vec<SystemInfo>)
    ensures
        system_views(r@) == topology(contents@),
{
    let chars = chars_of(contents);
    let n = chars.len();
    let mut systems: Vec<SystemInfo> = Vec::new();
    let ghost mut done: Seq<Seq<char>> = Seq::empty();
    let mut start: usize = 0;
    let mut i: usize = 0;
    assert(chars@.take(0) =~= Seq::<char>::empty());
    assert(split_on(chars@.take(0), '\n') =~~= done.push(chars@.subrange(0, 0)));
    assert(system_views(systems@) =~= topology_of_lines(done));
    while i < n
        invariant
            n == chars@.len(),
            start <= i <= n,
            split_on(chars@.take(i as int), '\n') == done.push(
                chars@.subrange(start as int, i as int),
            ),
            system_views(systems@) == topology_of_lines(done),
        decreases n - i,
    {
        assert(chars@.take(i + 1).drop_last() =~= chars@.take(i as int));
        assert(chars@.take(i + 1).last() == chars@[i as int]);
        if chars[i] == '\n' {
            let ghost line = chars@.subrange(start as int, i as int);
            assert(done.push(line).drop_last() =~= done);
            match parse_line(&chars, start, i) {
                Some((label, address)) => add_host_line(&mut systems, label, address),
                None => {},
            }
            proof {
                done = done.push(line);
            }
            start = i + 1;
            assert(split_on(chars@.take(i + 1), '\n') =~~= done.push(
                chars@.subrange(start as int, i + 1),
            ));
        } else {
            assert(split_on(chars@.take(i + 1), '\n') =~~= done.push(
                chars@.subrange(start as int, i + 1),
            ));
        }
        i = i + 1;
    }
    let ghost line = chars@.subrange(start as int, n as int);
    assert(done.push(line).drop_last() =~= done);
    match parse_line(&chars, start, n) {
        Some((label, address)) => add_host_line(&mut systems, label, address),
        None => {},
    }
    assert(chars@.take(n as int) =~= chars@);
    systems
}

/// `position_of` is -1 exactly when no system has the name, else the index
/// of one that has it.
pub proof fn lemma_position_of_found(systems: Seq<SystemView>, name: Seq<char>)
    ensures
        position_of(systems, name) < 0 <==> forall|j: int|
            0 <= j < systems.len() ==> #[trigger] systems[j].name != name,
        position_of(systems, name) >= 0 ==> position_of(systems, name) < systems.len()
            && systems[position_of(systems, name)].name == name,
    decreases systems.len(),
{
    if systems.len() > 0 {
        lemma_position_of_found(systems.drop_first(), name);
        if systems[0].name != name {
            assert forall|j: int| 1 <= j < systems.len() implies systems.drop_first()[j - 1]
                == systems[j] by {}
            if position_of(systems, name) < 0 {
                assert forall|j: int| 0 <= j < systems.len() implies #[trigger] systems[j].name
                    != name by {
                    if j > 0 {
                        assert(systems.drop_first()[j - 1].name != name);
                    }
                }
            } else {
                assert(systems.drop_first()[position_of(systems, name) - 1] == systems[position_of(systems, name)]);
            }
        }
    }
}

/// No two systems share a name, every host sits in the system named after
/// its label, ethernet hosts are those whose label mentions `eth`, and
/// nothing has been probed or read yet.
pub open spec fn well_classified(systems: Seq<SystemView>) -> bool {
    &&& forall|i: int, j: int|
        0 <= i < j < systems.len() ==> #[trigger] systems[i].name != #[trigger] systems[j].name
    &&& forall|i: int| 0 <= i < systems.len() ==> #[trigger] systems[i].alarm is None
    &&& forall|i: int, k: int|
        0 <= i < systems.len() && 0 <= k < systems[i].eths.len() ==> {
            let h = #[trigger] systems[i].eths[k];
            mentions_eth(h.label) && system_name(h.label) == systems[i].name && !h.responding
        }
    &&& forall|i: int, k: int|
        0 <= i < systems.len() && 0 <= k < systems[i].nodes.len() ==> {
            let h = #[trigger] systems[i].nodes[k];
            !mentions_eth(h.label) && system_name(h.label) == systems[i].name && !h.responding
        }
}

proof fn lemma_topology_of_lines(lines: Seq<Seq<char>>)
    ensures
        well_classified(topology_of_lines(lines)),
    decreases lines.len(),
{
    if lines.len() > 0 {
        let before = topology_of_lines(lines.drop_last());
        lemma_topology_of_lines(lines.drop_last());
        match line_entry(lines.last()) {
            Some(e) => {
                lemma_position_of_found(before, system_name(e.0));
                let after = add_host(before, e.0, e.1);
                let k = position_of(before, system_name(e.0));
                if k < 0 {
                    assert forall|i: int, j: int|
                        0 <= i < j < after.len() implies #[trigger] after[i].name
                        != #[trigger] after[j].name by {
                        if j == before.len() {
                            assert(before[i].name != system_name(e.0));
                        } else {
                            assert(before[i].name != before[j].name);
                        }
                    }
                } else {
                    assert forall|i: int, j: int|
                        0 <= i < j < after.len() implies #[trigger] after[i].name
                        != #[trigger] after[j].name by {
                        assert(before[i].name != before[j].name);
                    }
                }
                assert(well_classified(after));
            },
            None => {},
        }
    }
}

/// What `import` builds: systems with distinct names; each host in the system
/// named by its label's prefix before the first `_`; a host among the
/// ethernet hosts exactly when its label contains `eth` in any case; all
/// hosts not yet responding and all alarms unknown.
pub proof fn lemma_import_classification(text: Seq<char>)
    ensures
        well_classified(topology(text)),
{
    lemma_topology_of_lines(split_on(text, '\n'));
}

} // verus!
