//! The reachability prober's bookkeeping: the ping command line for each
//! address, and the gathering of the answers into one entry per address.

use vstd::prelude::*;

use crate::system::{covers, response_views, string_views};

verus! {

/// The options given to `ping` on the named platform: two attempts with a
/// one second timeout.
pub open spec fn ping_options(os: Seq<char>) -> Seq<Seq<char>> {
    if os == "windows"@ {
        seq!["-n"@, "2"@, "-w"@, "1000"@]
    } else if os == "macos"@ {
        seq!["-c"@, "2"@, "-t"@, "1"@]
    } else {
        seq!["-c"@, "2"@, "-W"@, "1"@]
    }
}

/// Some probe of address `i` completed and reported an answer.
pub open spec fn answered(completed: Seq<(usize, bool)>, i: int) -> bool {
    exists|j: int| 0 <= j < completed.len() && #[trigger] completed[j].0 == i && completed[j].1
}

/// One entry per probed address, in order: the address and whether a probe
/// of it answered. A probe that never completed counts as no answer.
pub open spec fn probe_outcome(addresses: Seq<Seq<char>>, completed: Seq<(usize, bool)>) -> Seq<
    (Seq<char>, bool),
> {
    Seq::new(addresses.len(), |i: int| (addresses[i], answered(completed, i)))
}

/// Every probed address has an entry in the outcome, whatever probes completed.
pub proof fn lemma_every_address_answered(
    addresses: Seq<Seq<char>>,
    completed: Seq<(usize, bool)>,
)
    ensures
        probe_outcome(addresses, completed).len() == addresses.len(),
        forall|i: int|
            0 <= i < addresses.len() ==> covers(
                probe_outcome(addresses, completed),
                #[trigger] addresses[i],
            ),
{
    let out = probe_outcome(addresses, completed);
    assert forall|i: int| 0 <= i < addresses.len() implies covers(out, #[trigger] addresses[i]) by {
        assert(out[i].0 == addresses[i]);
    }
}

/// The addresses probed each cycle and the options of the `ping` command.
pub struct Multipinger {
    pub addresses: Vec<String>,
    pub arguments: Vec<String>,
}

/// A copy of `v`.
pub fn copy_strings(v: &Vec<String>) -> (r: Vec<String>)
    ensures
        string_views(r@) == string_views(v@),
{
    let mut out: Vec<String> = Vec::new();
    let mut i: usize = 0;
    while i < v.len()
        invariant
            i <= v@.len(),
            string_views(out@) =~= string_views(v@).take(i as int),
        decreases v@.len() - i,
    {
        let ghost prev = out@;
        out.push(v[i].clone());
        assert(string_views(out@) =~= string_views(prev).push(v@[i as int]@));
        i = i + 1;
    }
    assert(string_views(v@).take(i as int) =~= string_views(v@));
    out
}

fn strings_of(parts: [&str; 4]) -> (r: Vec<String>)
    ensures
        string_views(r@) == seq![parts[0]@, parts[1]@, parts[2]@, parts[3]@],
{
    let mut out: Vec<String> = Vec::new();
    out.push(String::from_str(parts[0]));
    out.push(String::from_str(parts[1]));
    out.push(String::from_str(parts[2]));
    out.push(String::from_str(parts[3]));
    assert(string_views(out@) =~= seq![parts[0]@, parts[1]@, parts[2]@, parts[3]@]);
    out
}

impl Multipinger {
    /// A prober for `addresses`, with the `ping` options of the platform named `os`.
    pub fn new(addresses: Vec<String>, os: &str) -> (r: Multipinger)
        ensures
            r.addresses@ == addresses@,
            string_views(r.arguments@) == ping_options(os@),
    {
        let name = String::from_str(os);
        let arguments = if name == String::from_str("windows") {
            strings_of(["-n", "2", "-w", "1000"])
        } else if name == String::from_str("macos") {
            strings_of(["-c", "2", "-t", "1"])
        } else {
            strings_of(["-c", "2", "-W", "1"])
        };
        Multipinger { addresses, arguments }
    }

    /// The arguments of the `ping` command for address `i`: the options, then the address.
    pub fn ping_command(&self, i: usize) -> (r: Vec<String>)
        requires
            i < self.addresses@.len(),
        ensures
            string_views(r@) == string_views(self.arguments@).push(self.addresses@[i as int]@),
    {
        let mut command = copy_strings(&self.arguments);
        let ghost prev = command@;
        command.push(self.addresses[i].clone());
        assert(string_views(command@) =~= string_views(prev).push(self.addresses@[i as int]@));
        command
    }

    /// One entry per address, in order: whether a completed probe of it
    /// answered. `completed` holds the index of each probe that finished
    /// and its answer; an address whose probe failed or never finished
    /// maps to `false`.
    pub fn merge_results(&self, completed: &Vec<(usize, bool)>) -> (r: Vec<(String, bool)>)
        ensures
            response_views(r@) == probe_outcome(string_views(self.addresses@), completed@),
    {
        let n = self.addresses.len();
        let mut flags: Vec<bool> = Vec::new();
        let mut i: usize = 0;
        while i < n
            invariant
                n == self.addresses@.len(),
                i <= n,
                flags@.len() == i,
                forall|k: int| 0 <= k < i ==> !#[trigger] flags@[k],
            decreases n - i,
        {
            flags.push(false);
            i = i + 1;
        }
        let mut j: usize = 0;
        while j < completed.len()
            invariant
                n == self.addresses@.len(),
                flags@.len() == n,
                j <= completed@.len(),
                forall|k: int|
                    0 <= k < n ==> #[trigger] flags@[k] == exists|m: int|
                        0 <= m < j && #[trigger] completed@[m].0 == k && completed@[m].1,
            decreases completed@.len() - j,
        {
            let (index, ok) = completed[j];
            if ok && index < n {
                flags.set(index, true);
            }
            assert forall|k: int| 0 <= k < n implies #[trigger] flags@[k] == exists|m: int|
                0 <= m < j + 1 && #[trigger] completed@[m].0 == k && completed@[m].1 by {
                if completed@[j as int].0 == k && completed@[j as int].1 {
                    assert(0 <= j < j + 1 && completed@[j as int].0 == k);
                }
            }
            j = j + 1;
        }
        let ghost want = probe_outcome(string_views(self.addresses@), completed@);
        let mut out: Vec<(String, bool)> = Vec::new();
        let mut k: usize = 0;
        while k < n
            invariant
                n == self.addresses@.len(),
                flags@.len() == n,
                want == probe_outcome(string_views(self.addresses@), completed@),
                k <= n,
                forall|q: int| 0 <= q < n ==> #[trigger] flags@[q] == answered(completed@, q),
                response_views(out@) =~= want.take(k as int),
            decreases n - k,
        {
            let ghost prev = out@;
            out.push((self.addresses[k].clone(), flags[k]));
            assert(response_views(out@) =~= response_views(prev).push(want[k as int]));
            k = k + 1;
        }
        assert(want.take(k as int) =~= want);
        out
    }
}

} // verus!
