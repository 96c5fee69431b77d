//! The device tag client's decisions: the tag names of a system, the steps of
//! one read-and-reset transaction, and the gathering of the alarm values.

use vstd::prelude::*;

use rseip::cip::epath::{EPath, Segment};
use rseip::client::ab_eip::{PathError, PathParser};

verus! {

#[verifier::external_type_specification]
#[verifier::external_body]
pub struct ExEPath(EPath);

#[verifier::external_type_specification]
#[verifier::external_body]
pub struct ExSegment(Segment);

#[verifier::external_type_specification]
#[verifier::external_body]
pub struct ExPathError(PathError);

pub open spec fn is_ascii_letter(c: char) -> bool {
    ('a' <= c && c <= 'z') || ('A' <= c && c <= 'Z')
}

pub open spec fn is_symbol_char(c: char) -> bool {
    c == '_' || ('0' <= c && c <= '9') || is_ascii_letter(c)
}

/// A plain tag symbol: one to forty ASCII letters, digits and `_`, the first
/// a letter or `_`.
pub open spec fn is_plain_symbol(s: Seq<char>) -> bool {
    &&& 1 <= s.len() <= 40
    &&& s[0] == '_' || is_ascii_letter(s[0])
    &&& forall|i: int| 0 <= i < s.len() ==> is_symbol_char(#[trigger] s[i])
}

/// Relies on rseip's `PathParser::parse_tag` for `EPath`: a plain symbol
/// parses as a one-segment path, and an empty path is refused.
#[verifier::external_body]
fn parse_tag(tag: &str) -> (r: Result<EPath, PathError>)
    ensures
        is_plain_symbol(tag@) ==> r is Ok,
        tag@.len() == 0 ==> r is Err,
{
    <EPath as PathParser>::parse_tag(tag)
}

/// The tag that holds the alarm summary of a system.
pub open spec fn alarm_tag_name(system: Seq<char>) -> Seq<char> {
    "B_"@ + system + "_SumAlarm_hb"@
}

/// The tag that resets the manual alarm latch of a system.
pub open spec fn manual_reset_tag_name(system: Seq<char>) -> Seq<char> {
    "B_"@ + system + "_Alarm_Reset_Man_C"@
}

/// The tag that resets the automatic alarm latch of a system.
pub open spec fn auto_reset_tag_name(system: Seq<char>) -> Seq<char> {
    "B_"@ + system + "_Alarm_Reset_Auto_C"@
}

proof fn lemma_prefixed_symbol(system: Seq<char>, suffix: Seq<char>)
    requires
        2 + system.len() + suffix.len() <= 40,
        forall|i: int| 0 <= i < system.len() ==> is_symbol_char(#[trigger] system[i]),
        forall|i: int| 0 <= i < suffix.len() ==> is_symbol_char(#[trigger] suffix[i]),
    ensures
        is_plain_symbol("B_"@ + system + suffix),
{
    reveal_strlit("B_");
    let t = "B_"@ + system + suffix;
    assert(t[0] == 'B');
    assert forall|i: int| 0 <= i < t.len() implies is_symbol_char(#[trigger] t[i]) by {
        if 2 <= i < 2 + system.len() {
            assert(t[i] == system[i - 2]);
        } else if i >= 2 + system.len() {
            assert(t[i] == suffix[i - 2 - system.len()]);
        }
    }
}

/// For a system name of at most 19 ASCII letters, digits and `_`, all three
/// tag names are plain symbols, so the transaction reads and resets them.
pub proof fn lemma_tag_names_are_symbols(system: Seq<char>)
    requires
        system.len() <= 19,
        forall|i: int| 0 <= i < system.len() ==> is_symbol_char(#[trigger] system[i]),
    ensures
        is_plain_symbol(alarm_tag_name(system)),
        is_plain_symbol(manual_reset_tag_name(system)),
        is_plain_symbol(auto_reset_tag_name(system)),
{
    reveal_strlit("_SumAlarm_hb");
    reveal_strlit("_Alarm_Reset_Man_C");
    reveal_strlit("_Alarm_Reset_Auto_C");
    lemma_prefixed_symbol(system, "_SumAlarm_hb"@);
    lemma_prefixed_symbol(system, "_Alarm_Reset_Man_C"@);
    lemma_prefixed_symbol(system, "_Alarm_Reset_Auto_C"@);
}

/// The name of the alarm summary tag of `system`.
pub fn alarm_tag(system: &str) -> (r: String)
    ensures
        r@ == alarm_tag_name(system@),
{
    String::from_str("B_").concat(system).concat("_SumAlarm_hb")
}

/// The name of the manual reset tag of `system`.
pub fn manual_reset_tag(system: &str) -> (r: String)
    ensures
        r@ == manual_reset_tag_name(system@),
{
    String::from_str("B_").concat(system).concat("_Alarm_Reset_Man_C")
}

/// The name of the automatic reset tag of `system`.
pub fn auto_reset_tag(system: &str) -> (r: String)
    ensures
        r@ == auto_reset_tag_name(system@),
{
    String::from_str("B_").concat(system).concat("_Alarm_Reset_Auto_C")
}

/// Where a device transaction stands.
#[derive(PartialEq, Eq, Structural, Clone, Copy, Debug)]
pub enum Phase {
    Disconnected,
    Connecting,
    Reading,
    WritingManual,
    WritingAuto,
    Closing,
    Done,
}

/// What the last action of a transaction came to.
#[derive(PartialEq, Eq, Structural, Clone, Copy, Debug)]
pub enum Reply {
    Started,
    Connected,
    ConnectFailed,
    Value(bool),
    ReadFailed,
    WriteFinished,
    Closed,
}

/// What a transaction asks to be done next.
pub enum DeviceAction {
    /// Open a session with the device at the transaction's address.
    Connect,
    /// Read the boolean tag at this path.
    Read(EPath),
    /// Write `true` to the boolean tag at this path.
    Write(EPath),
    /// Close the session; how that ends does not matter.
    Close,
    /// The transaction is over, with the alarm value read (`None`: unknown).
    Finish(Option<bool>),
}

/// One read-and-reset transaction with one device:
/// connect, read the alarm summary, write both reset tags when a reset was
/// asked for and the read succeeded, then close.
pub struct Transaction {
    pub system_name: String,
    pub address: String,
    pub reset: bool,
    pub phase: Phase,
    pub value: Option<bool>,
}

impl Transaction {
    /// A value is held exactly from a successful read on, and the reset tags
    /// are written only when a reset was asked for.
    pub open spec fn wf(&self) -> bool {
        &&& (self.phase == Phase::Disconnected || self.phase == Phase::Connecting || self.phase
            == Phase::Reading) ==> self.value is None
        &&& (self.phase == Phase::WritingManual || self.phase == Phase::WritingAuto || self.phase
            == Phase::Closing) ==> self.value is Some
        &&& (self.phase == Phase::WritingManual || self.phase == Phase::WritingAuto) ==> self.reset
    }

    /// A transaction that has not started.
    pub fn new(system_name: String, address: String, reset: bool) -> (r: Transaction)
        ensures
            r.wf(),
            r.system_name@ == system_name@,
            r.address@ == address@,
            r.reset == reset,
            r.phase == Phase::Disconnected,
            r.value is None,
    {
        Transaction { system_name, address, reset, phase: Phase::Disconnected, value: None }
    }

    /// After the manual reset: write the automatic reset tag, or close when
    /// its path cannot be formed.
    fn write_auto_or_close(&mut self) -> (a: DeviceAction)
        requires
            old(self).value is Some,
            old(self).reset,
        ensures
            final(self).system_name == old(self).system_name,
            final(self).address == old(self).address,
            final(self).reset == old(self).reset,
            final(self).value == old(self).value,
            (a is Write && final(self).phase == Phase::WritingAuto) || (a is Close
                && final(self).phase == Phase::Closing),
            is_plain_symbol(auto_reset_tag_name(old(self).system_name@)) ==> a is Write,
    {
        let tag = auto_reset_tag(self.system_name.as_str());
        match parse_tag(tag.as_str()) {
            Ok(path) => {
                self.phase = Phase::WritingAuto;
                DeviceAction::Write(path)
            },
            Err(_) => {
                self.phase = Phase::Closing;
                DeviceAction::Close
            },
        }
    }

    /// Moves the transaction on by the reply to its last action, and says
    /// what to do next. A failed connect or read ends it with an unknown
    /// value; write and close failures do not change the value read.
    pub fn step(&mut self, reply: Reply) -> (a: DeviceAction)
        requires
            old(self).wf(),
        ensures
            final(self).wf(),
            final(self).system_name == old(self).system_name,
            final(self).address == old(self).address,
            final(self).reset == old(self).reset,
            a is Write ==> final(self).reset && final(self).value is Some && (final(self).phase
                == Phase::WritingManual || final(self).phase == Phase::WritingAuto),
            a is Finish ==> final(self).phase == Phase::Done && a == DeviceAction::Finish(
                final(self).value,
            ),
            old(self).phase == Phase::Disconnected ==> a is Connect && final(self).phase
                == Phase::Connecting,
            old(self).phase == Phase::Connecting && reply != Reply::Connected ==> a
                == DeviceAction::Finish(None),
            old(self).phase == Phase::Connecting && reply == Reply::Connected ==> (a is Read
                && final(self).phase == Phase::Reading) || a == DeviceAction::Finish(None),
            old(self).phase == Phase::Connecting && reply == Reply::Connected && is_plain_symbol(
                alarm_tag_name(old(self).system_name@),
            ) ==> a is Read,
            old(self).phase == Phase::Reading && !(reply is Value) ==> a == DeviceAction::Finish(
                None,
            ),
            old(self).phase == Phase::Reading && reply is Value ==> final(self).value == Some(
                reply->Value_0,
            ),
            old(self).phase == Phase::Reading && reply is Value && !old(self).reset ==> a is Close
                && final(self).phase == Phase::Closing,
            old(self).phase == Phase::Reading && reply is Value && old(self).reset
                && is_plain_symbol(manual_reset_tag_name(old(self).system_name@)) ==> a is Write
                && final(self).phase == Phase::WritingManual,
            old(self).phase == Phase::Reading && reply is Value && old(self).reset
                && is_plain_symbol(auto_reset_tag_name(old(self).system_name@)) ==> a is Write,
            old(self).phase == Phase::WritingManual ==> final(self).value == old(self).value && (
            a is Write || a is Close),
            old(self).phase == Phase::WritingManual && is_plain_symbol(
                auto_reset_tag_name(old(self).system_name@),
            ) ==> a is Write && final(self).phase == Phase::WritingAuto,
            old(self).phase == Phase::WritingAuto ==> a is Close && final(self).phase
                == Phase::Closing && final(self).value == old(self).value,
            old(self).phase == Phase::Closing || old(self).phase == Phase::Done ==> a
                == DeviceAction::Finish(old(self).value),
    {
        match self.phase {
            Phase::Disconnected => {
                self.phase = Phase::Connecting;
                DeviceAction::Connect
            },
            Phase::Connecting => {
                if reply == Reply::Connected {
                    let tag = alarm_tag(self.system_name.as_str());
                    match parse_tag(tag.as_str()) {
                        Ok(path) => {
                            self.phase = Phase::Reading;
                            return DeviceAction::Read(path);
                        },
                        Err(_) => {},
                    }
                }
                self.phase = Phase::Done;
                DeviceAction::Finish(None)
            },
            Phase::Reading => {
                match reply {
                    Reply::Value(v) => {
                        self.value = Some(v);
                        if self.reset {
                            let tag = manual_reset_tag(self.system_name.as_str());
                            match parse_tag(tag.as_str()) {
                                Ok(path) => {
                                    self.phase = Phase::WritingManual;
                                    DeviceAction::Write(path)
                                },
                                Err(_) => self.write_auto_or_close(),
                            }
                        } else {
                            self.phase = Phase::Closing;
                            DeviceAction::Close
                        }
                    },
                    _ => {
                        self.phase = Phase::Done;
                        DeviceAction::Finish(None)
                    },
                }
            },
            Phase::WritingManual => self.write_auto_or_close(),
            Phase::WritingAuto => {
                self.phase = Phase::Closing;
                DeviceAction::Close
            },
            Phase::Closing | Phase::Done => {
                self.phase = Phase::Done;
                DeviceAction::Finish(self.value)
            },
        }
    }
}

/// The alarm value that the completed transactions report for request `i`:
/// that of the last one with a value, `None` when none has one.
pub open spec fn reported(completed: Seq<(usize, Option<bool>)>, i: int) -> Option<bool>
    decreases completed.len(),
{
    if completed.len() == 0 {
        None
    } else if completed.last().0 == i && completed.last().1 is Some {
        completed.last().1
    } else {
        reported(completed.drop_last(), i)
    }
}

/// A request that no transaction completed for within the deadline is unknown.
pub proof fn lemma_unfinished_is_unknown(completed: Seq<(usize, Option<bool>)>, i: int)
    requires
        forall|j: int| 0 <= j < completed.len() ==> #[trigger] completed[j].0 != i,
    ensures
        reported(completed, i) is None,
    decreases completed.len(),
{
    if completed.len() > 0 {
        assert(completed.last().0 != i);
        lemma_unfinished_is_unknown(completed.drop_last(), i);
    }
}

/// The request names paired with the alarm values that `completed` reports.
pub open spec fn alarm_outcome(
    requests: Seq<(String, String, bool)>,
    completed: Seq<(usize, Option<bool>)>,
) -> Seq<(Seq<char>, Option<bool>)> {
    Seq::new(requests.len(), |i: int| (requests[i].0@, reported(completed, i)))
}

pub open spec fn alarm_views(results: Seq<(String, Option<bool>)>) -> Seq<(Seq<char>, Option<bool>)> {
    results.map_values(|e: (String, Option<bool>)| (e.0@, e.1))
}

/// One entry per request `(system, address, reset)`, in order: the system
/// name and the alarm value read for it. `completed` holds the index of each
/// transaction that finished before the deadline and its result; a request
/// without one is unknown.
pub fn merge_alarm_results(
    requests: &Vec<(String, String, bool)>,
    completed: &Vec<(usize, Option<bool>)>,
) -> (r: Vec<(String, Option<bool>)>)
    ensures
        alarm_views(r@) == alarm_outcome(requests@, completed@),
{
    let n = requests.len();
    let mut values: Vec<Option<bool>> = Vec::new();
    let mut i: usize = 0;
    while i < n
        invariant
            n == requests@.len(),
            i <= n,
            values@.len() == i,
            forall|k: int| 0 <= k < i ==> #[trigger] values@[k] is None,
        decreases n - i,
    {
        values.push(None);
        i = i + 1;
    }
    let mut j: usize = 0;
    while j < completed.len()
        invariant
            n == requests@.len(),
            values@.len() == n,
            j <= completed@.len(),
            forall|k: int|
                0 <= k < n ==> #[trigger] values@[k] == reported(completed@.take(j as int), k),
        decreases completed@.len() - j,
    {
        let (index, value) = completed[j];
        assert(completed@.take(j + 1).drop_last() =~= completed@.take(j as int));
        if index < n && value.is_some() {
            values.set(index, value);
        }
        j = j + 1;
    }
    assert(completed@.take(j as int) =~= completed@);
    let ghost want = alarm_outcome(requests@, completed@);
    let mut out: Vec<(String, Option<bool>)> = Vec::new();
    let mut k: usize = 0;
    while k < n
        invariant
            n == requests@.len(),
            values@.len() == n,
            want == alarm_outcome(requests@, completed@),
            k <= n,
            forall|q: int| 0 <= q < n ==> #[trigger] values@[q] == reported(completed@, q),
            alarm_views(out@) =~= want.take(k as int),
        decreases n - k,
    {
        let ghost prev = out@;
        out.push((requests[k].0.clone(), values[k]));
        assert(alarm_views(out@) =~= alarm_views(prev).push(want[k as int]));
        k = k + 1;
    }
    assert(want.take(k as int) =~= want);
    out
}

} // verus!
