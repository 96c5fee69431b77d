//! The indicator levels that the presentation shows for a system.

use vstd::prelude::*;

use crate::system::{failed_labels, SystemInfo, SystemView, all_responding};
use crate::text::{join_lines, push_char};

verus! {

/// The level of one indicator.
#[derive(PartialEq, Eq, Structural, Clone, Copy, Debug)]
pub enum Status {
    Fault,
    Warning,
    Normal,
}

/// A group of hosts is normal when all respond, else at fault.
pub fn hosts_status(all_ok: bool) -> (r: Status)
    ensures
        r == if all_ok {
            Status::Normal
        } else {
            Status::Fault
        },
{
    if all_ok {
        Status::Normal
    } else {
        Status::Fault
    }
}

/// An unknown alarm state is a fault, an active alarm a warning, no alarm normal.
pub fn alarm_status(alarm: Option<bool>) -> (r: Status)
    ensures
        r == match alarm {
            None => Status::Fault,
            Some(true) => Status::Warning,
            Some(false) => Status::Normal,
        },
{
    match alarm {
        None => Status::Fault,
        Some(true) => Status::Warning,
        Some(false) => Status::Normal,
    }
}

/// The text of an alarm state: `Unknown`, `true` or `false`.
pub fn alarm_text(alarm: Option<bool>) -> (r: String)
    ensures
        r@ == match alarm {
            None => "Unknown"@,
            Some(true) => "true"@,
            Some(false) => "false"@,
        },
{
    match alarm {
        None => String::from_str("Unknown"),
        Some(true) => String::from_str("true"),
        Some(false) => String::from_str("false"),
    }
}

/// The non-responding host labels of the systems that have any, system by
/// system, in the order given.
pub open spec fn failed_report(systems: Seq<SystemView>) -> Seq<Seq<char>>
    decreases systems.len(),
{
    if systems.len() == 0 {
        Seq::empty()
    } else {
        let s = systems.last();
        if all_responding(s.eths) && all_responding(s.nodes) {
            failed_report(systems.drop_last())
        } else {
            failed_report(systems.drop_last()).push(
                join_lines(failed_labels(s.eths) + failed_labels(s.nodes)),
            )
        }
    }
}

/// The report of failed hosts over `systems`: for each system with a host
/// that does not respond, its failed host labels; one per line.
pub fn failed_hosts_report(systems: &Vec<SystemInfo>) -> (r: String)
    ensures
        r@ == join_lines(failed_report(systems@.map_values(|s: SystemInfo| s@))),
{
    let ghost sv = systems@.map_values(|s: SystemInfo| s@);
    let mut out = String::new();
    let mut any = false;
    let mut i: usize = 0;
    while i < systems.len()
        invariant
            sv == systems@.map_values(|s: SystemInfo| s@),
            any == (failed_report(sv.take(i as int)).len() > 0),
            i <= systems@.len(),
            out@ == join_lines(failed_report(sv.take(i as int))),
        decreases systems@.len() - i,
    {
        let ghost before = failed_report(sv.take(i as int));
        assert(sv.take(i + 1).drop_last() =~= sv.take(i as int));
        assert(sv.take(i + 1).last() == systems@[i as int]@);
        if !(systems[i].eths_ok() && systems[i].nodes_ok()) {
            if any {
                push_char(&mut out, '\n');
            }
            any = true;
            let part = systems[i].failed_hosts();
            out.append(part.as_str());
            assert(before.push(part@).drop_last() =~= before);
        }
        i = i + 1;
    }
    assert(sv.take(i as int) =~= sv);
    out
}

} // verus!
