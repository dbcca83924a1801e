//! The real-time dispatch rules: what the shell must send where and when.
//! Translated wire messages become actions with an absolute delay in
//! milliseconds; the shell stamps each with its wall-clock deadline and
//! performs the transport send. The one-time readiness wait compares
//! arriving messages against the awaited one here.
use vstd::prelude::*;

use crate::dec::Dec;
use crate::envelope::{TimedOSCPacket, TimedV};
use crate::osc::{ArgV, MsgV, OscArg, OscMessage, OscPacket, PktV, args_view, pkt_view};
use crate::osc_model::timeds_view;
use crate::strutil::str_eq;

verus! {

/// A value clamped into the `u64` range.
pub open spec fn satu64(x: int) -> int {
    if x > u64::MAX {
        u64::MAX as int
    } else if x < 0 {
        0
    } else {
        x
    }
}

/// The delivery delay of one timed message: a message at time zero still
/// gets the delay floor; a later one adds its offset in milliseconds.
pub open spec fn spec_deadline(delay_ms: int, time: int) -> int {
    if time <= 0 {
        delay_ms
    } else {
        satu64(delay_ms + time / 100)
    }
}

/// One outward step the shell performs for the library.
pub enum Action {
    /// Wrap the packet in a single-element envelope stamped `now + delay`
    /// and send it to the engine's synthesis port.
    SendToScsynth { delay_ms: u64, packet: OscPacket },
    /// Send the message to the engine's interpreter port.
    SendToSclang { msg: OscMessage },
    /// Answer the external caller with an event stamped `now + delay`.
    EventTrigger { message: String, delay_ms: u64 },
    /// Write the rendered score under this file name.
    WriteScoreFile { file_name: String, contents: String },
    /// Block briefly for the engine's render-completion signal and report
    /// the outcome for this file to the external caller.
    AwaitNrtCompletion { file_name: String },
}

/// Ghost image of an action.
pub enum ActV {
    SendToScsynth { delay_ms: int, packet: PktV },
    SendToSclang { msg: MsgV },
    EventTrigger { message: Seq<char>, delay_ms: int },
    WriteScoreFile { file_name: Seq<char>, contents: Seq<char> },
    AwaitNrtCompletion { file_name: Seq<char> },
}

impl View for Action {
    type V = ActV;

    open spec fn view(&self) -> ActV {
        match self {
            Action::SendToScsynth { delay_ms, packet } => ActV::SendToScsynth {
                delay_ms: *delay_ms as int,
                packet: pkt_view(*packet),
            },
            Action::SendToSclang { msg } => ActV::SendToSclang { msg: msg@ },
            Action::EventTrigger { message, delay_ms } => ActV::EventTrigger {
                message: message@,
                delay_ms: *delay_ms as int,
            },
            Action::WriteScoreFile { file_name, contents } => ActV::WriteScoreFile {
                file_name: file_name@,
                contents: contents@,
            },
            Action::AwaitNrtCompletion { file_name } => ActV::AwaitNrtCompletion {
                file_name: file_name@,
            },
        }
    }
}

/// Ghost images of an action list.
pub open spec fn acts_view(s: Seq<Action>) -> Seq<ActV> {
    s.map_values(|a: Action| a@)
}

/// The sends for a list of timed messages under one delay floor.
pub open spec fn spec_schedule(delay_ms: int, msgs: Seq<TimedV>) -> Seq<ActV> {
    Seq::new(
        msgs.len(),
        |k: int|
            ActV::SendToScsynth {
                delay_ms: spec_deadline(delay_ms, msgs[k].time),
                packet: msgs[k].packet,
            },
    )
}

/// Turn translated messages into engine sends: every message gets the
/// delay floor, and a positive time offset adds its milliseconds.
pub fn schedule_timed_packets(delay_ms: u64, msgs: Vec<TimedOSCPacket>) -> (r: Vec<Action>)
    ensures
        acts_view(r@) == spec_schedule(delay_ms as int, timeds_view(msgs@)),
{
    let ghost whole = timeds_view(msgs@);
    let mut out: Vec<Action> = Vec::new();
    let mut i: usize = 0;
    while i < msgs.len()
        invariant
            i <= msgs@.len(),
            whole == timeds_view(msgs@),
            out@.len() == i,
            forall|k: int|
                0 <= k < i ==> (#[trigger] out@[k])@ == (ActV::SendToScsynth {
                    delay_ms: spec_deadline(delay_ms as int, whole[k].time),
                    packet: whole[k].packet,
                }),
        decreases msgs@.len() - i,
    {
        let msg = &msgs[i];
        let d: u64 = if msg.time.is_zero() || msg.time.lt(Dec::zero()) {
            delay_ms
        } else {
            let extra = msg.time.to_millis();
            if delay_ms > u64::MAX - extra {
                u64::MAX
            } else {
                delay_ms + extra
            }
        };
        out.push(
            Action::SendToScsynth { delay_ms: d, packet: crate::osc::clone_packet(&msg.packet) },
        );
        proof {
            assert(whole[i as int] == msgs@[i as int]@);
        }
        i = i + 1;
    }
    proof {
        assert(acts_view(out@) =~= spec_schedule(delay_ms as int, whole));
    }
    out
}

/// Whether two arguments carry the same value.
pub fn arg_eq(a: &OscArg, b: &OscArg) -> (r: bool)
    ensures
        r == (a@ == b@),
{
    match (a, b) {
        (OscArg::Int(x), OscArg::Int(y)) => x == y,
        (OscArg::Str(x), OscArg::Str(y)) => str_eq(x.as_str(), y.as_str()),
        (OscArg::Dec(x), OscArg::Dec(y)) => x.units == y.units,
        (OscArg::Time(s1, f1), OscArg::Time(s2, f2)) => s1 == s2 && f1 == f2,
        (OscArg::Other, OscArg::Other) => true,
        _ => false,
    }
}

/// Whether two argument lists carry the same values.
pub fn args_eq(a: &Vec<OscArg>, b: &Vec<OscArg>) -> (r: bool)
    ensures
        r == (args_view(a@) == args_view(b@)),
{
    if a.len() != b.len() {
        proof {
            assert(args_view(a@).len() != args_view(b@).len());
        }
        return false;
    }
    let mut i: usize = 0;
    while i < a.len()
        invariant
            i <= a@.len(),
            a@.len() == b@.len(),
            forall|j: int| 0 <= j < i ==> a@[j]@ == b@[j]@,
        decreases a@.len() - i,
    {
        if !arg_eq(&a[i], &b[i]) {
            proof {
                assert(args_view(a@)[i as int] != args_view(b@)[i as int]);
            }
            return false;
        }
        i = i + 1;
    }
    proof {
        assert(args_view(a@) =~= args_view(b@));
    }
    true
}

/// Whether an arriving message is the awaited readiness or completion
/// signal: the address and every argument must match.
pub fn matches_awaited(msg: &OscMessage, message_name: &str, args: &Vec<OscArg>) -> (r: bool)
    ensures
        r == (msg@.addr == message_name@ && msg@.args == args_view(args@)),
{
    str_eq(msg.addr.as_str(), message_name) && args_eq(&msg.args, args)
}

/// The render-outcome report for the external caller: the marker text and
/// the score's file name.
pub fn nrt_finished_message(success: bool, file_name: &str) -> (r: OscMessage)
    ensures
        r@.addr == "/nrt_record_finished"@,
        r@.args == seq![
            ArgV::Str(if success {
                "SUCCESS"@
            } else {
                "FAILURE"@
            }),
            ArgV::Str(file_name@),
        ],
{
    let marker: String = if success {
        "SUCCESS".to_owned()
    } else {
        "FAILURE".to_owned()
    };
    let args = vec![OscArg::Str(marker), OscArg::Str(file_name.to_owned())];
    proof {
        assert(args_view(args@) =~= seq![
            ArgV::Str(if success {
                "SUCCESS"@
            } else {
                "FAILURE"@
            }),
            ArgV::Str(file_name@),
        ]);
    }
    OscMessage { addr: "/nrt_record_finished".to_owned(), args }
}

} // verus!
