//! Translation of parsed commands into the engine's own wire messages.
//! Creating a voice is one `/s_new` message; releasing it is an `/n_set`
//! that drives its gate to zero; modifying voices is one `/n_set` per
//! matching handle. Every translation that creates a voice assigns a node
//! handle in the registry it is given; modification never touches it.
use vstd::prelude::*;

use crate::dec::{Dec, sat64};
use crate::node_lookup::{NodeIDRegistry, fill_name, ints_view, spec_assign, spec_assign_ok,
    spec_search};
use crate::osc::{ArgV, MsgV, OscArg, OscMessage, OscPacket, PktV, args_view, clone_args, pkt_view};
use crate::envelope::{TimedOSCPacket, TimedV};
use crate::osc_model::{NoteModifyMessage, NoteOnMessage, NoteOnTimedMessage, PlaySampleMessage,
    timeds_view};

verus! {

/// The wire image of a create-voice message: the synth, the handle, the
/// default group placement, then the caller's arguments.
pub open spec fn spec_s_new(synth: Seq<char>, node_id: int, args: Seq<ArgV>) -> PktV {
    PktV::Message(
        MsgV {
            addr: "/s_new"@,
            args: seq![
                ArgV::Str(synth),
                ArgV::Int(node_id),
                ArgV::Int(0),
                ArgV::Int(0),
            ] + args,
        },
    )
}

/// The wire image of a release message: gate driven to zero.
pub open spec fn spec_n_set_off(node_id: int) -> PktV {
    PktV::Message(
        MsgV { addr: "/n_set"@, args: seq![ArgV::Int(node_id), ArgV::Str("gate"@), ArgV::Dec(0)] },
    )
}

/// The wire image of a set-parameters message.
pub open spec fn spec_n_set(node_id: int, args: Seq<ArgV>) -> PktV {
    PktV::Message(MsgV { addr: "/n_set"@, args: seq![ArgV::Int(node_id)] + args })
}

/// Seconds taken by a number of beats at a tempo: sixty over the tempo per
/// beat, rounded down to the scale and clamped at the representation's
/// bounds.
pub fn seconds_from_beats(bpm: i32, beats: Dec) -> (r: Dec)
    requires
        bpm >= 1,
        beats@ >= 0,
    ensures
        r@ == sat64(beats@ * 60 / (bpm as int)),
{
    let wide: i128 = (beats.units as i128) * 60 / (bpm as i128);
    if wide > i64::MAX as i128 {
        Dec::from_units(i64::MAX)
    } else {
        proof {
            assert(beats@ * 60 / (bpm as int) >= 0) by (nonlinear_arith)
                requires
                    beats@ >= 0,
                    bpm >= 1,
            ;
        }
        Dec::from_units(wide as i64)
    }
}

/// One create-voice wire message, fired immediately.
pub fn create_s_new(node_id: i32, synth_name: &str, msg_args: &Vec<OscArg>) -> (r: TimedOSCPacket)
    ensures
        r@.time == 0,
        r@.packet == spec_s_new(synth_name@, node_id as int, args_view(msg_args@)),
{
    let mut final_args: Vec<OscArg> = Vec::new();
    final_args.push(OscArg::Str(synth_name.to_owned()));
    final_args.push(OscArg::Int(node_id));
    final_args.push(OscArg::Int(0));
    final_args.push(OscArg::Int(0));
    let mut rest = clone_args(msg_args);
    final_args.append(&mut rest);
    let message = OscMessage { addr: "/s_new".to_owned(), args: final_args };
    let packet = OscPacket::Message(message);
    proof {
        assert(args_view(final_args@) =~= seq![
            ArgV::Str(synth_name@),
            ArgV::Int(node_id as int),
            ArgV::Int(0),
            ArgV::Int(0),
        ] + args_view(msg_args@));
    }
    TimedOSCPacket { time: Dec::zero(), packet }
}

/// The release wire message for a handle, to fire after `time`.
fn create_n_set_off(node_id: i32, time: Dec) -> (r: TimedOSCPacket)
    ensures
        r@.time == time@,
        r@.packet == spec_n_set_off(node_id as int),
{
    let off_args = vec![
        OscArg::Int(node_id),
        OscArg::Str("gate".to_owned()),
        OscArg::Dec(Dec::zero()),
    ];
    proof {
        assert(args_view(off_args@) =~= seq![
            ArgV::Int(node_id as int),
            ArgV::Str("gate"@),
            ArgV::Dec(0),
        ]);
    }
    let off_packet = OscPacket::Message(OscMessage { addr: "/n_set".to_owned(), args: off_args });
    TimedOSCPacket { time, packet: off_packet }
}

impl NoteOnTimedMessage {
    /// The live wire messages of a timed note.
    pub fn create_osc(&self, node_id: i32, bpm: i32) -> (r: Vec<TimedOSCPacket>)
        requires
            bpm >= 1,
            self.gate_time@ >= 0,
        ensures
            timeds_view(r@) == seq![
                TimedV {
                    time: 0,
                    packet: spec_s_new(self@.synth_name, node_id as int, self@.args),
                },
                TimedV {
                    time: sat64(self@.gate_time * 60 / (bpm as int)),
                    packet: spec_n_set_off(node_id as int),
                },
            ],
    {
        let on_message = create_s_new(node_id, self.synth_name.as_str(), &self.args);
        let seconds = seconds_from_beats(bpm, self.gate_time);
        let off_message = create_n_set_off(node_id, seconds);
        let out = vec![on_message, off_message];
        proof {
            assert(timeds_view(out@) =~= seq![
                TimedV {
                    time: 0,
                    packet: spec_s_new(self@.synth_name, node_id as int, self@.args),
                },
                TimedV {
                    time: sat64(self@.gate_time * 60 / (bpm as int)),
                    packet: spec_n_set_off(node_id as int),
                },
            ]);
        }
        out
    }

    /// The batch translation of a timed note: the release keeps its gate
    /// time in beats, shifted like the creation by the batch clock.
    pub fn create_nrt_osc(&self, node_id: i32, start_time: Dec) -> (r: Vec<TimedOSCPacket>)
        ensures
            timeds_view(r@) == seq![
                TimedV {
                    time: start_time@,
                    packet: spec_s_new(self@.synth_name, node_id as int, self@.args),
                },
                TimedV {
                    time: sat64(start_time@ + self@.gate_time),
                    packet: spec_n_set_off(node_id as int),
                },
            ],
    {
        let on_message = create_s_new(node_id, self.synth_name.as_str(), &self.args);
        let on_shifted = TimedOSCPacket { time: start_time, packet: on_message.packet };
        let off_message = create_n_set_off(node_id, start_time.plus(self.gate_time));
        let out = vec![on_shifted, off_message];
        proof {
            assert(timeds_view(out@) =~= seq![
                TimedV {
                    time: start_time@,
                    packet: spec_s_new(self@.synth_name, node_id as int, self@.args),
                },
                TimedV {
                    time: sat64(start_time@ + self@.gate_time),
                    packet: spec_n_set_off(node_id as int),
                },
            ]);
        }
        out
    }
}

impl NoteOnMessage {
    /// The translation of a plain note: one create-voice message.
    pub fn create_osc(&self, node_id: i32) -> (r: Vec<TimedOSCPacket>)
        ensures
            timeds_view(r@) == seq![
                TimedV {
                    time: 0,
                    packet: spec_s_new(self@.synth_name, node_id as int, self@.args),
                },
            ],
    {
        let msg = create_s_new(node_id, self.synth_name.as_str(), &self.args);
        let out = vec![msg];
        proof {
            assert(timeds_view(out@) =~= seq![
                TimedV {
                    time: 0,
                    packet: spec_s_new(self@.synth_name, node_id as int, self@.args),
                },
            ]);
        }
        out
    }
}

impl NoteModifyMessage {
    /// The translation of a modify command: one set-parameters message per
    /// resolved handle, all fired immediately. No handle resolved means no
    /// messages, which is not an error.
    pub fn create_osc(&self, node_ids: Vec<i32>) -> (r: Vec<TimedOSCPacket>)
        ensures
            timeds_view(r@).len() == node_ids@.len(),
            forall|k: int|
                0 <= k < node_ids@.len() ==> timeds_view(r@)[k] == (TimedV {
                    time: 0,
                    packet: spec_n_set(node_ids@[k] as int, self@.args),
                }),
    {
        let mut out: Vec<TimedOSCPacket> = Vec::new();
        let mut i: usize = 0;
        while i < node_ids.len()
            invariant
                i <= node_ids@.len(),
                out@.len() == i,
                forall|k: int|
                    0 <= k < i ==> (#[trigger] out@[k])@ == (TimedV {
                        time: 0,
                        packet: spec_n_set(node_ids@[k] as int, self@.args),
                    }),
            decreases node_ids@.len() - i,
        {
            let id = node_ids[i];
            let mut final_args: Vec<OscArg> = Vec::new();
            final_args.push(OscArg::Int(id));
            let mut rest = clone_args(&self.args);
            final_args.append(&mut rest);
            let message = OscMessage { addr: "/n_set".to_owned(), args: final_args };
            proof {
                assert(args_view(final_args@) =~= seq![ArgV::Int(id as int)] + args_view(
                    self.args@,
                ));
            }
            out.push(TimedOSCPacket { time: Dec::zero(), packet: OscPacket::Message(message) });
            i = i + 1;
        }
        proof {
            assert(timeds_view(out@).len() == out@.len());
        }
        out
    }
}

/// A sample trigger after buffer resolution: the voice name and the final
/// argument list, with the buffer argument appended.
pub struct PreparedPlaySampleMessage {
    pub external_id: String,
    pub args: Vec<OscArg>,
}

/// Ghost image of a prepared sample trigger.
pub struct PreparedPlaySampleV {
    pub external_id: Seq<char>,
    pub args: Seq<ArgV>,
}

impl View for PreparedPlaySampleMessage {
    type V = PreparedPlaySampleV;

    open spec fn view(&self) -> PreparedPlaySampleV {
        PreparedPlaySampleV { external_id: self.external_id@, args: args_view(self.args@) }
    }
}

impl PlaySampleMessage {
    /// Whether the caller already supplied a `buf` argument; the appended
    /// one wins either way, so this is only worth a warning.
    pub fn has_buf_arg(&self) -> (r: bool)
        ensures
            r == exists|k: int|
                0 <= k < self@.args.len() && self@.args[k] == ArgV::Str("buf"@),
    {
        let mut i: usize = 0;
        while i < self.args.len()
            invariant
                i <= self.args@.len(),
                forall|k: int| 0 <= k < i ==> self@.args[k] != ArgV::Str("buf"@),
                self@.args.len() == self.args@.len(),
                forall|k: int|
                    0 <= k < self.args@.len() ==> self@.args[k] == (#[trigger] self.args@[k])@,
            decreases self.args@.len() - i,
        {
            match &self.args[i] {
                OscArg::Str(s) => {
                    if crate::strutil::str_eq(s.as_str(), "buf") {
                        return true;
                    }
                },
                _ => {},
            }
            i = i + 1;
        }
        false
    }

    /// The sample trigger with its resolved buffer number appended as the
    /// final `buf` argument.
    pub fn prepare(self, buffer_number: i32) -> (r: PreparedPlaySampleMessage)
        ensures
            r@.external_id == self@.external_id,
            r@.args == self@.args + seq![ArgV::Str("buf"@), ArgV::Int(buffer_number as int)],
    {
        let mut base_args = self.args;
        base_args.push(OscArg::Str("buf".to_owned()));
        base_args.push(OscArg::Int(buffer_number));
        proof {
            assert(args_view(base_args@) =~= args_view(old_args(&self)) + seq![
                ArgV::Str("buf"@),
                ArgV::Int(buffer_number as int),
            ]);
        }
        PreparedPlaySampleMessage { external_id: self.external_id, args: base_args }
    }
}

/// The argument list a sample trigger arrived with.
spec fn old_args(m: &PlaySampleMessage) -> Seq<OscArg> {
    m.args@
}

/// The wire messages a timed note translates to, shifted by a base time.
pub open spec fn spec_note_on_timed_msgs(
    m: crate::osc_model::NoteOnTimedV,
    id: int,
    start: int,
) -> Seq<TimedV> {
    seq![
        TimedV { time: start, packet: spec_s_new(m.synth_name, id, m.args) },
        TimedV { time: sat64(start + m.gate_time), packet: spec_n_set_off(id) },
    ]
}

/// The wire message a create-voice command translates to at a base time.
pub open spec fn spec_create_msgs(synth: Seq<char>, id: int, args: Seq<ArgV>, start: int) -> Seq<
    TimedV,
> {
    seq![TimedV { time: start, packet: spec_s_new(synth, id, args) }]
}

/// The wire messages a modify command translates to at a base time.
pub open spec fn spec_modify_msgs(ids: Seq<int>, args: Seq<ArgV>, start: int) -> Seq<TimedV> {
    Seq::new(ids.len(), |k: int| TimedV { time: start, packet: spec_n_set(ids[k], args) })
}

impl PreparedPlaySampleMessage {
    /// The translation of a prepared sample trigger: one create-voice
    /// message under the fixed internal sampler synth.
    pub fn create_osc(&self, node_id: i32) -> (r: Vec<TimedOSCPacket>)
        ensures
            timeds_view(r@) == seq![
                TimedV { time: 0, packet: spec_s_new("sampler"@, node_id as int, self@.args) },
            ],
    {
        let msg = create_s_new(node_id, "sampler", &self.args);
        let out = vec![msg];
        proof {
            assert(timeds_view(out@) =~= seq![
                TimedV { time: 0, packet: spec_s_new("sampler"@, node_id as int, self@.args) },
            ]);
        }
        out
    }
}

/// One resolved command, ready to translate against a registry.
pub enum SuperColliderMessage {
    NoteOnTimed(NoteOnTimedMessage),
    NoteOn(NoteOnMessage),
    NoteModify(NoteModifyMessage),
    PlaySample(PreparedPlaySampleMessage),
}

/// Ghost image of a resolved command.
pub enum ScMsgV {
    NoteOnTimed(crate::osc_model::NoteOnTimedV),
    NoteOn(crate::osc_model::NoteOnV),
    NoteModify(crate::osc_model::NoteModifyV),
    PlaySample(PreparedPlaySampleV),
}

impl View for SuperColliderMessage {
    type V = ScMsgV;

    open spec fn view(&self) -> ScMsgV {
        match self {
            SuperColliderMessage::NoteOnTimed(m) => ScMsgV::NoteOnTimed(m@),
            SuperColliderMessage::NoteOn(m) => ScMsgV::NoteOn(m@),
            SuperColliderMessage::NoteModify(m) => ScMsgV::NoteModify(m@),
            SuperColliderMessage::PlaySample(m) => ScMsgV::PlaySample(m@),
        }
    }
}

impl SuperColliderMessage {
    /// Translation against a registry at a base time, for the batch path:
    /// voice-creating commands assign a handle (a duplicate name or an
    /// exhausted counter is the error and changes nothing); a modify
    /// command resolves its pattern and never touches the registry.
    pub fn as_nrt_osc(&self, reg: &mut NodeIDRegistry, start_time: Dec) -> (r: Result<
        Vec<TimedOSCPacket>,
        String,
    >)
        requires
            old(reg).wf(),
        ensures
            final(reg).wf(),
            r is Err ==> *final(reg) == *old(reg),
            match self@ {
                ScMsgV::NoteOnTimed(m) => (r is Ok <==> spec_assign_ok(
                    old(reg)@,
                    old(reg).curr_spec(),
                    m.external_id,
                )) && (r matches Ok(v) ==> {
                    &&& timeds_view(v@) == spec_note_on_timed_msgs(
                        m,
                        old(reg).curr_spec() + 1,
                        start_time@,
                    )
                    &&& final(reg)@ == crate::node_lookup::remove_name(
                        old(reg)@,
                        fill_name(m.external_id, old(reg).curr_spec() + 1),
                    ).push((fill_name(m.external_id, old(reg).curr_spec() + 1), old(
                        reg,
                    ).curr_spec() + 1))
                    &&& final(reg).curr_spec() == old(reg).curr_spec() + 1
                }),
                ScMsgV::NoteOn(m) => (r is Ok <==> spec_assign_ok(
                    old(reg)@,
                    old(reg).curr_spec(),
                    m.external_id,
                )) && (r matches Ok(v) ==> {
                    &&& timeds_view(v@) == spec_create_msgs(
                        m.synth_name,
                        old(reg).curr_spec() + 1,
                        m.args,
                        start_time@,
                    )
                    &&& final(reg)@ == crate::node_lookup::remove_name(
                        old(reg)@,
                        fill_name(m.external_id, old(reg).curr_spec() + 1),
                    ).push((fill_name(m.external_id, old(reg).curr_spec() + 1), old(
                        reg,
                    ).curr_spec() + 1))
                    &&& final(reg).curr_spec() == old(reg).curr_spec() + 1
                }),
                ScMsgV::NoteModify(m) => {
                    &&& r is Ok
                    &&& *final(reg) == *old(reg)
                    &&& (r matches Ok(v) ==> timeds_view(v@) == spec_modify_msgs(
                        spec_search(old(reg)@, m.external_id_regex),
                        m.args,
                        start_time@,
                    ))
                },
                ScMsgV::PlaySample(m) => (r is Ok <==> spec_assign_ok(
                    old(reg)@,
                    old(reg).curr_spec(),
                    m.external_id,
                )) && (r matches Ok(v) ==> {
                    &&& timeds_view(v@) == spec_create_msgs(
                        "sampler"@,
                        old(reg).curr_spec() + 1,
                        m.args,
                        start_time@,
                    )
                    &&& final(reg)@ == crate::node_lookup::remove_name(
                        old(reg)@,
                        fill_name(m.external_id, old(reg).curr_spec() + 1),
                    ).push((fill_name(m.external_id, old(reg).curr_spec() + 1), old(
                        reg,
                    ).curr_spec() + 1))
                    &&& final(reg).curr_spec() == old(reg).curr_spec() + 1
                }),
            },
    {
        match self {
            SuperColliderMessage::NoteOnTimed(m) => {
                let node_id = reg.create_node_id(m.external_id.as_str())?;
                let msgs = m.create_nrt_osc(node_id, start_time);
                Ok(msgs)
            },
            SuperColliderMessage::NoteOn(m) => {
                let node_id = reg.create_node_id(m.external_id.as_str())?;
                let on = create_s_new(node_id, m.synth_name.as_str(), &m.args);
                let shifted = TimedOSCPacket { time: start_time, packet: on.packet };
                let out = vec![shifted];
                proof {
                    assert(timeds_view(out@) =~= spec_create_msgs(
                        m@.synth_name,
                        node_id as int,
                        m@.args,
                        start_time@,
                    ));
                }
                Ok(out)
            },
            SuperColliderMessage::NoteModify(m) => {
                let node_ids = reg.regex_search_node_ids(m.external_id_regex.as_str());
                let out = n_set_list(&node_ids, &m.args, start_time);
                proof {
                    let ids = crate::node_lookup::ints_view(node_ids@);
                    assert(timeds_view(out@) =~= spec_modify_msgs(ids, m@.args, start_time@));
                }
                Ok(out)
            },
            SuperColliderMessage::PlaySample(m) => {
                let node_id = reg.create_node_id(m.external_id.as_str())?;
                let on = create_s_new(node_id, "sampler", &m.args);
                let shifted = TimedOSCPacket { time: start_time, packet: on.packet };
                let out = vec![shifted];
                proof {
                    assert(timeds_view(out@) =~= spec_create_msgs(
                        "sampler"@,
                        node_id as int,
                        m@.args,
                        start_time@,
                    ));
                }
                Ok(out)
            },
        }
    }

    /// Translation for the live path: the batch translation at time zero.
    /// A voice-creating command succeeds exactly when its name can be
    /// assigned, and then the registry gains exactly that assignment.
    pub fn as_osc(&self, reg: &mut NodeIDRegistry) -> (r: Result<Vec<TimedOSCPacket>, String>)
        requires
            old(reg).wf(),
        ensures
            final(reg).wf(),
            r is Err ==> *final(reg) == *old(reg),
            match self@ {
                ScMsgV::NoteOnTimed(m) => (r is Ok <==> spec_assign_ok(
                    old(reg)@,
                    old(reg).curr_spec(),
                    m.external_id,
                )) && (r matches Ok(v) ==> {
                    &&& timeds_view(v@) == spec_note_on_timed_msgs(
                        m,
                        old(reg).curr_spec() + 1,
                        0,
                    )
                    &&& final(reg)@ == spec_assign(old(reg)@, old(reg).curr_spec(), m.external_id)
                    &&& final(reg).curr_spec() == old(reg).curr_spec() + 1
                }),
                ScMsgV::NoteOn(m) => (r is Ok <==> spec_assign_ok(
                    old(reg)@,
                    old(reg).curr_spec(),
                    m.external_id,
                )) && (r matches Ok(v) ==> {
                    &&& timeds_view(v@) == spec_create_msgs(
                        m.synth_name,
                        old(reg).curr_spec() + 1,
                        m.args,
                        0,
                    )
                    &&& final(reg)@ == spec_assign(old(reg)@, old(reg).curr_spec(), m.external_id)
                    &&& final(reg).curr_spec() == old(reg).curr_spec() + 1
                }),
                ScMsgV::NoteModify(m) => r is Ok && *final(reg) == *old(reg) && (r matches Ok(v)
                    ==> timeds_view(v@) == spec_modify_msgs(
                    spec_search(old(reg)@, m.external_id_regex),
                    m.args,
                    0,
                )),
                ScMsgV::PlaySample(m) => (r is Ok <==> spec_assign_ok(
                    old(reg)@,
                    old(reg).curr_spec(),
                    m.external_id,
                )) && (r matches Ok(v) ==> {
                    &&& timeds_view(v@) == spec_create_msgs(
                        "sampler"@,
                        old(reg).curr_spec() + 1,
                        m.args,
                        0,
                    )
                    &&& final(reg)@ == spec_assign(old(reg)@, old(reg).curr_spec(), m.external_id)
                    &&& final(reg).curr_spec() == old(reg).curr_spec() + 1
                }),
            },
    {
        self.as_nrt_osc(reg, Dec::zero())
    }
}

/// One set-parameters message per handle, all at the given time.
fn n_set_list(node_ids: &Vec<i32>, args: &Vec<OscArg>, time: Dec) -> (r: Vec<TimedOSCPacket>)
    ensures
        timeds_view(r@) == spec_modify_msgs(crate::node_lookup::ints_view(node_ids@), args_view(
            args@,
        ), time@),
{
    let mut out: Vec<TimedOSCPacket> = Vec::new();
    let mut i: usize = 0;
    while i < node_ids.len()
        invariant
            i <= node_ids@.len(),
            out@.len() == i,
            forall|k: int|
                0 <= k < i ==> (#[trigger] out@[k])@ == (TimedV {
                    time: time@,
                    packet: spec_n_set(node_ids@[k] as int, args_view(args@)),
                }),
        decreases node_ids@.len() - i,
    {
        let id = node_ids[i];
        let mut final_args: Vec<OscArg> = Vec::new();
        final_args.push(OscArg::Int(id));
        let mut rest = clone_args(args);
        final_args.append(&mut rest);
        proof {
            assert(args_view(final_args@) =~= seq![ArgV::Int(id as int)] + args_view(args@));
        }
        let message = OscMessage { addr: "/n_set".to_owned(), args: final_args };
        out.push(TimedOSCPacket { time, packet: OscPacket::Message(message) });
        i = i + 1;
    }
    proof {
        assert(timeds_view(out@) =~= spec_modify_msgs(crate::node_lookup::ints_view(node_ids@),
            args_view(args@), time@));
    }
    out
}

/// What a packet resolves to against the registered samples: one of the
/// four voice commands, or nothing for a bundle, an unknown address or a
/// command that fails validation. An unresolved sample falls back to
/// buffer zero rather than failing.
pub open spec fn spec_resolve(p: PktV, d: Seq<(Seq<char>, Seq<crate::sampling::SampleV>)>) -> Option<
    ScMsgV,
> {
    match p {
        PktV::Bundle(_) => None,
        PktV::Message(m) => {
            if m.addr == "/note_on_timed"@ {
                match crate::osc_model::spec_parse_note_on_timed(m) {
                    Some(v) => Some(ScMsgV::NoteOnTimed(v)),
                    None => None,
                }
            } else if m.addr == "/note_on"@ {
                match crate::osc_model::spec_parse_note_on(m) {
                    Some(v) => Some(ScMsgV::NoteOn(v)),
                    None => None,
                }
            } else if m.addr == "/note_modify"@ {
                match crate::osc_model::spec_parse_note_modify(m) {
                    Some(v) => Some(ScMsgV::NoteModify(v)),
                    None => None,
                }
            } else if m.addr == "/play_sample"@ {
                match crate::osc_model::spec_parse_play_sample(m) {
                    Some(v) => Some(
                        ScMsgV::PlaySample(
                            PreparedPlaySampleV {
                                external_id: v.external_id,
                                args: v.args + seq![
                                    ArgV::Str("buf"@),
                                    ArgV::Int(spec_resolved_buffer(v, d)),
                                ],
                            },
                        ),
                    ),
                    None => None,
                }
            } else {
                None
            }
        },
    }
}

/// The buffer a sample trigger resolves to: the matching sample's buffer,
/// or zero when pack, category or index resolve nothing.
pub open spec fn spec_resolved_buffer(
    v: crate::osc_model::PlaySampleV,
    d: Seq<(Seq<char>, Seq<crate::sampling::SampleV>)>,
) -> int {
    let cat = match v.category {
        Some(c) => c,
        None => Seq::<char>::empty(),
    };
    match crate::sampling::spec_pack_index(d, v.sample_pack) {
        Some(i) => match crate::sampling::spec_find_sample(d[i].1, v.index, cat) {
            Some(s) => s.buffer_number,
            None => 0,
        },
        None => 0,
    }
}

/// Resolve one inbound packet to a voice command, looking sample triggers
/// up in the registered packs.
pub fn resolve_msg(packet: &OscPacket, dict: &crate::sampling::SamplePackDict) -> (r: Option<
    SuperColliderMessage,
>)
    ensures
        match r {
            Some(m) => spec_resolve(pkt_view(*packet), dict@) == Some(m@),
            None => spec_resolve(pkt_view(*packet), dict@) is None,
        },
{
    let msg = match packet {
        OscPacket::Message(m) => m,
        OscPacket::Bundle(_) => {
            return None;
        },
    };
    if crate::strutil::str_eq(msg.addr.as_str(), "/note_on_timed") {
        match NoteOnTimedMessage::new(msg) {
            Ok(m) => Some(SuperColliderMessage::NoteOnTimed(m)),
            Err(_) => None,
        }
    } else if crate::strutil::str_eq(msg.addr.as_str(), "/note_on") {
        match NoteOnMessage::new(msg) {
            Ok(m) => Some(SuperColliderMessage::NoteOn(m)),
            Err(_) => None,
        }
    } else if crate::strutil::str_eq(msg.addr.as_str(), "/note_modify") {
        match NoteModifyMessage::new(msg) {
            Ok(m) => Some(SuperColliderMessage::NoteModify(m)),
            Err(_) => None,
        }
    } else if crate::strutil::str_eq(msg.addr.as_str(), "/play_sample") {
        match PlaySampleMessage::new(msg) {
            Ok(play_sample) => {
                let buf: i32 = {
                    let cat_string: String = match &play_sample.category {
                        Some(c) => c.clone(),
                        None => String::new(),
                    };
                    match dict.find(
                        play_sample.sample_pack.as_str(),
                        play_sample.index,
                        cat_string.as_str(),
                    ) {
                        Some(sample) => sample.buffer_number,
                        None => 0,
                    }
                };
                let prepared = play_sample.prepare(buf);
                proof {
                    assert(prepared@.args =~= spec_parse_play_sample_args(pkt_view(*packet))
                        + seq![ArgV::Str("buf"@), ArgV::Int(buf as int)]);
                }
                Some(SuperColliderMessage::PlaySample(prepared))
            },
            Err(_) => None,
        }
    } else {
        None
    }
}

/// The free-form arguments a sample trigger parsed to, named for proofs.
pub open spec fn spec_parse_play_sample_args(p: PktV) -> Seq<ArgV> {
    match p {
        PktV::Message(m) => match crate::osc_model::spec_parse_play_sample(m) {
            Some(v) => v.args,
            None => Seq::<ArgV>::empty(),
        },
        PktV::Bundle(_) => Seq::<ArgV>::empty(),
    }
}

} // verus!
