//! The command interpreter: the single loop's brain. One inbound packet at
//! a time resolves against the live session state into the actions the
//! shell performs. Messages carry single commands; tagged envelopes carry
//! batches: the funnel tag re-dispatches each element, the preload tag
//! accumulates standing batch commands, and the record tag compiles an
//! offline render.
use vstd::prelude::*;

use crate::dec::{Dec, sat64};
use crate::dispatch::{ActV, Action, acts_view, spec_schedule, schedule_timed_packets};
use crate::envelope::{TaggedBundle, TimedOSCPacket, TimedV, spec_parse_tagged};
use crate::internal_osc_conversion::{spec_create_msgs, spec_modify_msgs, spec_n_set_off,
    spec_s_new};
use crate::node_lookup::{EntryV, NodeIDRegistry, spec_assign, spec_assign_ok, spec_search};
use crate::osc::{ArgV, MsgV, OscArg, OscBundle, OscMessage, OscPacket, PktV, args_view, clone_msg,
    clone_packet, lemma_pkts_view, pkt_view, pkts_view};
use crate::osc_model::{LoadSampleMessage, NRTRecordMessage, NRTRecordV, NoteModifyMessage,
    NoteOnMessage, NoteOnTimedMessage, PlaySampleMessage, spec_parse_load_sample,
    spec_parse_note_modify, spec_parse_note_on, spec_parse_note_on_timed, spec_parse_nrt_record,
    spec_parse_play_sample, spec_parse_timed_elem, timeds_view};
use crate::nrt_record::{NRTPacketConverter, render_nrt_row, spec_nrt_row, spec_replay,
    spec_sort_timed};
use crate::sampling::{SamplePackDict, SampleV, spec_all_samples, spec_buffer_load_scd,
    spec_find_sample, spec_nrt_scd_row, spec_pack_index};
use crate::scd_templating::{create_nrt_script, nrt_wrap_synthdef, spec_nrt_script, spec_nrt_wrap};
use crate::strutil::{str_eq, views_of};

verus! {

broadcast use vstd::std_specs::vec::group_vec_axioms, vstd::seq::axiom_seq_index_decreases,
    vstd::seq::axiom_seq_subrange_decreases;

/// Ghost image of the interpreter's session state.
pub struct InterpV {
    pub reg: Seq<EntryV>,
    pub curr: int,
    pub dict: Seq<(Seq<char>, Seq<SampleV>)>,
    pub nrt_dict: Seq<(Seq<char>, Seq<SampleV>)>,
    pub synthdefs: Seq<Seq<char>>,
    pub nrt_synthdefs: Seq<Seq<char>>,
    pub sampler: Seq<char>,
    pub preloads: Seq<TimedV>,
    pub bpm: int,
    pub template: Seq<char>,
}

/// The live session state: the shared registry, the live and shadow sample
/// dictionaries, the loaded synth definitions and their shadow copy, the
/// standing batch preloads, the tempo and the score template.
pub struct Interpreter {
    pub reg: NodeIDRegistry,
    pub sample_pack_dict: SamplePackDict,
    pub nrt_sample_pack_dict: SamplePackDict,
    pub synthef_snippets: Vec<String>,
    pub nrt_synthdef_snippets: Vec<String>,
    pub sampler_synth_snippet: String,
    pub nrt_preloads: Vec<TimedOSCPacket>,
    pub bpm: i32,
    pub nrt_score_template: String,
}

impl View for Interpreter {
    type V = InterpV;

    open spec fn view(&self) -> InterpV {
        InterpV {
            reg: self.reg@,
            curr: self.reg.curr_spec(),
            dict: self.sample_pack_dict@,
            nrt_dict: self.nrt_sample_pack_dict@,
            synthdefs: views_of(self.synthef_snippets@),
            nrt_synthdefs: views_of(self.nrt_synthdef_snippets@),
            sampler: self.sampler_synth_snippet@,
            preloads: timeds_view(self.nrt_preloads@),
            bpm: self.bpm as int,
            template: self.nrt_score_template@,
        }
    }
}

/// The force-release wire message for one handle.
pub open spec fn spec_n_free(id: int) -> PktV {
    PktV::Message(MsgV { addr: "/n_free"@, args: seq![ArgV::Int(id)] })
}

/// Whether a text stands in a list of texts.
pub open spec fn spec_contains_text(s: Seq<Seq<char>>, x: Seq<char>) -> bool {
    exists|i: int| 0 <= i < s.len() && s[i] == x
}

/// The live wire messages of a timed note: creation now, release after the
/// gate time converted to seconds at the session tempo.
pub open spec fn spec_live_timed_msgs(
    v: crate::osc_model::NoteOnTimedV,
    id: int,
    bpm: int,
) -> Seq<TimedV> {
    seq![
        TimedV { time: 0, packet: spec_s_new(v.synth_name, id, v.args) },
        TimedV { time: sat64(v.gate_time * 60 / bpm), packet: spec_n_set_off(id) },
    ]
}

/// The standing preloads a preload envelope contributes: every element
/// that parses as a timed element, in order.
pub open spec fn spec_collect_preloads(ps: Seq<PktV>) -> Seq<TimedV>
    decreases ps.len(),
{
    if ps.len() == 0 {
        Seq::<TimedV>::empty()
    } else {
        (match spec_parse_timed_elem(ps[0]) {
            Some(t) => seq![t],
            None => Seq::<TimedV>::empty(),
        }) + spec_collect_preloads(ps.drop_first())
    }
}

/// The score rows of the shadow synth definitions, each handed to the
/// engine as bytes at time zero.
pub open spec fn spec_synthdef_rows(defs: Seq<Seq<char>>) -> Seq<Seq<char>> {
    Seq::new(defs.len(), |k: int| spec_nrt_wrap(defs[k] + ".asBytes"@))
}

/// The score rows that load the registered shadow samples.
pub open spec fn spec_sample_rows(samples: Seq<SampleV>) -> Seq<Seq<char>> {
    Seq::new(samples.len(), |k: int| spec_nrt_scd_row(samples[k]))
}

/// The score rows of the compiled timeline.
pub open spec fn spec_timeline_rows(timeline: Seq<TimedV>) -> Seq<Seq<char>> {
    Seq::new(timeline.len(), |k: int| spec_nrt_row(timeline[k]))
}

/// What a render request does with the session state: the shadow synth
/// definitions and samples become time-zero rows; the standing preloads and
/// the request's batch replay through a fresh registry and a zero clock;
/// the sorted rows fill the score template; the shell writes the file,
/// tells the engine to interpret it, and awaits the completion signal.
pub open spec fn spec_nrt_actions(s: InterpV, rec: NRTRecordV) -> Seq<ActV> {
    let timeline = spec_sort_timed(
        spec_replay(Seq::<EntryV>::empty(), 100, 0, s.nrt_dict, s.preloads + rec.messages),
    );
    let rows = spec_synthdef_rows(s.nrt_synthdefs) + spec_sample_rows(
        spec_all_samples(s.nrt_dict),
    ) + spec_timeline_rows(timeline);
    let script = spec_nrt_script(s.template, rec.bpm, rec.file_name, rec.end_beat, rows);
    let scd_name = rec.file_name + ".scd"@;
    seq![
        ActV::WriteScoreFile { file_name: scd_name, contents: script },
        ActV::SendToSclang {
            msg: MsgV { addr: "/read_scd_file"@, args: seq![ArgV::Str(scd_name)] },
        },
        ActV::AwaitNrtCompletion { file_name: rec.file_name },
    ]
}

/// What one leaf command does: the state it leaves and the actions it
/// emits. A command that fails validation and a duplicate voice name each
/// leave the state unchanged and emit nothing; an unresolved sample falls
/// back to buffer zero; an unknown address is ignored for forward
/// compatibility.
pub open spec fn spec_interpret_msg(s: InterpV, m: MsgV) -> (InterpV, Seq<ActV>) {
    if m.addr == "/free_notes"@ {
        if m.args.len() >= 1 && m.args[0] is Str {
            let ids = spec_search(s.reg, m.args[0]->Str_0);
            (
                s,
                Seq::new(
                    ids.len(),
                    |k: int| ActV::SendToScsynth { delay_ms: 0, packet: spec_n_free(ids[k]) },
                ),
            )
        } else {
            (s, Seq::<ActV>::empty())
        }
    } else if m.addr == "/jdw_sc_event_trigger"@ {
        if m.args.len() >= 2 && m.args[0] is Str && (m.args[1] matches ArgV::Int(d) && d >= 0) {
            (
                s,
                seq![
                    ActV::EventTrigger { message: m.args[0]->Str_0, delay_ms: m.args[1]->Int_0 },
                ],
            )
        } else {
            (s, Seq::<ActV>::empty())
        }
    } else if m.addr == "/set_bpm"@ {
        if m.args.len() >= 1 && (m.args[0] matches ArgV::Int(b) && b >= 1) {
            (InterpV { bpm: m.args[0]->Int_0, ..s }, Seq::<ActV>::empty())
        } else {
            (s, Seq::<ActV>::empty())
        }
    } else if m.addr == "/note_on_timed"@ {
        match spec_parse_note_on_timed(m) {
            Some(v) => {
                if spec_assign_ok(s.reg, s.curr, v.external_id) {
                    (
                        InterpV {
                            reg: spec_assign(s.reg, s.curr, v.external_id),
                            curr: s.curr + 1,
                            ..s
                        },
                        spec_schedule(v.delay_ms, spec_live_timed_msgs(v, s.curr + 1, s.bpm)),
                    )
                } else {
                    (s, Seq::<ActV>::empty())
                }
            },
            None => (s, Seq::<ActV>::empty()),
        }
    } else if m.addr == "/note_on"@ {
        match spec_parse_note_on(m) {
            Some(v) => {
                if spec_assign_ok(s.reg, s.curr, v.external_id) {
                    (
                        InterpV {
                            reg: spec_assign(s.reg, s.curr, v.external_id),
                            curr: s.curr + 1,
                            ..s
                        },
                        spec_schedule(
                            v.delay_ms,
                            spec_create_msgs(v.synth_name, s.curr + 1, v.args, 0),
                        ),
                    )
                } else {
                    (s, Seq::<ActV>::empty())
                }
            },
            None => (s, Seq::<ActV>::empty()),
        }
    } else if m.addr == "/play_sample"@ {
        match spec_parse_play_sample(m) {
            Some(v) => {
                let prepared = v.args + seq![
                    ArgV::Str("buf"@),
                    ArgV::Int(crate::internal_osc_conversion::spec_resolved_buffer(v, s.dict)),
                ];
                if spec_assign_ok(s.reg, s.curr, v.external_id) {
                    (
                        InterpV {
                            reg: spec_assign(s.reg, s.curr, v.external_id),
                            curr: s.curr + 1,
                            ..s
                        },
                        spec_schedule(
                            v.delay_ms,
                            spec_create_msgs("sampler"@, s.curr + 1, prepared, 0),
                        ),
                    )
                } else {
                    (s, Seq::<ActV>::empty())
                }
            },
            None => (s, Seq::<ActV>::empty()),
        }
    } else if m.addr == "/note_modify"@ {
        match spec_parse_note_modify(m) {
            Some(v) => (
                s,
                spec_schedule(
                    v.delay_ms,
                    spec_modify_msgs(spec_search(s.reg, v.external_id_regex), v.args, 0),
                ),
            ),
            None => (s, Seq::<ActV>::empty()),
        }
    } else if m.addr == "/read_scd"@ {
        (s, seq![ActV::SendToSclang { msg: m }])
    } else if m.addr == "/load_sample"@ {
        match spec_parse_load_sample(m) {
            Some(v) => {
                let nrt = SamplePackDict::spec_register(s.nrt_dict, v);
                let live = SamplePackDict::spec_register(s.dict, v);
                (
                    InterpV { dict: live.0, nrt_dict: nrt.0, ..s },
                    seq![
                        ActV::SendToSclang {
                            msg: MsgV {
                                addr: "/read_scd"@,
                                args: seq![ArgV::Str(spec_buffer_load_scd(live.1))],
                            },
                        },
                    ],
                )
            },
            None => (s, Seq::<ActV>::empty()),
        }
    } else if m.addr == "/clear_nrt"@ {
        (
            InterpV {
                preloads: Seq::<TimedV>::empty(),
                nrt_synthdefs: seq![s.sampler],
                nrt_dict: Seq::<(Seq<char>, Seq<SampleV>)>::empty(),
                ..s
            },
            Seq::<ActV>::empty(),
        )
    } else if m.addr == "/create_synthdef"@ {
        if m.args.len() >= 1 && m.args[0] is Str {
            let def = m.args[0]->Str_0;
            let nrt2 = if spec_contains_text(s.nrt_synthdefs, def) {
                s.nrt_synthdefs
            } else {
                s.nrt_synthdefs.push(def)
            };
            if spec_contains_text(s.synthdefs, def) {
                (InterpV { nrt_synthdefs: nrt2, ..s }, Seq::<ActV>::empty())
            } else {
                (
                    InterpV { nrt_synthdefs: nrt2, synthdefs: s.synthdefs.push(def), ..s },
                    seq![
                        ActV::SendToSclang {
                            msg: MsgV {
                                addr: "/read_scd"@,
                                args: seq![ArgV::Str(def + ".add;"@)],
                            },
                        },
                    ],
                )
            }
        } else {
            (s, Seq::<ActV>::empty())
        }
    } else {
        (s, Seq::<ActV>::empty())
    }
}

/// What one packet does: a leaf is one command; an envelope that fails to
/// parse is ignored; the funnel tag re-dispatches each element in order;
/// the preload tag extends the standing preloads; the record tag compiles
/// an offline render; an unknown tag is ignored.
pub open spec fn spec_interpret(s: InterpV, p: PktV) -> (InterpV, Seq<ActV>)
    decreases p, 1int,
{
    match p {
        PktV::Message(m) => spec_interpret_msg(s, m),
        PktV::Bundle(content) => match spec_parse_tagged(content) {
            None => (s, Seq::<ActV>::empty()),
            Some(t) => {
                if t.tag == "batch-send"@ {
                    spec_interpret_list(s, content.drop_first())
                } else if t.tag == "nrt_preload"@ {
                    (
                        InterpV {
                            preloads: s.preloads + spec_collect_preloads(content.drop_first()),
                            ..s
                        },
                        Seq::<ActV>::empty(),
                    )
                } else if t.tag == "nrt_record"@ {
                    match spec_parse_nrt_record(t) {
                        Some(rec) => (s, spec_nrt_actions(s, rec)),
                        None => (s, Seq::<ActV>::empty()),
                    }
                } else {
                    (s, Seq::<ActV>::empty())
                }
            },
        },
    }
}

/// A batch of packets interpreted in order, states threaded and actions
/// concatenated.
pub open spec fn spec_interpret_list(s: InterpV, ps: Seq<PktV>) -> (InterpV, Seq<ActV>)
    decreases ps, 0int,
{
    if ps.len() == 0 {
        (s, Seq::<ActV>::empty())
    } else {
        let head = spec_interpret(s, ps[0]);
        let rest = spec_interpret_list(head.0, ps.drop_first());
        (rest.0, head.1 + rest.1)
    }
}

impl Interpreter {
    /// Interpreter invariant: the registry is sound and the tempo positive.
    pub open spec fn wf(&self) -> bool {
        &&& self.reg.wf()
        &&& self.bpm >= 1
    }

    /// A fresh session: empty registry and dictionaries, the sampler's own
    /// definition preloaded on both synth lists, tempo at the default.
    pub fn new(sampler_snippet: String, nrt_score_template: String) -> (r: Interpreter)
        ensures
            r.wf(),
            r@.reg.len() == 0,
            r@.curr == 100,
            r@.dict.len() == 0,
            r@.nrt_dict.len() == 0,
            r@.synthdefs == seq![sampler_snippet@],
            r@.nrt_synthdefs == seq![sampler_snippet@],
            r@.sampler == sampler_snippet@,
            r@.preloads.len() == 0,
            r@.bpm == 120,
            r@.template == nrt_score_template@,
    {
        let snippets = vec![sampler_snippet.clone()];
        let nrt_snippets = vec![sampler_snippet.clone()];
        proof {
            assert(views_of(snippets@) =~= seq![sampler_snippet@]);
            assert(views_of(nrt_snippets@) =~= seq![sampler_snippet@]);
            assert(timeds_view(Seq::<TimedOSCPacket>::empty()) =~= Seq::<TimedV>::empty());
        }
        Interpreter {
            reg: NodeIDRegistry::new(),
            sample_pack_dict: SamplePackDict::new(),
            nrt_sample_pack_dict: SamplePackDict::new(),
            synthef_snippets: snippets,
            nrt_synthdef_snippets: nrt_snippets,
            sampler_synth_snippet: sampler_snippet,
            nrt_preloads: Vec::new(),
            bpm: 120,
            nrt_score_template: nrt_score_template,
        }
    }

    /// Interpret one leaf command against the session state.
    #[verifier::rlimit(100)]
    fn interpret_message(&mut self, m: &OscMessage) -> (r: Vec<Action>)
        requires
            old(self).wf(),
        ensures
            final(self).wf(),
            (final(self)@, acts_view(r@)) == spec_interpret_msg(old(self)@, m@),
    {
        proof {
            assert(m@.args.len() == m.args@.len());
            assert forall|i: int| 0 <= i < m.args@.len() implies m@.args[i] == (
            #[trigger] m.args@[i])@ by {}
        }
        let addr = m.addr.as_str();
        if str_eq(addr, "/free_notes") {
            let pattern = match m.get_string_at(0, "Regex string") {
                Ok(p) => p,
                Err(_) => {
                    return no_actions();
                },
            };
            let node_ids = self.reg.regex_search_node_ids(pattern.as_str());
            let ghost ids = crate::node_lookup::ints_view(node_ids@);
            let mut out: Vec<Action> = Vec::new();
            let mut i: usize = 0;
            while i < node_ids.len()
                invariant
                    i <= node_ids@.len(),
                    ids == crate::node_lookup::ints_view(node_ids@),
                    out@.len() == i,
                    forall|k: int|
                        0 <= k < i ==> (#[trigger] out@[k])@ == (ActV::SendToScsynth {
                            delay_ms: 0,
                            packet: spec_n_free(ids[k]),
                        }),
                decreases node_ids@.len() - i,
            {
                let id = node_ids[i];
                let args = vec![OscArg::Int(id)];
                proof {
                    assert(args_view(args@) =~= seq![ArgV::Int(id as int)]);
                    assert(ids[i as int] == node_ids@[i as int] as int);
                }
                out.push(
                    Action::SendToScsynth {
                        delay_ms: 0,
                        packet: OscPacket::Message(
                            OscMessage { addr: "/n_free".to_owned(), args },
                        ),
                    },
                );
                i = i + 1;
            }
            proof {
                assert(self@ == spec_interpret_msg(old(self)@, m@).0);
                assert(acts_view(out@) == spec_interpret_msg(old(self)@, m@).1);
            }
            proof {
                assert(acts_view(out@) =~= Seq::new(
                    ids.len(),
                    |k: int| ActV::SendToScsynth { delay_ms: 0, packet: spec_n_free(ids[k]) },
                ));
                assert(self@ == spec_interpret_msg(old(self)@, m@).0);
                assert(acts_view(out@) == spec_interpret_msg(old(self)@, m@).1);
            }
            out
        } else if str_eq(addr, "/jdw_sc_event_trigger") {
            let message = match m.get_string_at(0, "message") {
                Ok(s) => s,
                Err(_) => {
                    return no_actions();
                },
            };
            let delay_ms = match m.get_u64_at(1, "delay_ms") {
                Ok(d) => d,
                Err(_) => {
                    return no_actions();
                },
            };
            let out = vec![Action::EventTrigger { message, delay_ms }];
            proof {
                assert(acts_view(out@) =~= spec_interpret_msg(old(self)@, m@).1);
                assert(self@ == spec_interpret_msg(old(self)@, m@).0);
            }
            out
        } else if str_eq(addr, "/set_bpm") {
            match m.get_int_at(0, "BPM value") {
                Ok(b) => {
                    if b >= 1 {
                        self.bpm = b;
                    }
                },
                Err(_) => {},
            }
            let out = no_actions();
            proof {
                assert(self@ == spec_interpret_msg(old(self)@, m@).0);
                assert(acts_view(out@) == spec_interpret_msg(old(self)@, m@).1);
            }
            out
        } else if str_eq(addr, "/note_on_timed") {
            let pm = match NoteOnTimedMessage::new(m) {
                Ok(p) => p,
                Err(_) => {
                    return no_actions();
                },
            };
            proof {
                crate::osc::lemma_arg_time_nonneg(m@.args[2]);
            }
            let node_id = match self.reg.create_node_id(pm.external_id.as_str()) {
                Ok(id) => id,
                Err(_) => {
                    return no_actions();
                },
            };
            let msgs = pm.create_osc(node_id, self.bpm);
            let out = schedule_timed_packets(pm.delay_ms, msgs);
            proof {
                let v = spec_parse_note_on_timed(m@)->Some_0;
                assert(spec_live_timed_msgs(v, node_id as int, old(self)@.bpm) =~= seq![
                    TimedV { time: 0, packet: spec_s_new(v.synth_name, node_id as int, v.args) },
                    TimedV {
                        time: sat64(v.gate_time * 60 / old(self)@.bpm),
                        packet: spec_n_set_off(node_id as int),
                    },
                ]);
                assert(self@ == spec_interpret_msg(old(self)@, m@).0);
                assert(acts_view(out@) == spec_interpret_msg(old(self)@, m@).1);
            }
            out
        } else if str_eq(addr, "/note_on") {
            let pm = match NoteOnMessage::new(m) {
                Ok(p) => p,
                Err(_) => {
                    return no_actions();
                },
            };
            let node_id = match self.reg.create_node_id(pm.external_id.as_str()) {
                Ok(id) => id,
                Err(_) => {
                    return no_actions();
                },
            };
            let msgs = pm.create_osc(node_id);
            let out = schedule_timed_packets(pm.delay_ms, msgs);
            proof {
                let v = spec_parse_note_on(m@)->Some_0;
                assert(spec_create_msgs(v.synth_name, node_id as int, v.args, 0) =~= seq![
                    TimedV { time: 0, packet: spec_s_new(v.synth_name, node_id as int, v.args) },
                ]);
                assert(self@ == spec_interpret_msg(old(self)@, m@).0);
                assert(acts_view(out@) == spec_interpret_msg(old(self)@, m@).1);
            }
            out
        } else if str_eq(addr, "/play_sample") {
            let pm = match PlaySampleMessage::new(m) {
                Ok(p) => p,
                Err(_) => {
                    return no_actions();
                },
            };
            let delay = pm.delay_ms;
            let category: String = match &pm.category {
                Some(c) => c.clone(),
                None => String::new(),
            };
            // an unresolved sample falls back to buffer zero; only a
            // warning, never a failure
            let found = self.sample_pack_dict.find(
                pm.sample_pack.as_str(),
                pm.index,
                category.as_str(),
            );
            let buffer_number = match found {
                Some(sample) => sample.buffer_number,
                None => 0,
            };
            let internal_msg = pm.prepare(buffer_number);
            let node_id = match self.reg.create_node_id(internal_msg.external_id.as_str()) {
                Ok(id) => id,
                Err(_) => {
                    return no_actions();
                },
            };
            let msgs = internal_msg.create_osc(node_id);
            let out = schedule_timed_packets(delay, msgs);
            proof {
                let v = spec_parse_play_sample(m@)->Some_0;
                let prepared = v.args + seq![ArgV::Str("buf"@), ArgV::Int(buffer_number as int)];
                assert(spec_create_msgs("sampler"@, node_id as int, prepared, 0) =~= seq![
                    TimedV { time: 0, packet: spec_s_new("sampler"@, node_id as int, prepared) },
                ]);
                assert(self@ == spec_interpret_msg(old(self)@, m@).0);
                assert(acts_view(out@) == spec_interpret_msg(old(self)@, m@).1);
            }
            out
        } else if str_eq(addr, "/note_modify") {
            let pm = match NoteModifyMessage::new(m) {
                Ok(p) => p,
                Err(_) => {
                    return no_actions();
                },
            };
            let node_ids = self.reg.regex_search_node_ids(pm.external_id_regex.as_str());
            let msgs = pm.create_osc(node_ids);
            let out = schedule_timed_packets(pm.delay_ms, msgs);
            proof {
                let v = spec_parse_note_modify(m@)->Some_0;
                assert(timeds_view(msgs@) =~= spec_modify_msgs(
                    spec_search(old(self)@.reg, v.external_id_regex),
                    v.args,
                    0,
                ));
                assert(self@ == spec_interpret_msg(old(self)@, m@).0);
                assert(acts_view(out@) == spec_interpret_msg(old(self)@, m@).1);
            }
            out
        } else if str_eq(addr, "/read_scd") {
            let out = vec![Action::SendToSclang { msg: clone_msg(m) }];
            proof {
                assert(acts_view(out@) =~= seq![ActV::SendToSclang { msg: m@ }]);
                assert(self@ == spec_interpret_msg(old(self)@, m@).0);
                assert(acts_view(out@) == spec_interpret_msg(old(self)@, m@).1);
            }
            out
        } else if str_eq(addr, "/load_sample") {
            let resolved = match LoadSampleMessage::new(m) {
                Ok(r) => r,
                Err(_) => {
                    return no_actions();
                },
            };
            match self.nrt_sample_pack_dict.register_sample(&resolved) {
                Ok(_) => {},
                Err(_) => {},
            }
            let sample = match self.sample_pack_dict.register_sample(&resolved) {
                Ok(s) => s,
                Err(_) => {
                    proof {
                        assert(false);
                    }
                    return no_actions();
                },
            };
            let scd = sample.get_buffer_load_scd();
            let args = vec![OscArg::Str(scd)];
            proof {
                assert(args_view(args@) =~= seq![
                    ArgV::Str(spec_buffer_load_scd(sample@)),
                ]);
            }
            let out = vec![
                Action::SendToSclang {
                    msg: OscMessage { addr: "/read_scd".to_owned(), args },
                },
            ];
            proof {
                assert(self@ == spec_interpret_msg(old(self)@, m@).0);
                assert(acts_view(out@) == spec_interpret_msg(old(self)@, m@).1);
            }
            proof {
                assert(acts_view(out@) =~= spec_interpret_msg(old(self)@, m@).1);
                assert(self@ == spec_interpret_msg(old(self)@, m@).0);
            }
            out
        } else if str_eq(addr, "/clear_nrt") {
            self.nrt_preloads = Vec::new();
            let fresh = vec![self.sampler_synth_snippet.clone()];
            proof {
                assert(views_of(fresh@) =~= seq![old(self)@.sampler]);
                assert(timeds_view(Seq::<TimedOSCPacket>::empty()) =~= Seq::<TimedV>::empty());
            }
            self.nrt_synthdef_snippets = fresh;
            self.nrt_sample_pack_dict = SamplePackDict::new();
            proof {
                assert(timeds_view(self.nrt_preloads@) =~= Seq::<TimedV>::empty());
                assert(self.nrt_sample_pack_dict@ =~= Seq::<(Seq<char>, Seq<SampleV>)>::empty());
            }
            let out = no_actions();
            proof {
                assert(self@ == spec_interpret_msg(old(self)@, m@).0);
                assert(acts_view(out@) == spec_interpret_msg(old(self)@, m@).1);
            }
            out
        } else if str_eq(addr, "/create_synthdef") {
            let definition = match m.get_string_at(0, "Synthdef scd string") {
                Ok(d) => d,
                Err(_) => {
                    return no_actions();
                },
            };
            if !contains_text(&self.nrt_synthdef_snippets, definition.as_str()) {
                let ghost prior = views_of(self.nrt_synthdef_snippets@);
                self.nrt_synthdef_snippets.push(definition.clone());
                proof {
                    assert(views_of(self.nrt_synthdef_snippets@) =~= prior.push(definition@));
                }
            }
            if !contains_text(&self.synthef_snippets, definition.as_str()) {
                let ghost prior = views_of(self.synthef_snippets@);
                self.synthef_snippets.push(definition.clone());
                proof {
                    assert(views_of(self.synthef_snippets@) =~= prior.push(definition@));
                }
                let mut add_call = definition;
                add_call.append(".add;");
                let args = vec![OscArg::Str(add_call)];
                proof {
                    assert(args_view(args@) =~= seq![
                        ArgV::Str(m@.args[0]->Str_0 + ".add;"@),
                    ]);
                }
                let out = vec![
                    Action::SendToSclang {
                        msg: OscMessage { addr: "/read_scd".to_owned(), args },
                    },
                ];
                proof {
                    assert(acts_view(out@) =~= spec_interpret_msg(old(self)@, m@).1);
                    assert(self@ == spec_interpret_msg(old(self)@, m@).0);
                }
                out
            } else {
                let out2 = no_actions();
                proof {
                    assert(self@ == spec_interpret_msg(old(self)@, m@).0);
                    assert(acts_view(out2@) == spec_interpret_msg(old(self)@, m@).1);
                }
                out2
            }
        } else {
            let out = no_actions();
            proof {
                assert(self@ == spec_interpret_msg(old(self)@, m@).0);
                assert(acts_view(out@) == spec_interpret_msg(old(self)@, m@).1);
            }
            out
        }
    }

    /// Interpret one inbound packet: the actions the shell must perform,
    /// with the session state advanced.
    pub fn interpret(&mut self, packet: &OscPacket) -> (r: Vec<Action>)
        requires
            old(self).wf(),
        ensures
            final(self).wf(),
            (final(self)@, acts_view(r@)) == spec_interpret(old(self)@, pkt_view(*packet)),
        decreases *packet,
    {
        match packet {
            OscPacket::Message(osc_message) => self.interpret_message(osc_message),
            OscPacket::Bundle(osc_bundle) => {
                let ghost cv = pkts_view(osc_bundle.content@);
                proof {
                    lemma_pkts_view(osc_bundle.content@);
                }
                if osc_bundle.content.len() == 0 {
                    return no_actions();
                }
                let tag: String = match &osc_bundle.content[0] {
                    OscPacket::Message(m0) => {
                        proof {
                            assert(cv[0] == pkt_view(osc_bundle.content@[0]));
                            assert(m0@.args.len() == m0.args@.len());
                            assert forall|i: int|
                                0 <= i < m0.args@.len() implies m0@.args[i] == (
                            #[trigger] m0.args@[i])@ by {}
                        }
                        match m0.expect_addr("/bundle_info") {
                            Ok(_) => {},
                            Err(_) => {
                                return no_actions();
                            },
                        }
                        match m0.get_string_at(0, "bundle tag") {
                            Ok(t) => t,
                            Err(_) => {
                                return no_actions();
                            },
                        }
                    },
                    OscPacket::Bundle(_) => {
                        return no_actions();
                    },
                };
                let ghost tv = spec_parse_tagged(cv)->Some_0;
                proof {
                    assert(spec_parse_tagged(cv) is Some);
                    assert(tv.tag == tag@);
                    assert(tv.contents == cv.drop_first());
                }
                if str_eq(tag.as_str(), "batch-send") {
                    let ghost s0 = old(self)@;
                    let ghost cvdf = cv.drop_first();
                    let mut out: Vec<Action> = Vec::new();
                    let mut k: usize = 1;
                    proof {
                        assert(cvdf.skip(0) =~= cvdf);
                        assert(acts_view(out@) =~= Seq::<ActV>::empty());
                    }
                    while k < osc_bundle.content.len()
                        invariant
                            1 <= k <= osc_bundle.content@.len(),
                            old(self).wf(),
                            self.wf(),
                            cv == pkts_view(osc_bundle.content@),
                            cv.len() == osc_bundle.content@.len(),
                            forall|i: int|
                                0 <= i < osc_bundle.content@.len() ==> cv[i] == pkt_view(
                                    #[trigger] osc_bundle.content@[i],
                                ),
                            cvdf == cv.drop_first(),
                            *packet == OscPacket::Bundle(*osc_bundle),
                            spec_interpret_list(s0, cvdf) == (spec_interpret_list(
                                self@,
                                cvdf.skip(k - 1),
                            ).0, acts_view(out@) + spec_interpret_list(
                                self@,
                                cvdf.skip(k - 1),
                            ).1),
                        decreases osc_bundle.content@.len() - k,
                    {
                        proof {
                            assert(cvdf[k - 1] == cv[k as int]);
                            assert(cvdf.skip(k - 1)[0] == cvdf[k - 1]);
                            assert(cvdf.skip(k - 1).drop_first() =~= cvdf.skip(k as int));
                            assert(decreases_to!(*packet => (*packet)->Bundle_0));
                            assert((*packet)->Bundle_0 == *osc_bundle);
                            assert(decreases_to!(*osc_bundle => osc_bundle.content@[k as int]));
                            assert(decreases_to!(*packet => osc_bundle.content@[k as int]));
                        }
                        let ghost acts_before = acts_view(out@);
                        let mut acts = self.interpret(&osc_bundle.content[k]);
                        let ghost actsv = acts_view(acts@);
                        out.append(&mut acts);
                        proof {
                            assert(acts_view(out@) =~= acts_before + actsv);
                        }
                        k = k + 1;
                    }
                    proof {
                        assert(cvdf.skip(cvdf.len() as int) =~= Seq::<PktV>::empty());
                        assert(acts_view(out@) + Seq::<ActV>::empty() =~= acts_view(out@));
                    }
                    out
                } else if str_eq(tag.as_str(), "nrt_preload") {
                    let ghost s0 = old(self)@;
                    let ghost cvdf = cv.drop_first();
                    let mut k: usize = 1;
                    proof {
                        assert(cvdf.subrange(0, 0) =~= Seq::<PktV>::empty());
                        assert(s0.preloads + spec_collect_preloads(cvdf.subrange(0, 0))
                            =~= s0.preloads);
                    }
                    while k < osc_bundle.content.len()
                        invariant
                            1 <= k <= osc_bundle.content@.len(),
                            self.wf(),
                            cv == pkts_view(osc_bundle.content@),
                            cv.len() == osc_bundle.content@.len(),
                            forall|i: int|
                                0 <= i < osc_bundle.content@.len() ==> cv[i] == pkt_view(
                                    #[trigger] osc_bundle.content@[i],
                                ),
                            cvdf == cv.drop_first(),
                            self@ == (InterpV {
                                preloads: s0.preloads + spec_collect_preloads(
                                    cvdf.subrange(0, k - 1),
                                ),
                                ..s0
                            }),
                        decreases osc_bundle.content@.len() - k,
                    {
                        proof {
                            assert(cvdf[k - 1] == cv[k as int]);
                        }
                        let ghost pl_before = timeds_view(self.nrt_preloads@);
                        match crate::osc_model::parse_timed_elem(&osc_bundle.content[k]) {
                            Ok(t) => {
                                self.nrt_preloads.push(t);
                                proof {
                                    assert(timeds_view(self.nrt_preloads@) =~= pl_before.push(
                                        spec_parse_timed_elem(cvdf[k - 1])->Some_0,
                                    ));
                                }
                            },
                            Err(_) => {},
                        }
                        proof {
                            lemma_collect_preloads_step(cvdf, k - 1);
                            assert(timeds_view(self.nrt_preloads@) =~= s0.preloads
                                + spec_collect_preloads(cvdf.subrange(0, k as int)));
                        }
                        k = k + 1;
                    }
                    proof {
                        assert(cvdf.subrange(0, cvdf.len() as int) =~= cvdf);
                    }
                    no_actions()
                } else if str_eq(tag.as_str(), "nrt_record") {
                    let cloned = clone_packet(packet);
                    let ob: OscBundle = match cloned {
                        OscPacket::Bundle(b) => b,
                        OscPacket::Message(_) => {
                            proof {
                                assert(false);
                            }
                            return no_actions();
                        },
                    };
                    let tagged = match TaggedBundle::new(ob) {
                        Ok(t) => t,
                        Err(_) => {
                            proof {
                                assert(false);
                            }
                            return no_actions();
                        },
                    };
                    let rec = match NRTRecordMessage::from_bundle(tagged) {
                        Ok(r) => r,
                        Err(_) => {
                            return no_actions();
                        },
                    };
                    let ghost recv = spec_parse_nrt_record(tv)->Some_0;
                    proof {
                        assert(rec@ == recv);
                    }
                    self.compile_nrt(rec)
                } else {
                    no_actions()
                }
            },
        }
    }

    /// Compile one render request against the shadow state: build the score
    /// rows, fill the template, and hand the shell the write, the interpret
    /// directive and the completion wait.
    fn compile_nrt(&self, rec: NRTRecordMessage) -> (r: Vec<Action>)
        ensures
            acts_view(r@) == spec_nrt_actions(self@, rec@),
    {
        let ghost s = self@;
        let ghost recv = rec@;
        let mut score_rows: Vec<String> = Vec::new();
        // shadow synth definitions as byte rows
        let mut i: usize = 0;
        proof {
            assert(views_of(score_rows@) =~= spec_synthdef_rows_take(s.nrt_synthdefs, 0));
        }
        while i < self.nrt_synthdef_snippets.len()
            invariant
                i <= self.nrt_synthdef_snippets@.len(),
                s == self@,
                views_of(score_rows@) == spec_synthdef_rows_take(s.nrt_synthdefs, i as int),
            decreases self.nrt_synthdef_snippets@.len() - i,
        {
            let mut def = self.nrt_synthdef_snippets[i].clone();
            def.append(".asBytes");
            let row = nrt_wrap_synthdef(def.as_str());
            let ghost prior = views_of(score_rows@);
            score_rows.push(row);
            proof {
                assert(s.nrt_synthdefs[i as int] == self.nrt_synthdef_snippets@[i as int]@);
                assert(views_of(score_rows@) =~= prior.push(spec_nrt_wrap(
                    s.nrt_synthdefs[i as int] + ".asBytes"@,
                )));
                assert(views_of(score_rows@) =~= spec_synthdef_rows_take(s.nrt_synthdefs, i + 1));
            }
            i = i + 1;
        }
        // shadow samples as buffer rows
        let all_samples = self.nrt_sample_pack_dict.get_all_samples();
        let ghost samplesv = spec_all_samples(s.nrt_dict);
        let mut j: usize = 0;
        proof {
            assert(crate::sampling::samples_view(all_samples@) == samplesv);
            assert(views_of(score_rows@) =~= spec_synthdef_rows_take(
                s.nrt_synthdefs,
                s.nrt_synthdefs.len() as int,
            ));
            assert(spec_synthdef_rows_take(s.nrt_synthdefs, s.nrt_synthdefs.len() as int)
                =~= spec_synthdef_rows(s.nrt_synthdefs));
        }
        while j < all_samples.len()
            invariant
                j <= all_samples@.len(),
                s == self@,
                samplesv == crate::sampling::samples_view(all_samples@),
                views_of(score_rows@) == spec_synthdef_rows(s.nrt_synthdefs)
                    + spec_sample_rows_take(samplesv, j as int),
            decreases all_samples@.len() - j,
        {
            let row = all_samples[j].get_nrt_scd_row();
            let ghost prior = views_of(score_rows@);
            score_rows.push(row);
            proof {
                assert(samplesv[j as int] == all_samples@[j as int]@);
                assert(views_of(score_rows@) =~= prior.push(spec_nrt_scd_row(
                    samplesv[j as int],
                )));
                assert(spec_sample_rows_take(samplesv, j + 1) =~= spec_sample_rows_take(
                    samplesv,
                    j as int,
                ).push(spec_nrt_scd_row(samplesv[j as int])));
                assert(views_of(score_rows@) =~= spec_synthdef_rows(s.nrt_synthdefs)
                    + spec_sample_rows_take(samplesv, j + 1));
            }
            j = j + 1;
        }
        proof {
            assert(spec_sample_rows_take(samplesv, samplesv.len() as int) =~= spec_sample_rows(
                samplesv,
            ));
        }
        // the standing preloads, then the request's batch
        let mut batch: Vec<TimedOSCPacket> = Vec::new();
        let mut p: usize = 0;
        while p < self.nrt_preloads.len()
            invariant
                p <= self.nrt_preloads@.len(),
                s == self@,
                batch@.len() == p,
                forall|k: int| 0 <= k < p ==> (#[trigger] batch@[k])@ == s.preloads[k],
            decreases self.nrt_preloads@.len() - p,
        {
            batch.push(crate::envelope::clone_timed(&self.nrt_preloads[p]));
            proof {
                assert(s.preloads[p as int] == self.nrt_preloads@[p as int]@);
            }
            p = p + 1;
        }
        let NRTRecordMessage { file_name, bpm, messages, end_beat } = rec;
        let mut rest = messages;
        let ghost restv = timeds_view(rest@);
        batch.append(&mut rest);
        proof {
            assert(timeds_view(batch@) =~= s.preloads + restv);
        }
        // replay through a fresh registry and a zero clock
        let mut converter = NRTPacketConverter::new();
        proof {
            assert(converter.reg@ =~= Seq::<EntryV>::empty());
        }
        let timeline = converter.process_packets(&self.nrt_sample_pack_dict, &batch);
        let ghost timelinev = spec_sort_timed(
            spec_replay(Seq::<EntryV>::empty(), 100, 0, s.nrt_dict, s.preloads + restv),
        );
        let mut t: usize = 0;
        proof {
            assert(timeds_view(timeline@) == timelinev);
        }
        while t < timeline.len()
            invariant
                t <= timeline@.len(),
                s == self@,
                timelinev == timeds_view(timeline@),
                views_of(score_rows@) == spec_synthdef_rows(s.nrt_synthdefs) + spec_sample_rows(
                    spec_all_samples(s.nrt_dict),
                ) + spec_timeline_rows_take(timelinev, t as int),
            decreases timeline@.len() - t,
        {
            let row = render_nrt_row(&timeline[t]);
            let ghost prior = views_of(score_rows@);
            score_rows.push(row);
            proof {
                assert(timelinev[t as int] == timeline@[t as int]@);
                assert(views_of(score_rows@) =~= prior.push(spec_nrt_row(timelinev[t as int])));
                assert(spec_timeline_rows_take(timelinev, t + 1) =~= spec_timeline_rows_take(
                    timelinev,
                    t as int,
                ).push(spec_nrt_row(timelinev[t as int])));
                assert(views_of(score_rows@) =~= spec_synthdef_rows(s.nrt_synthdefs)
                    + spec_sample_rows(spec_all_samples(s.nrt_dict)) + spec_timeline_rows_take(
                    timelinev,
                    t + 1,
                ));
            }
            t = t + 1;
        }
        proof {
            assert(spec_timeline_rows_take(timelinev, timelinev.len() as int)
                =~= spec_timeline_rows(timelinev));
        }
        let script = create_nrt_script(
            self.nrt_score_template.as_str(),
            bpm,
            file_name.as_str(),
            end_beat,
            &score_rows,
        );
        let mut scd_name = file_name.clone();
        scd_name.append(".scd");
        let directive_args = vec![OscArg::Str(scd_name.clone())];
        proof {
            assert(args_view(directive_args@) =~= seq![ArgV::Str(recv.file_name + ".scd"@)]);
        }
        let out = vec![
            Action::WriteScoreFile { file_name: scd_name, contents: script },
            Action::SendToSclang {
                msg: OscMessage { addr: "/read_scd_file".to_owned(), args: directive_args },
            },
            Action::AwaitNrtCompletion { file_name },
        ];
        proof {
            assert(acts_view(out@) =~= spec_nrt_actions(s, recv));
        }
        out
    }
}

/// The first `n` synth-definition rows.
pub open spec fn spec_synthdef_rows_take(defs: Seq<Seq<char>>, n: int) -> Seq<Seq<char>> {
    Seq::new(n as nat, |k: int| spec_nrt_wrap(defs[k] + ".asBytes"@))
}

/// The first `n` sample rows.
pub open spec fn spec_sample_rows_take(samples: Seq<SampleV>, n: int) -> Seq<Seq<char>> {
    Seq::new(n as nat, |k: int| spec_nrt_scd_row(samples[k]))
}

/// The first `n` timeline rows.
pub open spec fn spec_timeline_rows_take(timeline: Seq<TimedV>, n: int) -> Seq<Seq<char>> {
    Seq::new(n as nat, |k: int| spec_nrt_row(timeline[k]))
}

/// No actions: the empty action list.
fn no_actions() -> (r: Vec<Action>)
    ensures
        acts_view(r@) == Seq::<ActV>::empty(),
{
    let r: Vec<Action> = Vec::new();
    proof {
        assert(acts_view(r@) =~= Seq::<ActV>::empty());
    }
    r
}

/// Whether a text stands in the list.
fn contains_text(v: &Vec<String>, x: &str) -> (r: bool)
    ensures
        r == spec_contains_text(views_of(v@), x@),
{
    let mut i: usize = 0;
    while i < v.len()
        invariant
            i <= v@.len(),
            forall|j: int| 0 <= j < i ==> views_of(v@)[j] != x@,
        decreases v@.len() - i,
    {
        proof {
            assert(views_of(v@)[i as int] == v@[i as int]@);
        }
        if str_eq(v[i].as_str(), x) {
            return true;
        }
        i = i + 1;
    }
    false
}

/// Collecting preloads over one more element appends that element's parse.
proof fn lemma_collect_preloads_step(ps: Seq<PktV>, k: int)
    requires
        0 <= k < ps.len(),
    ensures
        spec_collect_preloads(ps.subrange(0, k + 1)) == spec_collect_preloads(ps.subrange(0, k))
            + (match spec_parse_timed_elem(ps[k]) {
            Some(t) => seq![t],
            None => Seq::<TimedV>::empty(),
        }),
    decreases k,
{
    if k == 0 {
        let ext = ps.subrange(0, 1);
        assert(ext[0] == ps[0]);
        assert(ext.drop_first() =~= Seq::<PktV>::empty());
        assert(ps.subrange(0, 0) =~= Seq::<PktV>::empty());
        let head: Seq<TimedV> = match spec_parse_timed_elem(ps[0]) {
            Some(t) => seq![t],
            None => Seq::<TimedV>::empty(),
        };
        assert(spec_collect_preloads(ext.drop_first()) == Seq::<TimedV>::empty());
        assert(spec_collect_preloads(ps.subrange(0, 1)) =~= head);
    } else {
        let ext = ps.subrange(0, k + 1);
        let pre = ps.subrange(0, k);
        assert(ext[0] == ps[0]);
        assert(pre[0] == ps[0]);
        let ps1 = ps.drop_first();
        assert(ext.drop_first() =~= ps1.subrange(0, k));
        assert(pre.drop_first() =~= ps1.subrange(0, k - 1));
        assert(ps1[k - 1] == ps[k as int]);
        lemma_collect_preloads_step(ps1, k - 1);
        assert(spec_collect_preloads(ext) =~= spec_collect_preloads(pre) + (
        match spec_parse_timed_elem(ps[k]) {
            Some(t) => seq![t],
            None => Seq::<TimedV>::empty(),
        }));
    }
}

} // verus!
