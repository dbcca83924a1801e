use jdw_sc::dec::Dec;
use jdw_sc::dispatch::{Action, matches_awaited, nrt_finished_message, schedule_timed_packets};
use jdw_sc::envelope::TimedOSCPacket;
use jdw_sc::osc::{OscArg, OscBundle, OscMessage, OscPacket};
use jdw_sc::osc_daemon::Interpreter;

fn dec(units: i64) -> Dec {
    Dec::from_units(units)
}

fn fresh() -> Interpreter {
    Interpreter::new("SynthDef(sampler)".to_string(), "rows=[{:score_rows}]".to_string())
}

fn msg(addr: &str, args: Vec<OscArg>) -> OscPacket {
    OscPacket::Message(OscMessage { addr: addr.to_string(), args })
}

fn info_leaf(tag: &str) -> OscPacket {
    msg("/bundle_info", vec![OscArg::Str(tag.to_string())])
}

fn note_on_timed(id: &str) -> OscPacket {
    msg(
        "/note_on_timed",
        vec![
            OscArg::Str("bell".to_string()),
            OscArg::Str(id.to_string()),
            OscArg::Dec(dec(100_000)),
            OscArg::Int(0),
        ],
    )
}

#[test]
fn timed_note_schedules_create_and_release() {
    let mut it = fresh();
    let acts = it.interpret(&note_on_timed("n1"));
    assert_eq!(acts.len(), 2);
    match &acts[0] {
        Action::SendToScsynth { delay_ms, packet } => {
            assert_eq!(*delay_ms, 0);
            match packet {
                OscPacket::Message(m) => assert_eq!(m.addr, "/s_new"),
                _ => panic!("expected a message"),
            }
        },
        _ => panic!("expected an engine send"),
    }
    // one beat at the default 120 bpm releases after half a second
    match &acts[1] {
        Action::SendToScsynth { delay_ms, packet } => {
            assert_eq!(*delay_ms, 500);
            match packet {
                OscPacket::Message(m) => assert_eq!(m.addr, "/n_set"),
                _ => panic!("expected a message"),
            }
        },
        _ => panic!("expected an engine send"),
    }
}

#[test]
fn tempo_change_rescales_release_delay() {
    let mut it = fresh();
    let none = it.interpret(&msg("/set_bpm", vec![OscArg::Int(60)]));
    assert_eq!(none.len(), 0);
    let acts = it.interpret(&note_on_timed("n1"));
    match &acts[1] {
        Action::SendToScsynth { delay_ms, .. } => assert_eq!(*delay_ms, 1000),
        _ => panic!("expected an engine send"),
    }
}

#[test]
fn malformed_command_is_rejected_and_loop_continues() {
    let mut it = fresh();
    // missing fields: rejected with no actions, state unharmed
    let acts = it.interpret(&msg("/note_on_timed", vec![OscArg::Str("bell".to_string())]));
    assert_eq!(acts.len(), 0);
    // the interpreter still works afterwards
    let acts2 = it.interpret(&note_on_timed("n1"));
    assert_eq!(acts2.len(), 2);
}

#[test]
fn funnel_tag_redispatches_each_element() {
    let mut it = fresh();
    let bundle = OscPacket::Bundle(OscBundle {
        content: vec![info_leaf("batch-send"), note_on_timed("a"), note_on_timed("b")],
    });
    let acts = it.interpret(&bundle);
    assert_eq!(acts.len(), 4);
}

#[test]
fn unknown_tag_is_ignored() {
    let mut it = fresh();
    let bundle = OscPacket::Bundle(OscBundle {
        content: vec![info_leaf("future_extension"), note_on_timed("a")],
    });
    let acts = it.interpret(&bundle);
    assert_eq!(acts.len(), 0);
}

#[test]
fn free_notes_releases_matching_handles() {
    let mut it = fresh();
    it.interpret(&note_on_timed("drum_1"));
    it.interpret(&note_on_timed("bell_1"));
    let acts = it.interpret(&msg("/free_notes", vec![OscArg::Str("^drum".to_string())]));
    assert_eq!(acts.len(), 1);
    match &acts[0] {
        Action::SendToScsynth { delay_ms, packet } => {
            assert_eq!(*delay_ms, 0);
            match packet {
                OscPacket::Message(m) => {
                    assert_eq!(m.addr, "/n_free");
                    match &m.args[0] {
                        OscArg::Int(id) => assert_eq!(*id, 101),
                        _ => panic!("expected the handle"),
                    }
                },
                _ => panic!("expected a message"),
            }
        },
        _ => panic!("expected an engine send"),
    }
}

#[test]
fn read_scd_forwards_verbatim() {
    let mut it = fresh();
    let acts = it.interpret(&msg("/read_scd", vec![OscArg::Str("x.postln;".to_string())]));
    assert_eq!(acts.len(), 1);
    match &acts[0] {
        Action::SendToSclang { msg } => {
            assert_eq!(msg.addr, "/read_scd");
        },
        _ => panic!("expected an interpreter send"),
    }
}

#[test]
fn synthdef_registers_once() {
    let mut it = fresh();
    let def = OscArg::Str("SynthDef(bell)".to_string());
    let first = it.interpret(&msg("/create_synthdef", vec![def.clone()]));
    assert_eq!(first.len(), 1);
    let second = it.interpret(&msg("/create_synthdef", vec![def]));
    assert_eq!(second.len(), 0);
    assert_eq!(it.synthef_snippets.len(), 2);
    assert_eq!(it.nrt_synthdef_snippets.len(), 2);
}

#[test]
fn clear_nrt_resets_shadow_state() {
    let mut it = fresh();
    it.interpret(&msg(
        "/create_synthdef",
        vec![OscArg::Str("SynthDef(bell)".to_string())],
    ));
    assert_eq!(it.nrt_synthdef_snippets.len(), 2);
    let acts = it.interpret(&msg("/clear_nrt", Vec::new()));
    assert_eq!(acts.len(), 0);
    assert_eq!(it.nrt_synthdef_snippets.len(), 1);
    assert_eq!(it.nrt_preloads.len(), 0);
    // the live synth list keeps its entries
    assert_eq!(it.synthef_snippets.len(), 2);
}

#[test]
fn load_sample_registers_and_loads_buffer() {
    let mut it = fresh();
    let acts = it.interpret(&msg(
        "/load_sample",
        vec![
            OscArg::Str("/packs/x/kick.wav".to_string()),
            OscArg::Str("x".to_string()),
            OscArg::Int(3),
            OscArg::Str("bd".to_string()),
            OscArg::Int(0),
        ],
    ));
    assert_eq!(acts.len(), 1);
    match &acts[0] {
        Action::SendToSclang { msg } => {
            assert_eq!(msg.addr, "/read_scd");
            match &msg.args[0] {
                OscArg::Str(s) => assert!(s.contains("bufnum: 3")),
                _ => panic!("expected the buffer load line"),
            }
        },
        _ => panic!("expected an interpreter send"),
    }
}

#[test]
fn render_request_writes_score_and_awaits_completion() {
    let mut it = fresh();
    let record = OscPacket::Bundle(OscBundle {
        content: vec![
            info_leaf("nrt_record"),
            msg(
                "/nrt_record_info",
                vec![
                    OscArg::Dec(dec(12_000_000)),
                    OscArg::Str("myfile".to_string()),
                    OscArg::Dec(dec(800_000)),
                ],
            ),
            OscPacket::Bundle(OscBundle { content: Vec::new() }),
        ],
    });
    let acts = it.interpret(&record);
    assert_eq!(acts.len(), 3);
    match &acts[0] {
        Action::WriteScoreFile { file_name, contents } => {
            assert_eq!(file_name, "myfile.scd");
            // the sampler definition lands in the score as a byte row
            assert!(contents.contains("SynthDef(sampler).asBytes"));
        },
        _ => panic!("expected the score write"),
    }
    match &acts[1] {
        Action::SendToSclang { msg } => assert_eq!(msg.addr, "/read_scd_file"),
        _ => panic!("expected the interpret directive"),
    }
    match &acts[2] {
        Action::AwaitNrtCompletion { file_name } => assert_eq!(file_name, "myfile"),
        _ => panic!("expected the completion wait"),
    }
}

#[test]
fn event_trigger_answers_the_caller() {
    let mut it = fresh();
    let acts = it.interpret(&msg(
        "/jdw_sc_event_trigger",
        vec![OscArg::Str("tick".to_string()), OscArg::Int(40)],
    ));
    assert_eq!(acts.len(), 1);
    match &acts[0] {
        Action::EventTrigger { message, delay_ms } => {
            assert_eq!(message, "tick");
            assert_eq!(*delay_ms, 40);
        },
        _ => panic!("expected an event answer"),
    }
}

#[test]
fn scheduling_adds_offsets_to_the_floor() {
    let msgs = vec![
        TimedOSCPacket {
            time: dec(0),
            packet: msg("/a", Vec::new()),
        },
        TimedOSCPacket {
            time: dec(100_000),
            packet: msg("/b", Vec::new()),
        },
    ];
    let acts = schedule_timed_packets(70, msgs);
    assert_eq!(acts.len(), 2);
    match &acts[0] {
        Action::SendToScsynth { delay_ms, .. } => assert_eq!(*delay_ms, 70),
        _ => panic!("expected a send"),
    }
    match &acts[1] {
        Action::SendToScsynth { delay_ms, .. } => assert_eq!(*delay_ms, 1070),
        _ => panic!("expected a send"),
    }
}

#[test]
fn awaited_message_matches_on_address_and_arguments() {
    let ok = OscMessage {
        addr: "/init".to_string(),
        args: vec![OscArg::Str("ok".to_string())],
    };
    let expected = vec![OscArg::Str("ok".to_string())];
    assert!(matches_awaited(&ok, "/init", &expected));
    let wrong_args = OscMessage {
        addr: "/init".to_string(),
        args: vec![OscArg::Str("no".to_string())],
    };
    assert!(!matches_awaited(&wrong_args, "/init", &expected));
    let wrong_addr = OscMessage { addr: "/other".to_string(), args: Vec::new() };
    assert!(!matches_awaited(&wrong_addr, "/init", &Vec::new()));
}

#[test]
fn render_outcome_report_carries_marker_and_name() {
    let ok = nrt_finished_message(true, "myfile");
    assert_eq!(ok.addr, "/nrt_record_finished");
    match (&ok.args[0], &ok.args[1]) {
        (OscArg::Str(a), OscArg::Str(b)) => {
            assert_eq!(a, "SUCCESS");
            assert_eq!(b, "myfile");
        },
        _ => panic!("expected two texts"),
    }
    let bad = nrt_finished_message(false, "myfile");
    match &bad.args[0] {
        OscArg::Str(a) => assert_eq!(a, "FAILURE"),
        _ => panic!("expected a text"),
    }
}

#[test]
fn duplicate_live_voice_name_is_rejected_without_actions() {
    let mut it = fresh();
    let first = it.interpret(&note_on_timed("n1"));
    assert_eq!(first.len(), 2);
    let second = it.interpret(&note_on_timed("n1"));
    assert_eq!(second.len(), 0);
}

#[test]
fn preloads_accumulate_and_enter_the_next_render() {
    let mut it = fresh();
    // wrap one timed note as a preload element
    let timed = OscPacket::Bundle(OscBundle {
        content: vec![
            info_leaf("timed_msg"),
            msg("/timed_msg_info", vec![OscArg::Dec(dec(0))]),
            note_on_timed("pre1"),
        ],
    });
    let preload = OscPacket::Bundle(OscBundle {
        content: vec![info_leaf("nrt_preload"), timed],
    });
    let none = it.interpret(&preload);
    assert_eq!(none.len(), 0);
    assert_eq!(it.nrt_preloads.len(), 1);
    let record = OscPacket::Bundle(OscBundle {
        content: vec![
            info_leaf("nrt_record"),
            msg(
                "/nrt_record_info",
                vec![
                    OscArg::Dec(dec(12_000_000)),
                    OscArg::Str("withpre".to_string()),
                    OscArg::Dec(dec(400_000)),
                ],
            ),
            OscPacket::Bundle(OscBundle { content: Vec::new() }),
        ],
    });
    let acts = it.interpret(&record);
    match &acts[0] {
        Action::WriteScoreFile { contents, .. } => {
            // the preloaded note's create-voice row made it into the score
            assert!(contents.contains("/s_new"));
        },
        _ => panic!("expected the score write"),
    }
}

#[test]
fn funnel_tags_nest_to_arbitrary_depth() {
    let mut it = fresh();
    let inner = OscPacket::Bundle(OscBundle {
        content: vec![info_leaf("batch-send"), note_on_timed("deep")],
    });
    let outer = OscPacket::Bundle(OscBundle {
        content: vec![info_leaf("batch-send"), inner, note_on_timed("shallow")],
    });
    let acts = it.interpret(&outer);
    assert_eq!(acts.len(), 4);
}

#[test]
fn live_sample_with_unknown_pack_plays_buffer_zero() {
    let mut it = fresh();
    let acts = it.interpret(&msg(
        "/play_sample",
        vec![
            OscArg::Str("s1".to_string()),
            OscArg::Str("nonexistent".to_string()),
            OscArg::Int(5),
            OscArg::Str(String::new()),
            OscArg::Int(0),
        ],
    ));
    // the unresolved sample still plays, on the default buffer
    assert_eq!(acts.len(), 1);
    match &acts[0] {
        Action::SendToScsynth { packet, .. } => match packet {
            OscPacket::Message(m) => {
                assert_eq!(m.addr, "/s_new");
                let n = m.args.len();
                match (&m.args[n - 2], &m.args[n - 1]) {
                    (OscArg::Str(name), OscArg::Int(buf)) => {
                        assert_eq!(name, "buf");
                        assert_eq!(*buf, 0);
                    },
                    _ => panic!("missing the appended buffer argument"),
                }
            },
            _ => panic!("expected a message"),
        },
        _ => panic!("expected an engine send"),
    }
}

#[test]
fn live_sample_resolves_registered_buffer() {
    let mut it = fresh();
    it.interpret(&msg(
        "/load_sample",
        vec![
            OscArg::Str("/packs/x/kick.wav".to_string()),
            OscArg::Str("x".to_string()),
            OscArg::Int(7),
            OscArg::Str("bd".to_string()),
            OscArg::Int(0),
        ],
    ));
    let acts = it.interpret(&msg(
        "/play_sample",
        vec![
            OscArg::Str("s1".to_string()),
            OscArg::Str("x".to_string()),
            OscArg::Int(0),
            OscArg::Str(String::new()),
            OscArg::Int(0),
        ],
    ));
    assert_eq!(acts.len(), 1);
    match &acts[0] {
        Action::SendToScsynth { packet, .. } => match packet {
            OscPacket::Message(m) => {
                let n = m.args.len();
                match &m.args[n - 1] {
                    OscArg::Int(buf) => assert_eq!(*buf, 7),
                    _ => panic!("expected the buffer number"),
                }
            },
            _ => panic!("expected a message"),
        },
        _ => panic!("expected an engine send"),
    }
}
