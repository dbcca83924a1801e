use jdw_sc::dec::Dec;
use jdw_sc::internal_osc_conversion::{SuperColliderMessage, resolve_msg, seconds_from_beats};
use jdw_sc::node_lookup::NodeIDRegistry;
use jdw_sc::osc::{OscArg, OscMessage, OscPacket};
use jdw_sc::osc_model::{NoteOnMessage, NoteOnTimedMessage, PlaySampleMessage};
use jdw_sc::sampling::SamplePackDict;

fn dec(units: i64) -> Dec {
    Dec::from_units(units)
}

fn note_on_timed_msg() -> OscMessage {
    OscMessage {
        addr: "/note_on_timed".to_string(),
        args: vec![
            OscArg::Str("bell".to_string()),
            OscArg::Str("n1".to_string()),
            OscArg::Dec(dec(100_000)),
            OscArg::Int(0),
            OscArg::Str("freq".to_string()),
            OscArg::Dec(dec(44_000_000)),
        ],
    }
}

#[test]
fn two_beats_at_120_bpm_is_one_second() {
    let r = seconds_from_beats(120, dec(200_000));
    assert_eq!(r.units, 100_000);
}

#[test]
fn timed_note_release_uses_converted_seconds() {
    let m = NoteOnTimedMessage::new(&note_on_timed_msg()).unwrap();
    assert_eq!(m.gate_time.units, 100_000);
    let msgs = m.create_osc(101, 120);
    assert_eq!(msgs.len(), 2);
    assert_eq!(msgs[0].time.units, 0);
    // one beat at 120 bpm is half a second
    assert_eq!(msgs[1].time.units, 50_000);
}

#[test]
fn odd_trailing_argument_list_is_rejected() {
    let msg = OscMessage {
        addr: "/note_on".to_string(),
        args: vec![
            OscArg::Str("bell".to_string()),
            OscArg::Str("n1".to_string()),
            OscArg::Int(0),
            OscArg::Str("freq".to_string()),
            OscArg::Dec(dec(44_000_000)),
            OscArg::Str("amp".to_string()),
        ],
    };
    assert!(NoteOnMessage::new(&msg).is_err());
}

#[test]
fn even_alternating_argument_list_is_accepted() {
    let msg = OscMessage {
        addr: "/note_on".to_string(),
        args: vec![
            OscArg::Str("bell".to_string()),
            OscArg::Str("n1".to_string()),
            OscArg::Int(0),
            OscArg::Str("freq".to_string()),
            OscArg::Dec(dec(44_000_000)),
            OscArg::Str("amp".to_string()),
            OscArg::Dec(dec(50_000)),
        ],
    };
    let m = NoteOnMessage::new(&msg).unwrap();
    assert_eq!(m.args.len(), 4);
}

#[test]
fn value_slot_must_be_text_or_number() {
    let msg = OscMessage {
        addr: "/note_on".to_string(),
        args: vec![
            OscArg::Str("bell".to_string()),
            OscArg::Str("n1".to_string()),
            OscArg::Int(0),
            OscArg::Str("freq".to_string()),
            OscArg::Other,
        ],
    };
    assert!(NoteOnMessage::new(&msg).is_err());
}

#[test]
fn end_to_end_timed_note_references_one_handle() {
    // /note_on_timed "bell" "n1" 1.0 0 "freq" 440.0
    let packet = OscPacket::Message(note_on_timed_msg());
    let dict = SamplePackDict::new();
    let cmd = resolve_msg(&packet, &dict).unwrap();
    let mut reg = NodeIDRegistry::new();
    let msgs = match &cmd {
        SuperColliderMessage::NoteOnTimed(_) => cmd.as_osc(&mut reg).unwrap(),
        _ => panic!("expected a timed note"),
    };
    assert_eq!(msgs.len(), 2);
    // the create-voice message fires immediately and names handle 101
    assert_eq!(msgs[0].time.units, 0);
    match &msgs[0].packet {
        OscPacket::Message(m) => {
            assert_eq!(m.addr, "/s_new");
            match (&m.args[0], &m.args[1]) {
                (OscArg::Str(s), OscArg::Int(id)) => {
                    assert_eq!(s, "bell");
                    assert_eq!(*id, 101);
                },
                _ => panic!("unexpected create-voice arguments"),
            }
        },
        _ => panic!("expected a message packet"),
    }
    // the release fires one time unit later against the same handle
    assert_eq!(msgs[1].time.units, 100_000);
    match &msgs[1].packet {
        OscPacket::Message(m) => {
            assert_eq!(m.addr, "/n_set");
            match (&m.args[0], &m.args[1]) {
                (OscArg::Int(id), OscArg::Str(gate)) => {
                    assert_eq!(*id, 101);
                    assert_eq!(gate, "gate");
                },
                _ => panic!("unexpected release arguments"),
            }
        },
        _ => panic!("expected a message packet"),
    }
}

#[test]
fn unknown_sample_pack_falls_back_to_buffer_zero() {
    let msg = OscMessage {
        addr: "/play_sample".to_string(),
        args: vec![
            OscArg::Str("s1".to_string()),
            OscArg::Str("nonexistent".to_string()),
            OscArg::Int(5),
            OscArg::Str(String::new()),
            OscArg::Int(0),
        ],
    };
    let dict = SamplePackDict::new();
    let cmd = resolve_msg(&OscPacket::Message(msg), &dict).unwrap();
    match cmd {
        SuperColliderMessage::PlaySample(p) => {
            let n = p.args.len();
            match (&p.args[n - 2], &p.args[n - 1]) {
                (OscArg::Str(name), OscArg::Int(buf)) => {
                    assert_eq!(name, "buf");
                    assert_eq!(*buf, 0);
                },
                _ => panic!("missing appended buffer argument"),
            }
        },
        _ => panic!("expected a sample trigger"),
    }
}

#[test]
fn negative_sample_index_is_rejected() {
    let msg = OscMessage {
        addr: "/play_sample".to_string(),
        args: vec![
            OscArg::Str("s1".to_string()),
            OscArg::Str("pack".to_string()),
            OscArg::Int(-1),
            OscArg::Str(String::new()),
            OscArg::Int(0),
        ],
    };
    assert!(PlaySampleMessage::new(&msg).is_err());
}

#[test]
fn modify_with_no_matches_produces_no_messages() {
    let msg = OscMessage {
        addr: "/note_modify".to_string(),
        args: vec![OscArg::Str("^nothing$".to_string()), OscArg::Int(0)],
    };
    let dict = SamplePackDict::new();
    let cmd = resolve_msg(&OscPacket::Message(msg), &dict).unwrap();
    let mut reg = NodeIDRegistry::new();
    let msgs = cmd.as_osc(&mut reg).unwrap();
    assert_eq!(msgs.len(), 0);
}
