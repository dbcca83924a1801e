use jdw_sc::dec::Dec;
use jdw_sc::envelope::{TaggedBundle, TimedOSCPacket};
use jdw_sc::nrt_record::{NRTConvert, NRTPacketConverter, get_nrt_record_scd, render_nrt_row,
    sort_timed};
use jdw_sc::samples::SamplePackCollection;
use jdw_sc::osc::{OscArg, OscBundle, OscMessage, OscPacket};
use jdw_sc::osc_model::{NRTRecordMessage, PlaySampleMessage, RealTimePacket};
use jdw_sc::sampling::SamplePackDict;

fn dec(units: i64) -> Dec {
    Dec::from_units(units)
}

fn info_leaf(tag: &str) -> OscPacket {
    OscPacket::Message(OscMessage {
        addr: "/bundle_info".to_string(),
        args: vec![OscArg::Str(tag.to_string())],
    })
}

fn note_on(id: &str, time_units: i64) -> TimedOSCPacket {
    TimedOSCPacket {
        time: dec(time_units),
        packet: OscPacket::Message(OscMessage {
            addr: "/note_on".to_string(),
            args: vec![
                OscArg::Str("bell".to_string()),
                OscArg::Str(id.to_string()),
                OscArg::Int(0),
            ],
        }),
    }
}

#[test]
fn clock_advances_by_declared_spacing() {
    // three commands with time increments [0.5, 0.0, 1.0]: each translates
    // at the clock before its own increment, and the clock ends at 1.5
    let batch = vec![
        note_on("a", 50_000),
        note_on("b", 0),
        note_on("c", 100_000),
    ];
    let dict = SamplePackDict::new();
    let mut conv = NRTPacketConverter::new();
    let rows = conv.process_packets(&dict, &batch);
    assert_eq!(conv.current_beat.units, 150_000);
    assert_eq!(rows.len(), 3);
    let times: Vec<i64> = rows.iter().map(|r| r.time.units).collect();
    assert_eq!(times, vec![0, 50_000, 50_000]);
}

#[test]
fn output_rows_are_nondecreasing_in_time() {
    let batch = vec![
        note_on("a", 100_000),
        note_on("b", 0),
        note_on("c", 50_000),
    ];
    let dict = SamplePackDict::new();
    let mut conv = NRTPacketConverter::new();
    let rows = conv.process_packets(&dict, &batch);
    let mut last = i64::MIN;
    for r in rows.iter() {
        assert!(last <= r.time.units);
        last = r.time.units;
    }
}

#[test]
fn stable_sort_keeps_batch_order_among_equal_times() {
    let a = TimedOSCPacket {
        time: dec(100_000),
        packet: OscPacket::Message(OscMessage {
            addr: "/first".to_string(),
            args: Vec::new(),
        }),
    };
    let b = TimedOSCPacket {
        time: dec(0),
        packet: OscPacket::Message(OscMessage {
            addr: "/zero".to_string(),
            args: Vec::new(),
        }),
    };
    let c = TimedOSCPacket {
        time: dec(100_000),
        packet: OscPacket::Message(OscMessage {
            addr: "/second".to_string(),
            args: Vec::new(),
        }),
    };
    let sorted = sort_timed(vec![a, b, c]);
    let addrs: Vec<String> = sorted
        .iter()
        .map(|t| match &t.packet {
            OscPacket::Message(m) => m.addr.clone(),
            _ => String::new(),
        })
        .collect();
    assert_eq!(addrs, vec!["/zero", "/first", "/second"]);
}

#[test]
fn score_row_renders_each_argument_kind() {
    let t = TimedOSCPacket {
        time: dec(150_000),
        packet: OscPacket::Message(OscMessage {
            addr: "/s_new".to_string(),
            args: vec![
                OscArg::Int(101),
                OscArg::Str("freq".to_string()),
                OscArg::Dec(dec(44_000_000)),
            ],
        }),
    };
    assert_eq!(
        render_nrt_row(&t),
        "[ 1.50000, [\"/s_new\",101,\"freq\",440.00000] ]"
    );
    assert_eq!(t.as_nrt_row(), render_nrt_row(&t));
}

#[test]
fn unsupported_argument_renders_error_marker() {
    let t = TimedOSCPacket {
        time: dec(0),
        packet: OscPacket::Message(OscMessage {
            addr: "/x".to_string(),
            args: vec![OscArg::Other],
        }),
    };
    assert_eq!(render_nrt_row(&t), "[ 0.00000, [\"/x\",err] ]");
}

#[test]
fn nrt_record_envelope_round_trips() {
    // tag "nrt_record", info leaf (120.0, "out", 8.0), empty command bundle
    let bundle = OscBundle {
        content: vec![
            info_leaf("nrt_record"),
            OscPacket::Message(OscMessage {
                addr: "/nrt_record_info".to_string(),
                args: vec![
                    OscArg::Dec(dec(12_000_000)),
                    OscArg::Str("out".to_string()),
                    OscArg::Dec(dec(800_000)),
                ],
            }),
            OscPacket::Bundle(OscBundle { content: Vec::new() }),
        ],
    };
    let tagged = TaggedBundle::new(bundle).unwrap();
    assert_eq!(tagged.bundle_tag, "nrt_record");
    let rec = NRTRecordMessage::from_bundle(tagged).unwrap();
    assert_eq!(rec.file_name, "out");
    assert_eq!(rec.bpm.units, 12_000_000);
    assert_eq!(rec.end_beat.units, 800_000);
    assert_eq!(rec.messages.len(), 0);
}

#[test]
fn wrong_tag_is_not_a_render_request() {
    let bundle = OscBundle {
        content: vec![info_leaf("something_else")],
    };
    let tagged = TaggedBundle::new(bundle).unwrap();
    assert!(NRTRecordMessage::from_bundle(tagged).is_err());
}

#[test]
fn empty_bundle_is_not_a_tagged_bundle() {
    let bundle = OscBundle { content: Vec::new() };
    assert!(TaggedBundle::new(bundle).is_err());
}

#[test]
fn timed_element_round_trips() {
    let inner = OscPacket::Message(OscMessage {
        addr: "/note_on".to_string(),
        args: vec![
            OscArg::Str("bell".to_string()),
            OscArg::Str("x".to_string()),
            OscArg::Int(0),
        ],
    });
    let bundle = OscBundle {
        content: vec![
            info_leaf("timed_msg"),
            OscPacket::Message(OscMessage {
                addr: "/timed_msg_info".to_string(),
                args: vec![OscArg::Dec(dec(25_000))],
            }),
            inner,
        ],
    };
    let tagged = TaggedBundle::new(bundle).unwrap();
    let timed = TimedOSCPacket::from_bundle(tagged).unwrap();
    assert_eq!(timed.time.units, 25_000);
    match timed.packet {
        OscPacket::Message(m) => assert_eq!(m.addr, "/note_on"),
        _ => panic!("expected the wrapped message"),
    }
}

#[test]
fn duplicate_voice_name_in_batch_translates_once() {
    let batch = vec![note_on("same", 0), note_on("same", 0)];
    let dict = SamplePackDict::new();
    let mut conv = NRTPacketConverter::new();
    let rows = conv.process_packets(&dict, &batch);
    // the second creation is an identity conflict and produces nothing
    assert_eq!(rows.len(), 1);
}

#[test]
fn real_time_packet_reads_time_and_payload() {
    let bundle = OscBundle {
        content: vec![
            info_leaf("rt"),
            OscPacket::Message(OscMessage {
                addr: "/rt_info".to_string(),
                args: vec![OscArg::Time(3_700_000_000, 17)],
            }),
            OscPacket::Message(OscMessage { addr: "/payload".to_string(), args: Vec::new() }),
        ],
    };
    let tagged = TaggedBundle::new(bundle).unwrap();
    let rt = RealTimePacket::new(tagged).unwrap();
    assert_eq!(rt.time_seconds, 3_700_000_000);
    assert_eq!(rt.time_fractional, 17);
    match rt.packet {
        OscPacket::Message(m) => assert_eq!(m.addr, "/payload"),
        _ => panic!("expected the payload message"),
    }
}

#[test]
fn preset_buffer_argument_is_noticed() {
    let with_buf = OscMessage {
        addr: "/play_sample".to_string(),
        args: vec![
            OscArg::Str("s1".to_string()),
            OscArg::Str("p".to_string()),
            OscArg::Int(0),
            OscArg::Str(String::new()),
            OscArg::Int(0),
            OscArg::Str("buf".to_string()),
            OscArg::Int(9),
        ],
    };
    let m = PlaySampleMessage::new(&with_buf).unwrap();
    assert!(m.has_buf_arg());
    let without = OscMessage {
        addr: "/play_sample".to_string(),
        args: vec![
            OscArg::Str("s1".to_string()),
            OscArg::Str("p".to_string()),
            OscArg::Int(0),
            OscArg::Str(String::new()),
            OscArg::Int(0),
        ],
    };
    let m2 = PlaySampleMessage::new(&without).unwrap();
    assert!(!m2.has_buf_arg());
}

#[test]
fn legacy_score_assembly_orders_rows() {
    let rec = NRTRecordMessage {
        file_name: "out".to_string(),
        bpm: dec(12_000_000),
        messages: vec![note_on("n1", 0)],
        end_beat: dec(400_000),
    };
    let dict = SamplePackDict::new();
    let buffers = SamplePackCollection::empty();
    let defs = vec!["SynthDef(bell)".to_string()];
    let filedefs = vec!["SynthDef(pad).asBytes".to_string()];
    let script = get_nrt_record_scd(
        &rec,
        &dict,
        &buffers,
        &defs,
        &filedefs,
        "{:score_rows}",
    )
    .unwrap();
    // the session definition, the on-disk definition and the note row all
    // land in the score in that order
    let bell = script.find("[0.0, ['/d_recv', SynthDef(bell).asBytes]]").unwrap();
    let pad = script.find("[0.0, ['/d_recv', SynthDef(pad).asBytes]]").unwrap();
    let note = script.find("/s_new").unwrap();
    assert!(bell < pad && pad < note);
}
