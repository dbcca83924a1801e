use jdw_sc::config::get_addr;
use jdw_sc::dec::Dec;
use jdw_sc::model::into_message;
use jdw_sc::osc::{OscArg, OscMessage};
use jdw_sc::osc_model::LoadSampleMessage;
use jdw_sc::sample_sorting::{SampleCategory, get_sample_category};
use jdw_sc::samples::{Counter, Sample, SamplePack, SamplePackCollection};
use jdw_sc::sampling::SamplePackDict;
use jdw_sc::scd_templating::{create_boot_script, create_nrt_script, nrt_wrap_synthdef};
use jdw_sc::strutil::{i32_to_string, join_rows, replace_all, sort_strings, str_eq, u64_to_string};

fn file_sample(name: &str, nr: i32) -> Sample {
    Sample { file_name: name.to_string(), buffer_nr: nr }
}

#[test]
fn index_wraps_around_the_selected_list() {
    // requesting index 5 in a pack with 3 samples resolves to position 2
    let pack = SamplePack {
        dir_path: "wav/example".to_string(),
        samples: vec![file_sample("a.wav", 10), file_sample("b.wav", 11), file_sample("c.wav", 12)],
        sample_dict: Vec::new(),
    };
    assert_eq!(pack.category_to_buf(5, None), 12);
}

#[test]
fn category_request_wraps_within_the_category() {
    let hh = vec![file_sample("hat1.wav", 20), file_sample("hat2.wav", 21)];
    let pack = SamplePack {
        dir_path: "wav/example".to_string(),
        samples: vec![file_sample("hat1.wav", 20), file_sample("hat2.wav", 21), file_sample(
            "kick.wav",
            22,
        )],
        sample_dict: vec![("hh".to_string(), hh)],
    };
    assert_eq!(pack.category_to_buf(3, Some("hh".to_string())), 21);
}

#[test]
fn unknown_pack_resolves_to_nothing() {
    let coll = SamplePackCollection::empty();
    assert_eq!(coll.category_to_buf("missing", 5, None), None);
}

#[test]
fn collection_build_sorts_names_and_numbers_buffers() {
    let listing = vec![(
        "wav/pack1".to_string(),
        vec!["b.wav".to_string(), "a.wav".to_string(), "notes.txt".to_string()],
    )];
    let coll = SamplePackCollection::create(listing);
    assert_eq!(coll.sample_packs.len(), 1);
    let (name, pack) = &coll.sample_packs[0];
    assert_eq!(name, "pack1");
    assert_eq!(pack.samples.len(), 2);
    assert_eq!(pack.samples[0].file_name, "a.wav");
    assert_eq!(pack.samples[0].buffer_nr, 0);
    assert_eq!(pack.samples[1].file_name, "b.wav");
    assert_eq!(pack.samples[1].buffer_nr, 1);
    assert_eq!(coll.counter.value, 1);
}

#[test]
fn counter_hands_out_consecutive_numbers() {
    let mut c = Counter { value: -1 };
    assert_eq!(c.next(), 0);
    assert_eq!(c.next(), 1);
}

#[test]
fn pack_name_is_last_path_component() {
    let pack = SamplePack {
        dir_path: "wav/example".to_string(),
        samples: Vec::new(),
        sample_dict: Vec::new(),
    };
    assert_eq!(pack.get_dir_path(), "example");
}

#[test]
fn filenames_categorize_by_keyword() {
    assert_eq!(get_sample_category("hihat88.wav"), "hh");
    assert_eq!(get_sample_category("KICK_louD.wav"), "bd");
    assert_eq!(get_sample_category("crash1.wav"), "cy");
    assert_eq!(get_sample_category("mystery.wav"), "mi");
}

#[test]
fn category_match_ignores_case() {
    let cat = SampleCategory {
        key: "hh",
        includes: vec!["hat"],
        excludes: vec!["crash"],
    };
    assert!(cat.accepts("HiHat22.WAV"));
    assert!(!cat.accepts("hat_crash.wav"));
    assert!(!cat.accepts("tom.wav"));
}

#[test]
fn registered_sample_is_found_again() {
    let mut dict = SamplePackDict::new();
    let msg = LoadSampleMessage {
        file_path: "/packs/example/kick.wav".to_string(),
        sample_pack: "example".to_string(),
        buffer_number: 7,
        category_tag: "bd".to_string(),
        tone_index: 2,
    };
    let s = dict.register_sample(&msg).unwrap();
    assert_eq!(s.buffer_number, 7);
    let found = dict.find("example", 2, "").unwrap();
    assert_eq!(found.buffer_number, 7);
    assert!(dict.find("example", 3, "").is_none());
    assert!(dict.find("otherpack", 2, "").is_none());
}

#[test]
fn reregistered_tone_index_gives_way() {
    let mut dict = SamplePackDict::new();
    let first = LoadSampleMessage {
        file_path: "/a.wav".to_string(),
        sample_pack: "p".to_string(),
        buffer_number: 1,
        category_tag: String::new(),
        tone_index: 0,
    };
    let second = LoadSampleMessage {
        file_path: "/b.wav".to_string(),
        sample_pack: "p".to_string(),
        buffer_number: 2,
        category_tag: String::new(),
        tone_index: 0,
    };
    dict.register_sample(&first).unwrap();
    dict.register_sample(&second).unwrap();
    let found = dict.find("p", 0, "").unwrap();
    assert_eq!(found.file_path, "/b.wav");
    assert_eq!(found.buffer_number, 2);
}

#[test]
fn buffer_load_line_names_the_file_and_buffer() {
    let s = jdw_sc::sampling::Sample {
        file_path: "/packs/x/kick.wav".to_string(),
        buffer_number: 3,
        category_tag: "bd".to_string(),
        tone_index: 0,
    };
    assert_eq!(
        s.get_buffer_load_scd(),
        "Buffer.read(s, \"/packs/x/kick.wav\", 0, -1, bufnum: 3); \n"
    );
    assert_eq!(
        s.get_nrt_scd_row(),
        "[0.0, (Buffer.new(server, 44100 * 8.0, 2, bufnum: 3)).allocReadMsg(\"/packs/x/kick.wav\")]"
    );
}

#[test]
fn decimal_literals_parse_exactly() {
    assert_eq!(Dec::from_decimal_str("0.125").unwrap().units, 12_500);
    assert_eq!(Dec::from_decimal_str("2").unwrap().units, 200_000);
    assert_eq!(Dec::from_decimal_str("1.2345678").unwrap().units, 123_456);
    assert!(Dec::from_decimal_str("").is_err());
    assert!(Dec::from_decimal_str("abc").is_err());
    assert!(Dec::from_decimal_str("5.").is_err());
    assert!(Dec::from_decimal_str("1.2.3").is_err());
    assert!(Dec::from_decimal_str("-1.0").is_err());
}

#[test]
fn five_decimal_rendering() {
    assert_eq!(Dec::from_units(150_000).to_string5(), "1.50000");
    assert_eq!(Dec::from_units(-150_000).to_string5(), "-1.50000");
    assert_eq!(Dec::from_units(0).to_string5(), "0.00000");
}

#[test]
fn saturating_sum_stays_in_range() {
    let big = Dec::from_units(i64::MAX);
    assert_eq!(big.plus(Dec::from_units(1)).units, i64::MAX);
    assert_eq!(Dec::from_units(2).plus(Dec::from_units(3)).units, 5);
}

#[test]
fn text_utilities_behave() {
    assert_eq!(replace_all("a{nodeId}b{nodeId}", "{nodeId}", "101"), "a101b101");
    assert_eq!(u64_to_string(0), "0");
    assert_eq!(i32_to_string(-45), "-45");
    assert!(str_eq("same", "same"));
    assert!(!str_eq("same", "different"));
    let rows = vec!["a".to_string(), "b".to_string(), "c".to_string()];
    assert_eq!(join_rows(&rows, ",\n"), "a,\nb,\nc");
    let sorted = sort_strings(vec!["b".to_string(), "a".to_string(), "ab".to_string()]);
    assert_eq!(sorted, vec!["a".to_string(), "ab".to_string(), "b".to_string()]);
}

#[test]
fn templates_substitute_placeholders() {
    assert_eq!(
        nrt_wrap_synthdef("SynthDef(x)"),
        "[0.0, ['/d_recv', SynthDef(x)]]"
    );
    let boot = create_boot_script("in={:server_in_port} out={:server_out_port}").unwrap();
    assert_eq!(boot, "in=13337 out=13338");
    let rows = vec!["r1".to_string(), "r2".to_string()];
    let script = create_nrt_script(
        "bpm={:bpm} f={:file_name} rows=[{:score_rows}] end={:end_time} s={:out_socket_name}",
        Dec::from_units(12_000_000),
        "out",
        Dec::from_units(800_000),
        &rows,
    );
    assert_eq!(script, "bpm=120.00000 f=out rows=[r1,\nr2] end=8.00000 s=o");
}

#[test]
fn loopback_address_builds_from_port() {
    assert_eq!(get_addr(13331), "127.0.0.1:13331");
}

#[test]
fn framed_text_decodes_into_parts() {
    let m = into_message("JDW.ADD.NOTE::12345::{\"freq\": 440}");
    assert_eq!(m.msg_type, "JDW.ADD.NOTE");
    assert_eq!(m.timestamp, "12345");
    assert_eq!(m.json_contents, "{\"freq\": 440}");
    let bare = into_message("NOTYPE");
    assert_eq!(bare.msg_type, "NOTYPE");
    assert_eq!(bare.timestamp, "");
    assert_eq!(bare.json_contents, "");
}

#[test]
fn message_getters_validate_types() {
    let msg = OscMessage {
        addr: "/load_sample".to_string(),
        args: vec![
            OscArg::Str("/a.wav".to_string()),
            OscArg::Str("p".to_string()),
            OscArg::Int(1),
            OscArg::Str("bd".to_string()),
            OscArg::Int(0),
        ],
    };
    let parsed = LoadSampleMessage::new(&msg).unwrap();
    assert_eq!(parsed.file_path, "/a.wav");
    assert_eq!(parsed.buffer_number, 1);
    let wrong = OscMessage { addr: "/load_sample".to_string(), args: vec![OscArg::Int(3)] };
    assert!(LoadSampleMessage::new(&wrong).is_err());
}
