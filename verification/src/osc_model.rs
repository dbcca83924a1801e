//! The typed command model. Each accepted command kind parses its wire
//! message by validating the address, a minimum argument count, the
//! fixed-position fields by expected type, and the alternation of the
//! trailing free-form arguments. A failure names the offending field and
//! yields no partial command.
use vstd::prelude::*;

use crate::dec::Dec;
use crate::envelope::{TaggedBundle, TaggedV, TimedOSCPacket, TimedV, spec_parse_tagged,
    spec_parse_timed};
use crate::osc::{ArgV, MsgV, OscArg, OscBundle, OscMessage, OscPacket, PktV, arg_time_value,
    args_view, clone_packet, lemma_pkts_view, pkt_view, pkts_view, valid_varargs};

verus! {

/// A note with an automatic release after its gate time.
pub struct NoteOnTimedMessage {
    pub synth_name: String,
    pub external_id: String,
    pub gate_time: Dec,
    pub delay_ms: u64,
    pub args: Vec<OscArg>,
}

/// Ghost image of a timed note command.
pub struct NoteOnTimedV {
    pub synth_name: Seq<char>,
    pub external_id: Seq<char>,
    pub gate_time: int,
    pub delay_ms: int,
    pub args: Seq<ArgV>,
}

impl View for NoteOnTimedMessage {
    type V = NoteOnTimedV;

    open spec fn view(&self) -> NoteOnTimedV {
        NoteOnTimedV {
            synth_name: self.synth_name@,
            external_id: self.external_id@,
            gate_time: self.gate_time@,
            delay_ms: self.delay_ms as int,
            args: args_view(self.args@),
        }
    }
}

/// What parsing a message as a timed note yields.
pub open spec fn spec_parse_note_on_timed(m: MsgV) -> Option<NoteOnTimedV> {
    if m.addr == "/note_on_timed"@ && m.args.len() >= 4 {
        match (m.args[0], m.args[1], m.args[3]) {
            (ArgV::Str(synth), ArgV::Str(ext), ArgV::Int(delay)) => {
                if delay >= 0 {
                    match arg_time_value(m.args[2]) {
                        Some(gate) => {
                            if valid_varargs(m.args.skip(4)) {
                                Some(
                                    NoteOnTimedV {
                                        synth_name: synth,
                                        external_id: ext,
                                        gate_time: gate,
                                        delay_ms: delay,
                                        args: m.args.skip(4),
                                    },
                                )
                            } else {
                                None
                            }
                        },
                        None => None,
                    }
                } else {
                    None
                }
            },
            _ => None,
        }
    } else {
        None
    }
}

impl NoteOnTimedMessage {
    /// Parse and validate a `/note_on_timed` wire message.
    pub fn new(msg: &OscMessage) -> (r: Result<NoteOnTimedMessage, String>)
        ensures
            r is Ok <==> spec_parse_note_on_timed(msg@) is Some,
            r matches Ok(m) ==> spec_parse_note_on_timed(msg@) == Some(m@),
    {
        proof {
            assert(msg@.args.len() == msg.args@.len());
            assert forall|i: int| 0 <= i < msg.args@.len() implies msg@.args[i] == (
            #[trigger] msg.args@[i])@ by {}
        }
        msg.expect_addr("/note_on_timed")?;
        msg.expect_args(4)?;
        proof {
            assert(args_view(msg.args@.subrange(4, msg.args@.len() as int)) =~= args_view(
                msg.args@,
            ).skip(4));
        }
        let synth_name = msg.get_string_at(0, "synth name")?;
        let external_id = msg.get_string_at(1, "external id")?;
        let gate_time = msg.get_dec_at(2, "gate time")?;
        let delay_ms = msg.get_u64_at(3, "delay_ms")?;
        let named_args = msg.get_varargs(4)?;
        proof {
            assert(args_view(msg.args@.subrange(4, msg.args@.len() as int)) =~= msg@.args.skip(4));
        }
        Ok(NoteOnTimedMessage { synth_name, external_id, gate_time, delay_ms, args: named_args })
    }
}

/// A note without automatic release.
pub struct NoteOnMessage {
    pub synth_name: String,
    pub external_id: String,
    pub delay_ms: u64,
    pub args: Vec<OscArg>,
}

/// Ghost image of a plain note command.
pub struct NoteOnV {
    pub synth_name: Seq<char>,
    pub external_id: Seq<char>,
    pub delay_ms: int,
    pub args: Seq<ArgV>,
}

impl View for NoteOnMessage {
    type V = NoteOnV;

    open spec fn view(&self) -> NoteOnV {
        NoteOnV {
            synth_name: self.synth_name@,
            external_id: self.external_id@,
            delay_ms: self.delay_ms as int,
            args: args_view(self.args@),
        }
    }
}

/// What parsing a message as a plain note yields.
pub open spec fn spec_parse_note_on(m: MsgV) -> Option<NoteOnV> {
    if m.addr == "/note_on"@ && m.args.len() >= 3 {
        match (m.args[0], m.args[1], m.args[2]) {
            (ArgV::Str(synth), ArgV::Str(ext), ArgV::Int(delay)) => {
                if delay >= 0 && valid_varargs(m.args.skip(3)) {
                    Some(
                        NoteOnV {
                            synth_name: synth,
                            external_id: ext,
                            delay_ms: delay,
                            args: m.args.skip(3),
                        },
                    )
                } else {
                    None
                }
            },
            _ => None,
        }
    } else {
        None
    }
}

impl NoteOnMessage {
    /// Parse and validate a `/note_on` wire message.
    pub fn new(msg: &OscMessage) -> (r: Result<NoteOnMessage, String>)
        ensures
            r is Ok <==> spec_parse_note_on(msg@) is Some,
            r matches Ok(m) ==> spec_parse_note_on(msg@) == Some(m@),
    {
        proof {
            assert(msg@.args.len() == msg.args@.len());
            assert forall|i: int| 0 <= i < msg.args@.len() implies msg@.args[i] == (
            #[trigger] msg.args@[i])@ by {}
        }
        msg.expect_addr("/note_on")?;
        msg.expect_args(3)?;
        proof {
            assert(args_view(msg.args@.subrange(3, msg.args@.len() as int)) =~= args_view(
                msg.args@,
            ).skip(3));
        }
        let synth_name = msg.get_string_at(0, "synth name")?;
        let external_id = msg.get_string_at(1, "external id")?;
        let delay_ms = msg.get_u64_at(2, "delay_ms")?;
        let named_args = msg.get_varargs(3)?;
        proof {
            assert(args_view(msg.args@.subrange(3, msg.args@.len() as int)) =~= msg@.args.skip(3));
        }
        Ok(NoteOnMessage { synth_name, external_id, delay_ms, args: named_args })
    }
}

/// A parameter change on every voice whose external name matches a pattern.
pub struct NoteModifyMessage {
    pub external_id_regex: String,
    pub delay_ms: u64,
    pub args: Vec<OscArg>,
}

/// Ghost image of a modify command.
pub struct NoteModifyV {
    pub external_id_regex: Seq<char>,
    pub delay_ms: int,
    pub args: Seq<ArgV>,
}

impl View for NoteModifyMessage {
    type V = NoteModifyV;

    open spec fn view(&self) -> NoteModifyV {
        NoteModifyV {
            external_id_regex: self.external_id_regex@,
            delay_ms: self.delay_ms as int,
            args: args_view(self.args@),
        }
    }
}

/// What parsing a message as a modify command yields.
pub open spec fn spec_parse_note_modify(m: MsgV) -> Option<NoteModifyV> {
    if m.addr == "/note_modify"@ && m.args.len() >= 2 {
        match (m.args[0], m.args[1]) {
            (ArgV::Str(pat), ArgV::Int(delay)) => {
                if delay >= 0 && valid_varargs(m.args.skip(2)) {
                    Some(
                        NoteModifyV { external_id_regex: pat, delay_ms: delay, args: m.args.skip(2) },
                    )
                } else {
                    None
                }
            },
            _ => None,
        }
    } else {
        None
    }
}

impl NoteModifyMessage {
    /// Parse and validate a `/note_modify` wire message.
    pub fn new(message: &OscMessage) -> (r: Result<NoteModifyMessage, String>)
        ensures
            r is Ok <==> spec_parse_note_modify(message@) is Some,
            r matches Ok(m) ==> spec_parse_note_modify(message@) == Some(m@),
    {
        proof {
            assert(message@.args.len() == message.args@.len());
            assert forall|i: int| 0 <= i < message.args@.len() implies message@.args[i] == (
            #[trigger] message.args@[i])@ by {}
        }
        message.expect_addr("/note_modify")?;
        message.expect_args(2)?;
        proof {
            assert(args_view(message.args@.subrange(2, message.args@.len() as int)) =~= args_view(
                message.args@,
            ).skip(2));
        }
        let external_id_regex = message.get_string_at(0, "external id regex")?;
        let delay_ms = message.get_u64_at(1, "delay_ms")?;
        let args = message.get_varargs(2)?;
        proof {
            assert(args_view(message.args@.subrange(2, message.args@.len() as int))
                =~= message@.args.skip(2));
        }
        Ok(NoteModifyMessage { external_id_regex, delay_ms, args })
    }
}

/// A sample trigger: a pack, an index, and an optional category.
pub struct PlaySampleMessage {
    pub external_id: String,
    pub sample_pack: String,
    pub index: usize,
    pub category: Option<String>,
    pub delay_ms: u64,
    pub args: Vec<OscArg>,
}

/// Ghost image of a sample trigger.
pub struct PlaySampleV {
    pub external_id: Seq<char>,
    pub sample_pack: Seq<char>,
    pub index: int,
    pub category: Option<Seq<char>>,
    pub delay_ms: int,
    pub args: Seq<ArgV>,
}

impl View for PlaySampleMessage {
    type V = PlaySampleV;

    open spec fn view(&self) -> PlaySampleV {
        PlaySampleV {
            external_id: self.external_id@,
            sample_pack: self.sample_pack@,
            index: self.index as int,
            category: match self.category {
                Some(c) => Some(c@),
                None => None,
            },
            delay_ms: self.delay_ms as int,
            args: args_view(self.args@),
        }
    }
}

/// What parsing a message as a sample trigger yields: an empty category
/// text means no category, and a negative index is rejected.
pub open spec fn spec_parse_play_sample(m: MsgV) -> Option<PlaySampleV> {
    if m.addr == "/play_sample"@ && m.args.len() >= 5 {
        match (m.args[0], m.args[1], m.args[2], m.args[3], m.args[4]) {
            (ArgV::Str(ext), ArgV::Str(pack), ArgV::Int(index), ArgV::Str(cat), ArgV::Int(
                delay,
            )) => {
                if index >= 0 && delay >= 0 && valid_varargs(m.args.skip(5)) {
                    Some(
                        PlaySampleV {
                            external_id: ext,
                            sample_pack: pack,
                            index: index,
                            category: if cat.len() == 0 {
                                None
                            } else {
                                Some(cat)
                            },
                            delay_ms: delay,
                            args: m.args.skip(5),
                        },
                    )
                } else {
                    None
                }
            },
            _ => None,
        }
    } else {
        None
    }
}

impl PlaySampleMessage {
    /// Parse and validate a `/play_sample` wire message.
    pub fn new(message: &OscMessage) -> (r: Result<PlaySampleMessage, String>)
        ensures
            r is Ok <==> spec_parse_play_sample(message@) is Some,
            r matches Ok(m) ==> spec_parse_play_sample(message@) == Some(m@),
    {
        proof {
            assert(message@.args.len() == message.args@.len());
            assert forall|i: int| 0 <= i < message.args@.len() implies message@.args[i] == (
            #[trigger] message.args@[i])@ by {}
        }
        message.expect_addr("/play_sample")?;
        message.expect_args(5)?;
        proof {
            assert(args_view(message.args@.subrange(5, message.args@.len() as int)) =~= args_view(
                message.args@,
            ).skip(5));
        }
        let external_id = message.get_string_at(0, "external_id")?;
        let sample_pack = message.get_string_at(1, "sample_pack")?;
        let index = message.get_int_at(2, "index")?;
        let cat_arg = message.get_string_at(3, "category")?;
        let delay_ms = message.get_u64_at(4, "delay_ms")?;
        let args = message.get_varargs(5)?;
        if index < 0 {
            return Err("Index arg in sample message incompatible: negative".to_owned());
        }
        let category = if cat_arg.as_str().unicode_len() == 0 {
            None
        } else {
            Some(cat_arg)
        };
        proof {
            assert(args_view(message.args@.subrange(5, message.args@.len() as int))
                =~= message@.args.skip(5));
        }
        Ok(
            PlaySampleMessage {
                external_id,
                sample_pack,
                index: index as usize,
                category,
                delay_ms,
                args,
            },
        )
    }
}

/// Registration of one sample file's metadata.
pub struct LoadSampleMessage {
    pub file_path: String,
    pub sample_pack: String,
    pub buffer_number: i32,
    pub category_tag: String,
    pub tone_index: i32,
}

/// Ghost image of a sample registration.
pub struct LoadSampleV {
    pub file_path: Seq<char>,
    pub sample_pack: Seq<char>,
    pub buffer_number: int,
    pub category_tag: Seq<char>,
    pub tone_index: int,
}

impl View for LoadSampleMessage {
    type V = LoadSampleV;

    open spec fn view(&self) -> LoadSampleV {
        LoadSampleV {
            file_path: self.file_path@,
            sample_pack: self.sample_pack@,
            buffer_number: self.buffer_number as int,
            category_tag: self.category_tag@,
            tone_index: self.tone_index as int,
        }
    }
}

/// What parsing a message as a sample registration yields.
pub open spec fn spec_parse_load_sample(m: MsgV) -> Option<LoadSampleV> {
    if m.addr == "/load_sample"@ && m.args.len() >= 5 {
        match (m.args[0], m.args[1], m.args[2], m.args[3], m.args[4]) {
            (ArgV::Str(path), ArgV::Str(pack), ArgV::Int(buf), ArgV::Str(cat), ArgV::Int(
                tone,
            )) => Some(
                LoadSampleV {
                    file_path: path,
                    sample_pack: pack,
                    buffer_number: buf,
                    category_tag: cat,
                    tone_index: tone,
                },
            ),
            _ => None,
        }
    } else {
        None
    }
}

impl LoadSampleMessage {
    /// Parse and validate a `/load_sample` wire message.
    pub fn new(msg: &OscMessage) -> (r: Result<LoadSampleMessage, String>)
        ensures
            r is Ok <==> spec_parse_load_sample(msg@) is Some,
            r matches Ok(m) ==> spec_parse_load_sample(msg@) == Some(m@),
    {
        proof {
            assert(msg@.args.len() == msg.args@.len());
            assert forall|i: int| 0 <= i < msg.args@.len() implies msg@.args[i] == (
            #[trigger] msg.args@[i])@ by {}
        }
        msg.expect_addr("/load_sample")?;
        msg.expect_args(5)?;
        Ok(
            LoadSampleMessage {
                file_path: msg.get_string_at(0, "file_path")?,
                sample_pack: msg.get_string_at(1, "sample_pack")?,
                buffer_number: msg.get_int_at(2, "buffer_number")?,
                category_tag: msg.get_string_at(3, "category_tag")?,
                tone_index: msg.get_int_at(4, "tone_index")?,
            },
        )
    }
}

/// A real-time packet extracted from a tagged envelope: the wrapped packet
/// and the absolute delivery time tag it carries.
pub struct RealTimePacket {
    pub packet: OscPacket,
    pub time_seconds: u32,
    pub time_fractional: u32,
}

/// What parsing a tagged envelope as a real-time packet yields: an info
/// leaf carrying a time tag, then the actual packet.
pub open spec fn spec_parse_real_time(t: TaggedV) -> Option<(int, int, PktV)> {
    if t.contents.len() >= 2 {
        match t.contents[0] {
            PktV::Message(m) => {
                if m.args.len() >= 1 {
                    match m.args[0] {
                        ArgV::Time(s, f) => Some((s, f, t.contents[1])),
                        _ => None,
                    }
                } else {
                    None
                }
            },
            PktV::Bundle(_) => None,
        }
    } else {
        None
    }
}

impl RealTimePacket {
    /// Parse of a tagged envelope as a real-time packet.
    pub fn new(tagged_bundle: TaggedBundle) -> (r: Result<RealTimePacket, String>)
        ensures
            r is Ok <==> spec_parse_real_time(tagged_bundle@) is Some,
            r matches Ok(p) ==> spec_parse_real_time(tagged_bundle@) == Some(
                (p.time_seconds as int, p.time_fractional as int, pkt_view(p.packet)),
            ),
    {
        proof {
            lemma_pkts_view(tagged_bundle.contents@);
        }
        if tagged_bundle.contents.len() < 2 {
            return Err("Missing actual packet".to_owned());
        }
        let (s, f) = match &tagged_bundle.contents[0] {
            OscPacket::Message(info_msg) => {
                if info_msg.args.len() < 1 {
                    return Err("No info msg arg".to_owned());
                }
                match &info_msg.args[0] {
                    OscArg::Time(s, f) => {
                        proof {
                            assert(info_msg@.args[0] == info_msg.args@[0]@);
                        }
                        (*s, *f)
                    },
                    _ => {
                        proof {
                            assert(info_msg@.args[0] == info_msg.args@[0]@);
                        }
                        return Err("Malformed time arg".to_owned());
                    },
                }
            },
            OscPacket::Bundle(_) => {
                return Err("Info message was a bundle".to_owned());
            },
        };
        let actual_packet = clone_packet(&tagged_bundle.contents[1]);
        Ok(RealTimePacket { packet: actual_packet, time_seconds: s, time_fractional: f })
    }
}

/// What one element of the NRT batch parses to: the element must be a
/// nested bundle that is a tagged envelope wrapping a timed element.
pub open spec fn spec_parse_timed_elem(p: PktV) -> Option<TimedV> {
    match p {
        PktV::Bundle(content) => match spec_parse_tagged(content) {
            Some(tv) => spec_parse_timed(tv),
            None => None,
        },
        PktV::Message(_) => None,
    }
}

/// What a batch of timed elements parses to: every element must parse.
pub open spec fn spec_parse_timed_list(s: Seq<PktV>) -> Option<Seq<TimedV>> {
    if forall|j: int| 0 <= j < s.len() ==> (#[trigger] spec_parse_timed_elem(s[j])) is Some {
        Some(Seq::new(s.len(), |j: int| spec_parse_timed_elem(s[j])->Some_0))
    } else {
        None
    }
}

/// Parse of one NRT batch element.
pub fn parse_timed_elem(p: &OscPacket) -> (r: Result<TimedOSCPacket, String>)
    ensures
        r is Ok <==> spec_parse_timed_elem(pkt_view(*p)) is Some,
        r matches Ok(t) ==> spec_parse_timed_elem(pkt_view(*p)) == Some(t@),
{
    let owned = clone_packet(p);
    match owned {
        OscPacket::Bundle(bun) => {
            let tagged = TaggedBundle::new(bun)?;
            let timed = TimedOSCPacket::from_bundle(tagged)?;
            Ok(timed)
        },
        OscPacket::Message(_) => Err(
            "Unexpected non-bundle when unpacking timed messages bundle".to_owned(),
        ),
    }
}

/// Ghost images of a timed packet list.
pub open spec fn timeds_view(s: Seq<TimedOSCPacket>) -> Seq<TimedV> {
    s.map_values(|t: TimedOSCPacket| t@)
}

/// An offline-render request: tempo, output name, end time, and the batch
/// of timed commands to replay.
pub struct NRTRecordMessage {
    pub file_name: String,
    pub bpm: Dec,
    pub messages: Vec<TimedOSCPacket>,
    pub end_beat: Dec,
}

/// Ghost image of a render request.
pub struct NRTRecordV {
    pub file_name: Seq<char>,
    pub bpm: int,
    pub messages: Seq<TimedV>,
    pub end_beat: int,
}

impl View for NRTRecordMessage {
    type V = NRTRecordV;

    open spec fn view(&self) -> NRTRecordV {
        NRTRecordV {
            file_name: self.file_name@,
            bpm: self.bpm@,
            messages: timeds_view(self.messages@),
            end_beat: self.end_beat@,
        }
    }
}

/// What parsing a tagged envelope as a render request yields: the tag must
/// be `nrt_record`, the contents an info leaf with tempo, output name and
/// end time, then a nested plain bundle whose every element is a timed
/// element.
pub open spec fn spec_parse_nrt_record(t: TaggedV) -> Option<NRTRecordV> {
    if t.tag == "nrt_record"@ && t.contents.len() >= 2 {
        match (t.contents[0], t.contents[1]) {
            (PktV::Message(m), PktV::Bundle(content)) => {
                if m.addr == "/nrt_record_info"@ && m.args.len() >= 3 {
                    match (arg_time_value(m.args[0]), m.args[1], arg_time_value(m.args[2])) {
                        (Some(bpm), ArgV::Str(file), Some(end)) => {
                            match spec_parse_timed_list(content) {
                                Some(msgs) => Some(
                                    NRTRecordV {
                                        file_name: file,
                                        bpm: bpm,
                                        messages: msgs,
                                        end_beat: end,
                                    },
                                ),
                                None => None,
                            }
                        },
                        _ => None,
                    }
                } else {
                    None
                }
            },
            _ => None,
        }
    } else {
        None
    }
}

impl NRTRecordMessage {
    /// Parse of a tagged envelope as a render request. Every failure is a
    /// descriptive error, never a panic, and no partial request is built.
    pub fn from_bundle(bundle: TaggedBundle) -> (r: Result<NRTRecordMessage, String>)
        ensures
            r is Ok <==> spec_parse_nrt_record(bundle@) is Some,
            r matches Ok(m) ==> spec_parse_nrt_record(bundle@) == Some(m@),
    {
        let tag_ok = crate::strutil::str_eq(bundle.bundle_tag.as_str(), "nrt_record");
        if !tag_ok {
            let mut e = "Attempted to parse ".to_owned();
            e.append(bundle.bundle_tag.as_str());
            e.append(" as nrt_record bundle");
            return Err(e);
        }
        let info_msg = bundle.get_message(0)?;
        let message_bundle = bundle.get_bundle(1)?;
        proof {
            assert(bundle@.contents[0] == PktV::Message(info_msg@));
            assert(bundle@.contents[1] == PktV::Bundle(message_bundle@));
            assert(info_msg@.args.len() == info_msg.args@.len());
            assert forall|i: int| 0 <= i < info_msg.args@.len() implies info_msg@.args[i] == (
            #[trigger] info_msg.args@[i])@ by {}
        }
        info_msg.expect_addr("/nrt_record_info")?;
        info_msg.expect_args(3)?;
        let bpm = info_msg.get_dec_at(0, "bpm")?;
        let file_name = info_msg.get_string_at(1, "file_name")?;
        let end_beat = info_msg.get_dec_at(2, "end_beat")?;

        let mut timed_messages: Vec<TimedOSCPacket> = Vec::new();
        let mut i: usize = 0;
        proof {
            lemma_pkts_view(message_bundle.content@);
        }
        while i < message_bundle.content.len()
            invariant
                i <= message_bundle.content@.len(),
                timed_messages@.len() == i,
                spec_parse_nrt_record(bundle@) == (match spec_parse_timed_list(
                    pkts_view(message_bundle.content@),
                ) {
                    Some(msgs) => Some(
                        NRTRecordV {
                            file_name: file_name@,
                            bpm: bpm@,
                            messages: msgs,
                            end_beat: end_beat@,
                        },
                    ),
                    None => None,
                }),
                pkts_view(message_bundle.content@).len() == message_bundle.content@.len(),
                forall|j: int|
                    0 <= j < message_bundle.content@.len() ==> pkts_view(
                        message_bundle.content@,
                    )[j] == pkt_view(#[trigger] message_bundle.content@[j]),
                forall|j: int|
                    0 <= j < i ==> (#[trigger] spec_parse_timed_elem(
                        pkts_view(message_bundle.content@)[j],
                    )) is Some,
                forall|j: int|
                    0 <= j < i ==> spec_parse_timed_elem(pkts_view(message_bundle.content@)[j])
                        == Some((#[trigger] timed_messages@[j])@),
            decreases message_bundle.content@.len() - i,
        {
            let timed = match parse_timed_elem(&message_bundle.content[i]) {
                Ok(t) => t,
                Err(e) => {
                    proof {
                        let s = pkts_view(message_bundle.content@);
                        assert(spec_parse_timed_elem(s[i as int]) is None);
                    }
                    return Err(e);
                },
            };
            timed_messages.push(timed);
            i = i + 1;
        }
        proof {
            let s = pkts_view(message_bundle.content@);
            assert(spec_parse_timed_list(s) is Some);
            assert(timeds_view(timed_messages@) =~= spec_parse_timed_list(s)->Some_0);
        }
        Ok(NRTRecordMessage { file_name, bpm, messages: timed_messages, end_beat })
    }
}

/// Render-request law: an envelope with the record tag, an info leaf
/// carrying the tempo, the output name and the end time, and an empty
/// command bundle parses back to exactly those three fields and an empty
/// message list.
pub proof fn lemma_nrt_record_round_trip(bpm: int, file_name: Seq<char>, end_beat: int)
    requires
        bpm >= 0,
        end_beat >= 0,
    ensures
        spec_parse_nrt_record(
            TaggedV {
                tag: "nrt_record"@,
                contents: seq![
                    PktV::Message(
                        MsgV {
                            addr: "/nrt_record_info"@,
                            args: seq![
                                ArgV::Dec(bpm),
                                ArgV::Str(file_name),
                                ArgV::Dec(end_beat),
                            ],
                        },
                    ),
                    PktV::Bundle(Seq::<PktV>::empty()),
                ],
            },
        ) == Some(
            NRTRecordV { file_name, bpm, messages: Seq::<TimedV>::empty(), end_beat },
        ),
{
    let t = TaggedV {
        tag: "nrt_record"@,
        contents: seq![
            PktV::Message(
                MsgV {
                    addr: "/nrt_record_info"@,
                    args: seq![ArgV::Dec(bpm), ArgV::Str(file_name), ArgV::Dec(end_beat)],
                },
            ),
            PktV::Bundle(Seq::<PktV>::empty()),
        ],
    };
    assert(arg_time_value(ArgV::Dec(bpm)) == Some(bpm));
    assert(arg_time_value(ArgV::Dec(end_beat)) == Some(end_beat));
    assert(spec_parse_timed_list(Seq::<PktV>::empty()) == Some(Seq::<TimedV>::empty())) by {
        assert(Seq::new(0, |j: int| spec_parse_timed_elem(Seq::<PktV>::empty()[j])->Some_0)
            =~= Seq::<TimedV>::empty());
    }
}

} // verus!
