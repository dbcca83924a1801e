//! The tagged-envelope protocol. A tagged bundle is an OSC bundle whose
//! first element is an info leaf `/bundle_info` naming the envelope's tag;
//! the remaining elements are the envelope's contents. A timed element is a
//! tagged bundle with the tag `timed_msg` whose contents are exactly one
//! info leaf `/timed_msg_info` carrying a time offset and one wrapped
//! packet.
use vstd::prelude::*;

use crate::dec::Dec;
use crate::osc::{ArgV, MsgV, OscBundle, OscMessage, OscPacket, PktV, arg_time_value,
    clone_msg, clone_packet, pkt_view, pkts_view, lemma_pkts_view};

verus! {

/// An envelope: its tag and its contents in order.
pub struct TaggedBundle {
    pub bundle_tag: String,
    pub contents: Vec<OscPacket>,
}

/// Ghost image of an envelope.
pub struct TaggedV {
    pub tag: Seq<char>,
    pub contents: Seq<PktV>,
}

impl View for TaggedBundle {
    type V = TaggedV;

    open spec fn view(&self) -> TaggedV {
        TaggedV { tag: self.bundle_tag@, contents: pkts_view(self.contents@) }
    }
}

/// What parsing a bundle's content as a tagged envelope yields: the first
/// element must be a leaf with address `/bundle_info` whose first argument
/// is the tag text; the rest are the contents.
pub open spec fn spec_parse_tagged(content: Seq<PktV>) -> Option<TaggedV> {
    if content.len() == 0 {
        None
    } else {
        match content[0] {
            PktV::Message(m) => {
                if m.addr == "/bundle_info"@ && m.args.len() >= 1 {
                    match m.args[0] {
                        ArgV::Str(tag) => Some(
                            TaggedV { tag, contents: content.drop_first() },
                        ),
                        _ => None,
                    }
                } else {
                    None
                }
            },
            PktV::Bundle(_) => None,
        }
    }
}

impl TaggedBundle {
    /// Parse of a bundle as a tagged envelope. An empty bundle, a first
    /// element that is not a leaf, a wrong marker address and a missing tag
    /// argument are each a descriptive error.
    pub fn new(bundle: OscBundle) -> (r: Result<TaggedBundle, String>)
        ensures
            r is Ok <==> spec_parse_tagged(bundle@) is Some,
            r matches Ok(t) ==> spec_parse_tagged(bundle@) == Some(t@),
    {
        let ghost orig = bundle.content@;
        proof {
            lemma_pkts_view(orig);
        }
        if bundle.content.len() == 0 {
            return Err("empty bundle cannot be a tagged bundle".to_owned());
        }
        let tag = match &bundle.content[0] {
            OscPacket::Message(m) => {
                m.expect_addr("/bundle_info")?;
                let t = m.get_string_at(0, "bundle tag")?;
                proof {
                    assert(pkts_view(orig)[0] == pkt_view(orig[0]));
                    assert(m@.args[0] == m.args@[0]@);
                }
                t
            },
            OscPacket::Bundle(_) => {
                return Err("tagged bundle must start with an info message".to_owned());
            },
        };
        let mut c = bundle.content;
        let rest = c.split_off(1);
        proof {
            lemma_pkts_view(rest@);
            assert forall|j: int| 0 <= j < rest@.len() implies pkts_view(rest@)[j] == pkts_view(
                orig,
            ).drop_first()[j] by {
                assert(pkts_view(rest@)[j] == pkt_view(rest@[j]));
                assert(rest@[j] == orig[j + 1]);
                assert(pkts_view(orig)[j + 1] == pkt_view(orig[j + 1]));
            }
            assert(pkts_view(rest@) =~= pkts_view(orig).drop_first());
        }
        Ok(TaggedBundle { bundle_tag: tag, contents: rest })
    }

    /// The message at `i` of the contents, copied out.
    pub fn get_message(&self, i: usize) -> (r: Result<OscMessage, String>)
        ensures
            r is Ok <==> i < self@.contents.len() && self@.contents[i as int] is Message,
            r matches Ok(m) ==> self@.contents[i as int] == PktV::Message(m@),
    {
        proof {
            lemma_pkts_view(self.contents@);
        }
        if i >= self.contents.len() {
            return Err("tagged bundle is missing an expected element".to_owned());
        }
        match &self.contents[i] {
            OscPacket::Message(m) => Ok(clone_msg(m)),
            OscPacket::Bundle(_) => Err("expected a message element in tagged bundle".to_owned()),
        }
    }

    /// The nested plain bundle at `i` of the contents, copied out.
    pub fn get_bundle(&self, i: usize) -> (r: Result<OscBundle, String>)
        ensures
            r is Ok <==> i < self@.contents.len() && self@.contents[i as int] is Bundle,
            r matches Ok(b) ==> self@.contents[i as int] == PktV::Bundle(b@),
    {
        proof {
            lemma_pkts_view(self.contents@);
        }
        if i >= self.contents.len() {
            return Err("tagged bundle is missing an expected element".to_owned());
        }
        match &self.contents[i] {
            OscPacket::Bundle(b) => {
                let p = clone_packet(&self.contents[i]);
                match p {
                    OscPacket::Bundle(cb) => Ok(cb),
                    OscPacket::Message(_) => Err("expected a bundle element".to_owned()),
                }
            },
            OscPacket::Message(_) => Err(
                "expected a nested bundle element in tagged bundle".to_owned(),
            ),
        }
    }
}

/// One content element with its relative time offset.
pub struct TimedOSCPacket {
    pub time: Dec,
    pub packet: OscPacket,
}

/// Ghost image of a timed packet.
pub struct TimedV {
    pub time: int,
    pub packet: PktV,
}

impl View for TimedOSCPacket {
    type V = TimedV;

    open spec fn view(&self) -> TimedV {
        TimedV { time: self.time@, packet: pkt_view(self.packet) }
    }
}

/// A fresh deep copy of a timed packet.
pub fn clone_timed(t: &TimedOSCPacket) -> (r: TimedOSCPacket)
    ensures
        r@ == t@,
{
    TimedOSCPacket { time: t.time, packet: clone_packet(&t.packet) }
}

/// What parsing a tagged envelope as a timed element yields: the tag must
/// be `timed_msg`, the contents exactly an info leaf `/timed_msg_info`
/// carrying a non-negative time value and the wrapped packet.
pub open spec fn spec_parse_timed(t: TaggedV) -> Option<TimedV> {
    if t.tag == "timed_msg"@ && t.contents.len() == 2 {
        match t.contents[0] {
            PktV::Message(m) => {
                if m.addr == "/timed_msg_info"@ && m.args.len() >= 1 {
                    match arg_time_value(m.args[0]) {
                        Some(time) => Some(TimedV { time, packet: t.contents[1] }),
                        None => None,
                    }
                } else {
                    None
                }
            },
            PktV::Bundle(_) => None,
        }
    } else {
        None
    }
}

impl TimedOSCPacket {
    /// Parse of a tagged envelope as a timed element.
    pub fn from_bundle(bundle: TaggedBundle) -> (r: Result<TimedOSCPacket, String>)
        ensures
            r is Ok <==> spec_parse_timed(bundle@) is Some,
            r matches Ok(t) ==> spec_parse_timed(bundle@) == Some(t@),
    {
        proof {
            lemma_pkts_view(bundle.contents@);
        }
        let ok_tag = crate::strutil::str_eq(bundle.bundle_tag.as_str(), "timed_msg");
        if !ok_tag {
            return Err("tagged bundle is not a timed element".to_owned());
        }
        if bundle.contents.len() != 2 {
            return Err("timed element must hold exactly an info leaf and a packet".to_owned());
        }
        let time = match &bundle.contents[0] {
            OscPacket::Message(m) => {
                m.expect_addr("/timed_msg_info")?;
                m.get_dec_at(0, "time offset")?
            },
            OscPacket::Bundle(_) => {
                return Err("timed element must start with an info message".to_owned());
            },
        };
        let mut c = bundle.contents;
        match c.pop() {
            Some(packet) => {
                proof {
                    assert(pkt_view(packet) == bundle@.contents[1]);
                }
                Ok(TimedOSCPacket { time, packet })
            },
            None => Err("timed element must hold a packet".to_owned()),
        }
    }
}

/// Envelope law: a bundle whose first element is the info leaf naming a
/// tag, followed by any contents, parses back to exactly that tag and
/// those contents.
pub proof fn lemma_tagged_round_trip(tag: Seq<char>, contents: Seq<PktV>)
    ensures
        spec_parse_tagged(
            seq![
                PktV::Message(MsgV { addr: "/bundle_info"@, args: seq![ArgV::Str(tag)] }),
            ] + contents,
        ) == Some(TaggedV { tag, contents }),
{
    let built = seq![
        PktV::Message(MsgV { addr: "/bundle_info"@, args: seq![ArgV::Str(tag)] }),
    ] + contents;
    assert(built[0] == PktV::Message(
        MsgV { addr: "/bundle_info"@, args: seq![ArgV::Str(tag)] },
    ));
    assert(built.drop_first() =~= contents);
}

} // verus!
