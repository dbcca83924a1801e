//! Plain data carried over the auxiliary message channel, and the framed
//! text decoder for it. A framed message reads
//! `TYPE::TIMESTAMP::JSON-BODY`; the parts around the separators come back
//! as plain fields, whatever the body holds.
use vstd::prelude::*;

use crate::strutil::{find_sub, first_occ, lemma_first_occ, is_sub_at};

verus! {

/// A voice known to be running, as reported over the auxiliary channel.
#[derive(Clone, Debug)]
pub struct RunningNote {
    pub synth: String,
    pub external_id: String,
    pub tone: i32,
}

/// A batch of already-serialized messages to relay in order.
#[derive(Clone, Debug)]
pub struct JdwSequencerBatchMsg {
    pub json: Vec<String>,
}

/// Anything the auxiliary channel can carry: the implementor frames itself
/// as one outgoing text.
pub trait ZeroMQSendable {
    /// The framed text to put on the wire.
    fn export(&self) -> String;
}

/// One framed message off the auxiliary channel.
#[derive(Clone, Debug)]
pub struct ZMQMsg {
    pub msg_type: String,
    pub timestamp: String,
    pub json_contents: String,
}

/// The text before the first separator; the whole text without one.
pub open spec fn spec_msg_type(s: Seq<char>) -> Seq<char> {
    match first_occ(s, "::"@) {
        Some(i) => s.subrange(0, i),
        None => s,
    }
}

/// The text between the first and second separators; empty without a
/// first one, the rest without a second.
pub open spec fn spec_timestamp(s: Seq<char>) -> Seq<char> {
    match first_occ(s, "::"@) {
        Some(i) => {
            let rest = s.subrange(i + 2, s.len() as int);
            match first_occ(rest, "::"@) {
                Some(j) => rest.subrange(0, j),
                None => rest,
            }
        },
        None => Seq::<char>::empty(),
    }
}

/// The body: the text after the first occurrence of the full
/// `TYPE::TIMESTAMP::` handle, cut at a repeated handle; empty when the
/// handle never occurs.
pub open spec fn spec_json_contents(s: Seq<char>) -> Seq<char> {
    let handle = spec_msg_type(s) + "::"@ + spec_timestamp(s) + "::"@;
    match first_occ(s, handle) {
        Some(i) => {
            let rest = s.subrange(i + handle.len(), s.len() as int);
            match first_occ(rest, handle) {
                Some(j) => rest.subrange(0, j),
                None => rest,
            }
        },
        None => Seq::<char>::empty(),
    }
}

/// Decode one framed text into its message parts.
pub fn into_message(raw_str: &str) -> (r: ZMQMsg)
    ensures
        r.msg_type@ == spec_msg_type(raw_str@),
        r.timestamp@ == spec_timestamp(raw_str@),
        r.json_contents@ == spec_json_contents(raw_str@),
{
    proof {
        reveal_strlit("::");
        assert("::"@.len() == 2);
    }
    let len = raw_str.unicode_len();
    let (msg_type, msg_timestamp): (String, String) = match find_sub(raw_str, "::") {
        Some(i) => {
            proof {
                lemma_first_occ(raw_str@, "::"@);
                assert(is_sub_at(raw_str@, "::"@, i as int));
            }
            let ty = raw_str.substring_char(0, i).to_owned();
            let rest = raw_str.substring_char(i + 2, len);
            let ts: String = match find_sub(rest, "::") {
                Some(j) => {
                    proof {
                        lemma_first_occ(rest@, "::"@);
                        assert(is_sub_at(rest@, "::"@, j as int));
                    }
                    rest.substring_char(0, j).to_owned()
                },
                None => rest.to_owned(),
            };
            (ty, ts)
        },
        None => (raw_str.to_owned(), String::new()),
    };
    let mut handle = msg_type.clone();
    handle.append("::");
    handle.append(msg_timestamp.as_str());
    handle.append("::");
    proof {
        assert(handle@.len() >= 2);
    }
    let json_msg: String = match find_sub(raw_str, handle.as_str()) {
        Some(i) => {
            proof {
                lemma_first_occ(raw_str@, handle@);
                assert(is_sub_at(raw_str@, handle@, i as int));
            }
            let hlen = handle.as_str().unicode_len();
            let rest = raw_str.substring_char(i + hlen, len);
            match find_sub(rest, handle.as_str()) {
                Some(j) => {
                    proof {
                        lemma_first_occ(rest@, handle@);
                        assert(is_sub_at(rest@, handle@, j as int));
                    }
                    rest.substring_char(0, j).to_owned()
                },
                None => rest.to_owned(),
            }
        },
        None => String::new(),
    };
    ZMQMsg { msg_type, timestamp: msg_timestamp, json_contents: json_msg }
}

} // verus!
