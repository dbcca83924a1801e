//! The bridge's own model of OSC wire values: an argument is an integer, a
//! text, a decimal number, a time tag, or some other kind the bridge never
//! reads (kept so that a score row can render a visible error marker for
//! it). Messages and bundles mirror the wire protocol's shape; the
//! unverified shell converts between these and the raw datagram encoding.
use vstd::prelude::*;

use crate::dec::Dec;
use crate::strutil::str_eq;

verus! {

broadcast use vstd::std_specs::vec::group_vec_axioms, vstd::seq::axiom_seq_index_decreases,
    vstd::seq::axiom_seq_subrange_decreases;

/// One OSC argument, as far as the bridge reads it.
#[derive(Clone, Debug)]
pub enum OscArg {
    Int(i32),
    Str(String),
    Dec(Dec),
    Time(u32, u32),
    Other,
}

/// Ghost image of an argument, with text as a character sequence.
pub enum ArgV {
    Int(int),
    Str(Seq<char>),
    Dec(int),
    Time(int, int),
    Other,
}

impl View for OscArg {
    type V = ArgV;

    open spec fn view(&self) -> ArgV {
        match self {
            OscArg::Int(i) => ArgV::Int(*i as int),
            OscArg::Str(s) => ArgV::Str(s@),
            OscArg::Dec(d) => ArgV::Dec(d@),
            OscArg::Time(s, f) => ArgV::Time(*s as int, *f as int),
            OscArg::Other => ArgV::Other,
        }
    }
}

/// Views of an argument list.
pub open spec fn args_view(s: Seq<OscArg>) -> Seq<ArgV> {
    s.map_values(|a: OscArg| a@)
}

/// One OSC message: an address and its arguments.
#[derive(Clone, Debug)]
pub struct OscMessage {
    pub addr: String,
    pub args: Vec<OscArg>,
}

/// Ghost image of a message.
pub struct MsgV {
    pub addr: Seq<char>,
    pub args: Seq<ArgV>,
}

impl View for OscMessage {
    type V = MsgV;

    open spec fn view(&self) -> MsgV {
        MsgV { addr: self.addr@, args: args_view(self.args@) }
    }
}

/// One OSC packet: a message or a bundle of further packets.
pub enum OscPacket {
    Message(OscMessage),
    Bundle(OscBundle),
}

/// An OSC bundle: an ordered list of packets.
pub struct OscBundle {
    pub content: Vec<OscPacket>,
}

/// Ghost image of a packet: nested bundles flatten into sequences.
pub enum PktV {
    Message(MsgV),
    Bundle(Seq<PktV>),
}

/// Ghost image of one packet.
pub open spec fn pkt_view(p: OscPacket) -> PktV
    decreases p, 1int,
{
    match p {
        OscPacket::Message(m) => PktV::Message(m@),
        OscPacket::Bundle(b) => PktV::Bundle(pkts_view(b.content@)),
    }
}

/// Ghost images of a packet list.
pub open spec fn pkts_view(s: Seq<OscPacket>) -> Seq<PktV>
    decreases s, 0int,
{
    if s.len() == 0 {
        Seq::<PktV>::empty()
    } else {
        seq![pkt_view(s[0])] + pkts_view(s.drop_first())
    }
}

/// The image of a packet list is pointwise.
pub proof fn lemma_pkts_view(s: Seq<OscPacket>)
    ensures
        pkts_view(s).len() == s.len(),
        forall|i: int| 0 <= i < s.len() ==> pkts_view(s)[i] == pkt_view(#[trigger] s[i]),
    decreases s.len(),
{
    if s.len() > 0 {
        lemma_pkts_view(s.drop_first());
        assert(forall|i: int|
            1 <= i < s.len() ==> pkts_view(s)[i] == pkts_view(s.drop_first())[i - 1]);
        assert(forall|i: int| 1 <= i < s.len() ==> s.drop_first()[i - 1] == #[trigger] s[i]);
    }
}

impl View for OscPacket {
    type V = PktV;

    open spec fn view(&self) -> PktV {
        pkt_view(*self)
    }
}

impl View for OscBundle {
    type V = Seq<PktV>;

    open spec fn view(&self) -> Seq<PktV> {
        pkts_view(self.content@)
    }
}

/// A fresh deep copy of an argument.
pub fn clone_arg(a: &OscArg) -> (r: OscArg)
    ensures
        r@ == a@,
{
    match a {
        OscArg::Int(i) => OscArg::Int(*i),
        OscArg::Str(s) => OscArg::Str(s.clone()),
        OscArg::Dec(d) => OscArg::Dec(*d),
        OscArg::Time(s, f) => OscArg::Time(*s, *f),
        OscArg::Other => OscArg::Other,
    }
}

/// A fresh deep copy of an argument list.
pub fn clone_args(v: &Vec<OscArg>) -> (r: Vec<OscArg>)
    ensures
        args_view(r@) == args_view(v@),
{
    let mut out: Vec<OscArg> = Vec::new();
    let mut i: usize = 0;
    while i < v.len()
        invariant
            i <= v@.len(),
            out@.len() == i,
            forall|j: int| 0 <= j < i ==> out@[j]@ == v@[j]@,
        decreases v@.len() - i,
    {
        out.push(clone_arg(&v[i]));
        i = i + 1;
    }
    proof {
        assert(args_view(out@) =~= args_view(v@));
    }
    out
}

/// A fresh deep copy of a message.
pub fn clone_msg(m: &OscMessage) -> (r: OscMessage)
    ensures
        r@ == m@,
{
    OscMessage { addr: m.addr.clone(), args: clone_args(&m.args) }
}

/// A fresh deep copy of a packet.
pub fn clone_packet(p: &OscPacket) -> (r: OscPacket)
    ensures
        r@ == p@,
    decreases *p,
{
    match p {
        OscPacket::Message(m) => OscPacket::Message(clone_msg(m)),
        OscPacket::Bundle(b) => {
            let mut out: Vec<OscPacket> = Vec::new();
            let mut i: usize = 0;
            while i < b.content.len()
                invariant
                    i <= b.content@.len(),
                    out@.len() == i,
                    forall|j: int| 0 <= j < i ==> out@[j]@ == b.content@[j]@,
                    *p == OscPacket::Bundle(*b),
                decreases b.content@.len() - i,
            {
                proof {
                    assert(decreases_to!(*p => (*p)->Bundle_0));
                    assert((*p)->Bundle_0 == *b);
                    assert(decreases_to!(*b => b.content@[i as int]));
                    assert(decreases_to!(*p => b.content@[i as int]));
                }
                let c = clone_packet(&b.content[i]);
                out.push(c);
                i = i + 1;
            }
            proof {
                lemma_pkts_view(out@);
                lemma_pkts_view(b.content@);
                assert forall|j: int| 0 <= j < out@.len() implies pkts_view(out@)[j] == pkts_view(
                    b.content@,
                )[j] by {
                    assert(pkts_view(out@)[j] == pkt_view(out@[j]));
                    assert(pkts_view(b.content@)[j] == pkt_view(b.content@[j]));
                }
                assert(pkts_view(out@) =~= pkts_view(b.content@));
            }
            OscPacket::Bundle(OscBundle { content: out })
        },
    }
}

/// True of a name slot in a free-form argument list.
pub open spec fn arg_is_name(a: ArgV) -> bool {
    a is Str
}

/// True of a value slot: a text or a number.
pub open spec fn arg_is_value(a: ArgV) -> bool {
    a is Str || a is Int || a is Dec
}

/// The free-form argument list must strictly alternate names and values:
/// even length, a text at every even index, a text or number after it.
pub open spec fn valid_varargs(s: Seq<ArgV>) -> bool {
    &&& s.len() % 2 == 0
    &&& forall|k: int|
        0 <= k < s.len() ==> if k % 2 == 0 {
            arg_is_name(#[trigger] s[k])
        } else {
            arg_is_value(s[k])
        }
}

impl OscMessage {
    /// Error unless the message carries the expected address.
    pub fn expect_addr(&self, addr: &str) -> (r: Result<(), String>)
        ensures
            r is Ok <==> self.addr@ == addr@,
    {
        if str_eq(self.addr.as_str(), addr) {
            Ok(())
        } else {
            let mut e = self.addr.clone();
            e.append(" is not the expected message address");
            Err(e)
        }
    }

    /// Error unless at least `n` arguments are present.
    pub fn expect_args(&self, n: usize) -> (r: Result<(), String>)
        ensures
            r is Ok <==> self.args@.len() >= n,
    {
        if self.args.len() >= n {
            Ok(())
        } else {
            Err("too few arguments for message".to_owned())
        }
    }

    /// The text argument at `i`; an error names the field otherwise.
    pub fn get_string_at(&self, i: usize, field: &str) -> (r: Result<String, String>)
        ensures
            r is Ok <==> i < self.args@.len() && self.args@[i as int] is Str,
            r matches Ok(s) ==> self.args@[i as int] matches OscArg::Str(t) && s@ == t@,
    {
        if i >= self.args.len() {
            let mut e = field.to_owned();
            e.append(": missing argument");
            return Err(e);
        }
        match &self.args[i] {
            OscArg::Str(s) => Ok(s.clone()),
            _ => {
                let mut e = field.to_owned();
                e.append(": expected a string argument");
                Err(e)
            },
        }
    }

    /// The integer argument at `i`.
    pub fn get_int_at(&self, i: usize, field: &str) -> (r: Result<i32, String>)
        ensures
            r is Ok <==> i < self.args@.len() && self.args@[i as int] is Int,
            r matches Ok(v) ==> self.args@[i as int] == OscArg::Int(v),
    {
        if i >= self.args.len() {
            let mut e = field.to_owned();
            e.append(": missing argument");
            return Err(e);
        }
        match &self.args[i] {
            OscArg::Int(v) => Ok(*v),
            _ => {
                let mut e = field.to_owned();
                e.append(": expected an integer argument");
                Err(e)
            },
        }
    }

    /// A non-negative integer argument at `i`, widened.
    pub fn get_u64_at(&self, i: usize, field: &str) -> (r: Result<u64, String>)
        ensures
            r is Ok <==> i < self.args@.len() && (self.args@[i as int] matches OscArg::Int(v)
                && v >= 0),
            r matches Ok(v) ==> v <= i32::MAX as u64 && self.args@[i as int] == OscArg::Int(
                v as i32,
            ),
    {
        if i >= self.args.len() {
            let mut e = field.to_owned();
            e.append(": missing argument");
            return Err(e);
        }
        match &self.args[i] {
            OscArg::Int(v) => {
                if *v < 0 {
                    let mut e = field.to_owned();
                    e.append(": expected a non-negative integer");
                    Err(e)
                } else {
                    Ok(*v as u64)
                }
            },
            _ => {
                let mut e = field.to_owned();
                e.append(": expected an integer argument");
                Err(e)
            },
        }
    }

    /// A non-negative time value at `i`: a decimal argument, an integer, or
    /// a text holding a decimal literal.
    pub fn get_dec_at(&self, i: usize, field: &str) -> (r: Result<Dec, String>)
        ensures
            r is Ok <==> i < self.args@.len() && arg_time_value(self.args@[i as int]@) is Some,
            r matches Ok(d) ==> arg_time_value(self.args@[i as int]@) == Some(d@),
    {
        if i >= self.args.len() {
            let mut e = field.to_owned();
            e.append(": missing argument");
            return Err(e);
        }
        match &self.args[i] {
            OscArg::Dec(d) => {
                if d.units < 0 {
                    let mut e = field.to_owned();
                    e.append(": expected a non-negative time value");
                    Err(e)
                } else {
                    Ok(*d)
                }
            },
            OscArg::Int(v) => {
                if *v < 0 {
                    let mut e = field.to_owned();
                    e.append(": expected a non-negative time value");
                    Err(e)
                } else {
                    Ok(Dec::from_int(*v))
                }
            },
            OscArg::Str(s) => match Dec::from_decimal_str(s.as_str()) {
                Ok(d) => Ok(d),
                Err(_) => {
                    let mut e = field.to_owned();
                    e.append(": malformed decimal literal");
                    Err(e)
                },
            },
            _ => {
                let mut e = field.to_owned();
                e.append(": expected a time value");
                Err(e)
            },
        }
    }

    /// The trailing free-form arguments from `from` on, after the
    /// alternation check.
    pub fn get_varargs(&self, from: usize) -> (r: Result<Vec<OscArg>, String>)
        ensures
            r is Ok <==> from <= self.args@.len() && valid_varargs(
                args_view(self.args@.subrange(from as int, self.args@.len() as int)),
            ),
            r matches Ok(v) ==> args_view(v@) == args_view(
                self.args@.subrange(from as int, self.args@.len() as int),
            ),
    {
        if from > self.args.len() {
            return Err("too few arguments for message".to_owned());
        }
        let mut out: Vec<OscArg> = Vec::new();
        let mut i: usize = from;
        while i < self.args.len()
            invariant
                from <= i <= self.args@.len(),
                out@.len() == i - from,
                forall|j: int| 0 <= j < i - from ==> out@[j]@ == self.args@[from + j]@,
                forall|k: int|
                    from <= k < i ==> if (k - from) % 2 == 0 {
                        arg_is_name((#[trigger] self.args@[k])@)
                    } else {
                        arg_is_value(self.args@[k]@)
                    },
            decreases self.args@.len() - i,
        {
            let a = &self.args[i];
            let name_slot = (i - from) % 2 == 0;
            let ok = if name_slot {
                match a {
                    OscArg::Str(_) => true,
                    _ => false,
                }
            } else {
                match a {
                    OscArg::Str(_) => true,
                    OscArg::Int(_) => true,
                    OscArg::Dec(_) => true,
                    _ => false,
                }
            };
            if !ok {
                proof {
                    let sub = args_view(self.args@.subrange(from as int, self.args@.len() as int));
                    assert(sub[i - from] == self.args@[i as int]@);
                }
                return Err("arguments do not alternate name and value".to_owned());
            }
            out.push(clone_arg(a));
            i = i + 1;
        }
        if (self.args.len() - from) % 2 != 0 {
            proof {
                let sub = args_view(self.args@.subrange(from as int, self.args@.len() as int));
                assert(sub.len() % 2 != 0);
            }
            return Err("arguments do not alternate name and value".to_owned());
        }
        proof {
            let sub = args_view(self.args@.subrange(from as int, self.args@.len() as int));
            assert forall|k: int| 0 <= k < sub.len() implies (if k % 2 == 0 {
                arg_is_name(#[trigger] sub[k])
            } else {
                arg_is_value(sub[k])
            }) by {
                assert(sub[k] == self.args@[from + k]@);
                assert((from + k - from) % 2 == k % 2);
            }
            assert(valid_varargs(sub));
            assert(args_view(out@) =~= sub);
        }
        Ok(out)
    }
}

/// A time value an argument denotes is never negative.
pub proof fn lemma_arg_time_nonneg(a: ArgV)
    ensures
        arg_time_value(a) matches Some(t) ==> t >= 0,
{
    match a {
        ArgV::Str(s) => {
            if crate::dec::valid_dec_literal(s) {
                crate::dec::lemma_dec_value_nonneg(s);
            }
        },
        _ => {},
    }
}

/// The non-negative time denoted by an argument, if it denotes one: a
/// non-negative decimal, a non-negative integer scaled up, or a text that
/// parses as a decimal literal.
pub open spec fn arg_time_value(a: ArgV) -> Option<int> {
    match a {
        ArgV::Dec(d) => if d >= 0 {
            Some(d)
        } else {
            None
        },
        ArgV::Int(v) => if v >= 0 {
            Some(v * 100_000)
        } else {
            None
        },
        ArgV::Str(s) => if crate::dec::valid_dec_literal(s) {
            Some(crate::dec::spec_dec_value(s))
        } else {
            None
        },
        _ => None,
    }
}

} // verus!
