//! The offline-render timeline compiler. A batch of time-tagged commands
//! replays through a registry of its own and a running beat clock: each
//! command translates at the current clock value, then the clock advances
//! by the command's declared spacing. The full result is sorted by time —
//! commands at equal times keep their batch order — and serialized into
//! score rows.
use vstd::prelude::*;

use crate::dec::{Dec, sat64, spec_dec_str};
use crate::envelope::{TimedOSCPacket, TimedV, clone_timed};
use crate::internal_osc_conversion::{ScMsgV, spec_create_msgs, spec_modify_msgs,
    spec_note_on_timed_msgs, spec_resolve, resolve_msg};
use crate::node_lookup::{EntryV, NodeIDRegistry, fill_name, remove_name, spec_assign,
    spec_assign_ok, spec_search};
use crate::osc::{ArgV, PktV, pkt_view};
use crate::osc_model::{NRTRecordMessage, timeds_view};
use crate::sampling::{SamplePackDict, SampleV};
use crate::strutil::{spec_i64_str, spec_join, i64_to_string, push_char, join_rows, views_of};

verus! {

/// One converter step: the wire messages one batch element produces at the
/// current clock, with the registry and counter it leaves. An element that
/// resolves to nothing, or whose voice name is already taken, produces no
/// messages and changes nothing.
pub open spec fn spec_step(
    reg: Seq<EntryV>,
    curr: int,
    beat: int,
    d: Seq<(Seq<char>, Seq<SampleV>)>,
    p: PktV,
) -> (Seq<TimedV>, Seq<EntryV>, int) {
    match spec_resolve(p, d) {
        None => (Seq::<TimedV>::empty(), reg, curr),
        Some(cmd) => match cmd {
            ScMsgV::NoteOnTimed(m) => {
                if spec_assign_ok(reg, curr, m.external_id) {
                    (
                        spec_note_on_timed_msgs(m, curr + 1, beat),
                        spec_assign(reg, curr, m.external_id),
                        curr + 1,
                    )
                } else {
                    (Seq::<TimedV>::empty(), reg, curr)
                }
            },
            ScMsgV::NoteOn(m) => {
                if spec_assign_ok(reg, curr, m.external_id) {
                    (
                        spec_create_msgs(m.synth_name, curr + 1, m.args, beat),
                        spec_assign(reg, curr, m.external_id),
                        curr + 1,
                    )
                } else {
                    (Seq::<TimedV>::empty(), reg, curr)
                }
            },
            ScMsgV::NoteModify(m) => (
                spec_modify_msgs(spec_search(reg, m.external_id_regex), m.args, beat),
                reg,
                curr,
            ),
            ScMsgV::PlaySample(m) => {
                if spec_assign_ok(reg, curr, m.external_id) {
                    (
                        spec_create_msgs("sampler"@, curr + 1, m.args, beat),
                        spec_assign(reg, curr, m.external_id),
                        curr + 1,
                    )
                } else {
                    (Seq::<TimedV>::empty(), reg, curr)
                }
            },
        },
    }
}

/// The whole batch replayed: each element translates at the current clock,
/// then the clock advances by the element's own time increment.
pub open spec fn spec_replay(
    reg: Seq<EntryV>,
    curr: int,
    beat: int,
    d: Seq<(Seq<char>, Seq<SampleV>)>,
    msgs: Seq<TimedV>,
) -> Seq<TimedV>
    decreases msgs.len(),
{
    if msgs.len() == 0 {
        Seq::<TimedV>::empty()
    } else {
        let step = spec_step(reg, curr, beat, d, msgs[0].packet);
        step.0 + spec_replay(step.1, step.2, sat64(beat + msgs[0].time), d, msgs.drop_first())
    }
}

/// A row list sorted by time, each entry inserted after every entry at or
/// below its time: a stable sort.
pub open spec fn spec_insert_timed(x: TimedV, s: Seq<TimedV>) -> Seq<TimedV>
    decreases s.len(),
{
    if s.len() == 0 {
        seq![x]
    } else if s[0].time <= x.time {
        seq![s[0]] + spec_insert_timed(x, s.drop_first())
    } else {
        seq![x] + s
    }
}

/// The batch result in time order.
pub open spec fn spec_sort_timed(s: Seq<TimedV>) -> Seq<TimedV>
    decreases s.len(),
{
    if s.len() == 0 {
        Seq::<TimedV>::empty()
    } else {
        spec_insert_timed(s.last(), spec_sort_timed(s.drop_last()))
    }
}

/// The insertion point splits the row list.
proof fn lemma_insert_timed_split(x: TimedV, s: Seq<TimedV>, p: int)
    requires
        0 <= p <= s.len(),
        forall|j: int| 0 <= j < p ==> (#[trigger] s[j]).time <= x.time,
        p < s.len() ==> !(s[p].time <= x.time),
    ensures
        spec_insert_timed(x, s) == s.subrange(0, p) + seq![x] + s.subrange(p, s.len() as int),
    decreases s.len(),
{
    if s.len() == 0 {
        assert(spec_insert_timed(x, s) =~= s.subrange(0, 0) + seq![x] + s.subrange(0, 0));
    } else if p == 0 {
        assert(spec_insert_timed(x, s) =~= s.subrange(0, 0) + seq![x] + s.subrange(
            0,
            s.len() as int,
        ));
    } else {
        let t = s.drop_first();
        assert forall|j: int| 0 <= j < p - 1 implies (#[trigger] t[j]).time <= x.time by {
            assert(t[j] == s[j + 1]);
        }
        assert(p - 1 < t.len() ==> t[p - 1] == s[p]);
        lemma_insert_timed_split(x, t, p - 1);
        assert(spec_insert_timed(x, s) =~= s.subrange(0, p) + seq![x] + s.subrange(
            p,
            s.len() as int,
        ));
    }
}

/// Timed rows sorted ascending by time; rows at equal times keep their
/// order, so simultaneous batch events stay in batch order.
pub fn sort_timed(v: Vec<TimedOSCPacket>) -> (r: Vec<TimedOSCPacket>)
    ensures
        timeds_view(r@) == spec_sort_timed(timeds_view(v@)),
{
    let mut out: Vec<TimedOSCPacket> = Vec::new();
    let mut i: usize = 0;
    proof {
        assert(timeds_view(v@.subrange(0, 0)) =~= Seq::<TimedV>::empty());
        assert(timeds_view(out@) =~= spec_sort_timed(timeds_view(v@.subrange(0, 0))));
    }
    while i < v.len()
        invariant
            i <= v@.len(),
            timeds_view(out@) == spec_sort_timed(timeds_view(v@.subrange(0, i as int))),
        decreases v@.len() - i,
    {
        let x = clone_timed(&v[i]);
        let ghost xv = v@[i as int]@;
        let mut p: usize = 0;
        while p < out.len() && out[p].time.le(x.time)
            invariant
                p <= out@.len(),
                x@ == xv,
                i < v@.len(),
                xv == v@[i as int]@,
                timeds_view(out@) == spec_sort_timed(timeds_view(v@.subrange(0, i as int))),
                forall|j: int| 0 <= j < p ==> (#[trigger] out@[j])@.time <= xv.time,
            decreases out@.len() - p,
        {
            p = p + 1;
        }
        let ghost prior = timeds_view(out@);
        out.insert(p, x);
        proof {
            assert forall|j: int| 0 <= j < p implies (#[trigger] prior[j]).time <= xv.time by {
                assert(prior[j] == out@[j]@);
            }
            lemma_insert_timed_split(xv, prior, p as int);
            assert(timeds_view(out@) =~= prior.subrange(0, p as int) + seq![xv] + prior.subrange(
                p as int,
                prior.len() as int,
            ));
            let pre = timeds_view(v@.subrange(0, i as int));
            let ext = timeds_view(v@.subrange(0, i + 1));
            assert(ext.drop_last() =~= pre);
            assert(ext.last() == xv);
            assert(timeds_view(out@) =~= spec_sort_timed(ext));
        }
        i = i + 1;
    }
    proof {
        assert(v@.subrange(0, v@.len() as int) =~= v@);
    }
    out
}

/// A sorted row list is nondecreasing in time.
pub proof fn lemma_sorted_timed(s: Seq<TimedV>)
    ensures
        spec_sort_timed(s).len() == s.len(),
        forall|i: int, j: int|
            0 <= i < j < s.len() ==> (#[trigger] spec_sort_timed(s)[i]).time <= (
            #[trigger] spec_sort_timed(s)[j]).time,
    decreases s.len(),
{
    if s.len() > 0 {
        lemma_sorted_timed(s.drop_last());
        lemma_insert_timed_sorted(s.last(), spec_sort_timed(s.drop_last()));
    }
}

/// Inserting into a sorted row list keeps it sorted.
proof fn lemma_insert_timed_sorted(x: TimedV, s: Seq<TimedV>)
    requires
        forall|i: int, j: int|
            0 <= i < j < s.len() ==> (#[trigger] s[i]).time <= (#[trigger] s[j]).time,
    ensures
        spec_insert_timed(x, s).len() == s.len() + 1,
        forall|i: int, j: int|
            0 <= i < j < s.len() + 1 ==> (#[trigger] spec_insert_timed(x, s)[i]).time <= (
            #[trigger] spec_insert_timed(x, s)[j]).time,
    decreases s.len(),
{
    if s.len() > 0 && s[0].time <= x.time {
        let t = s.drop_first();
        assert forall|i: int, j: int|
            0 <= i < j < t.len() implies (#[trigger] t[i]).time <= (#[trigger] t[j]).time by {
            assert(t[i] == s[i + 1]);
            assert(t[j] == s[j + 1]);
        }
        lemma_insert_timed_sorted(x, t);
        let r = spec_insert_timed(x, s);
        assert forall|i: int, j: int|
            0 <= i < j < s.len() + 1 implies (#[trigger] r[i]).time <= (#[trigger] r[j]).time by {
            if i > 0 {
                assert(r[i] == spec_insert_timed(x, t)[i - 1]);
                assert(r[j] == spec_insert_timed(x, t)[j - 1]);
            } else {
                assert(r[0] == s[0]);
                assert(r[j] == spec_insert_timed(x, t)[j - 1]);
                if j - 1 < spec_insert_timed(x, t).len() {
                    lemma_insert_head_bound(x, t, s[0].time, j - 1);
                }
            }
        }
    }
}

/// Every row of an insertion into a list bounded below stays bounded.
proof fn lemma_insert_head_bound(x: TimedV, s: Seq<TimedV>, lo: int, k: int)
    requires
        lo <= x.time,
        forall|i: int| 0 <= i < s.len() ==> lo <= (#[trigger] s[i]).time,
        0 <= k < spec_insert_timed(x, s).len(),
    ensures
        lo <= spec_insert_timed(x, s)[k].time,
    decreases s.len(),
{
    if s.len() > 0 && s[0].time <= x.time {
        if k > 0 {
            let t = s.drop_first();
            assert forall|i: int| 0 <= i < t.len() implies lo <= (#[trigger] t[i]).time by {
                assert(t[i] == s[i + 1]);
            }
            lemma_insert_head_bound(x, t, lo, k - 1);
        }
    }
}

/// The batch converter: a registry of its own and the running beat clock.
pub struct NRTPacketConverter {
    pub reg: NodeIDRegistry,
    pub current_beat: Dec,
}

impl NRTPacketConverter {
    /// A fresh converter: empty registry, clock at zero.
    pub fn new() -> (r: NRTPacketConverter)
        ensures
            r.reg.wf(),
            r.reg@.len() == 0,
            r.reg.curr_spec() == 100,
            r.current_beat@ == 0,
    {
        NRTPacketConverter { reg: NodeIDRegistry::new(), current_beat: Dec::zero() }
    }

    /// Translate one batch element at the current clock. The clock does not
    /// move here: only the batch's own time increments move it.
    pub fn process_packet(&mut self, dict: &SamplePackDict, timed_packet: &TimedOSCPacket) -> (r:
        Vec<TimedOSCPacket>)
        requires
            old(self).reg.wf(),
        ensures
            final(self).reg.wf(),
            final(self).current_beat == old(self).current_beat,
            (timeds_view(r@), final(self).reg@, final(self).reg.curr_spec()) == spec_step(
                old(self).reg@,
                old(self).reg.curr_spec(),
                old(self).current_beat@,
                dict@,
                pkt_view(timed_packet.packet),
            ),
    {
        match resolve_msg(&timed_packet.packet, dict) {
            None => {
                let v: Vec<TimedOSCPacket> = Vec::new();
                proof {
                    assert(timeds_view(v@) =~= Seq::<TimedV>::empty());
                }
                v
            },
            Some(cmd) => match cmd.as_nrt_osc(&mut self.reg, self.current_beat) {
                Ok(v) => v,
                Err(_) => {
                    let v: Vec<TimedOSCPacket> = Vec::new();
                    proof {
                        assert(timeds_view(v@) =~= Seq::<TimedV>::empty());
                    }
                    v
                },
            },
        }
    }

    /// Replay the whole batch: translate each element at the current clock,
    /// advance the clock by the element's increment, and hand the full
    /// result back sorted by time, batch order kept among equals.
    pub fn process_packets(&mut self, dict: &SamplePackDict, packets: &Vec<TimedOSCPacket>) -> (r:
        Vec<TimedOSCPacket>)
        requires
            old(self).reg.wf(),
        ensures
            final(self).reg.wf(),
            timeds_view(r@) == spec_sort_timed(
                spec_replay(
                    old(self).reg@,
                    old(self).reg.curr_spec(),
                    old(self).current_beat@,
                    dict@,
                    timeds_view(packets@),
                ),
            ),
    {
        let mut result_vector: Vec<TimedOSCPacket> = Vec::new();
        let mut i: usize = 0;
        let ghost whole = timeds_view(packets@);
        proof {
            assert(whole.skip(0) =~= whole);
            assert(timeds_view(result_vector@) =~= Seq::<TimedV>::empty());
        }
        while i < packets.len()
            invariant
                i <= packets@.len(),
                whole == timeds_view(packets@),
                self.reg.wf(),
                spec_replay(
                    old(self).reg@,
                    old(self).reg.curr_spec(),
                    old(self).current_beat@,
                    dict@,
                    whole,
                ) == timeds_view(result_vector@) + spec_replay(
                    self.reg@,
                    self.reg.curr_spec(),
                    self.current_beat@,
                    dict@,
                    whole.skip(i as int),
                ),
            decreases packets@.len() - i,
        {
            proof {
                assert(whole[i as int] == packets@[i as int]@);
                assert(whole.skip(i as int)[0] == whole[i as int]);
                assert(whole.skip(i as int).drop_first() =~= whole.skip(i + 1));
            }
            let ghost rows_before = timeds_view(result_vector@);
            let mut rows = self.process_packet(dict, &packets[i]);
            let ghost rowsv = timeds_view(rows@);
            self.current_beat = self.current_beat.plus(packets[i].time);
            result_vector.append(&mut rows);
            proof {
                assert(timeds_view(result_vector@) =~= rows_before + rowsv);
            }
            i = i + 1;
        }
        proof {
            assert(whole.skip(packets@.len() as int) =~= Seq::<TimedV>::empty());
            assert(spec_replay(
                self.reg@,
                self.reg.curr_spec(),
                self.current_beat@,
                dict@,
                whole.skip(packets@.len() as int),
            ) =~= Seq::<TimedV>::empty());
            assert(timeds_view(result_vector@) + Seq::<TimedV>::empty() =~= timeds_view(
                result_vector@,
            ));
        }
        sort_timed(result_vector)
    }
}

impl NRTRecordMessage {
    /// The render request's batch replayed against a fresh registry and a
    /// clock starting at zero, sorted by time.
    pub fn get_processed_messages(&self, dict: &SamplePackDict) -> (r: Vec<TimedOSCPacket>)
        ensures
            timeds_view(r@) == spec_sort_timed(
                spec_replay(
                    Seq::<EntryV>::empty(),
                    100,
                    0,
                    dict@,
                    timeds_view(self.messages@),
                ),
            ),
    {
        let mut processor = NRTPacketConverter::new();
        proof {
            assert(processor.reg@ =~= Seq::<EntryV>::empty());
        }
        processor.process_packets(dict, &self.messages)
    }
}

/// The literal form of one score-row argument: integers plain, decimals
/// with five digits, texts quoted, anything else a visible error marker.
pub open spec fn spec_arg_lit(a: ArgV) -> Seq<char> {
    match a {
        ArgV::Int(v) => spec_i64_str(v),
        ArgV::Dec(u) => spec_dec_str(u),
        ArgV::Str(s) => "\""@ + s + "\""@,
        _ => "err"@,
    }
}

/// The literal forms of an argument list.
pub open spec fn spec_arg_lits(args: Seq<ArgV>) -> Seq<Seq<char>>
    decreases args.len(),
{
    if args.len() == 0 {
        Seq::<Seq<char>>::empty()
    } else {
        spec_arg_lits(args.drop_last()) + seq![spec_arg_lit(args.last())]
    }
}

/// One score row: the time, then the address and arguments as literals. A
/// wire message that is itself a bundle renders as an error marker rather
/// than dropping data silently.
pub open spec fn spec_nrt_row(t: TimedV) -> Seq<char> {
    match t.packet {
        PktV::Message(m) => "[ "@ + spec_dec_str(t.time) + ", [\""@ + m.addr + "\","@ + spec_join(
            spec_arg_lits(m.args),
            ","@,
        ) + "] ]"@,
        PktV::Bundle(_) => "[ "@ + spec_dec_str(t.time) + ", [\"err\"] ]"@,
    }
}

/// The wrapped receive-definition rows of a definition list.
pub open spec fn spec_wrap_rows(defs: Seq<Seq<char>>) -> Seq<Seq<char>> {
    Seq::new(defs.len(), |k: int| crate::scd_templating::spec_nrt_wrap(defs[k]))
}

/// The definitions a score receives: the session snippets as bytes, then
/// the definitions already read complete from disk.
pub open spec fn spec_def_sources(defs: Seq<Seq<char>>, filedefs: Seq<Seq<char>>) -> Seq<
    Seq<char>,
> {
    Seq::new(defs.len(), |k: int| defs[k] + ".asBytes"@) + filedefs
}

/// The whole score for one render request, over the discovered packs: the
/// packs' buffer rows, every definition wrapped as a receive row, then the
/// request's batch replayed and sorted, all filled into the template.
pub open spec fn spec_nrt_record_scd(
    rec: crate::osc_model::NRTRecordV,
    d: Seq<(Seq<char>, Seq<SampleV>)>,
    buffers: Seq<(Seq<char>, crate::samples::PackV)>,
    defs: Seq<Seq<char>>,
    filedefs: Seq<Seq<char>>,
    template: Seq<char>,
) -> Seq<char> {
    let timeline = spec_sort_timed(
        spec_replay(Seq::<EntryV>::empty(), 100, 0, d, rec.messages),
    );
    let rows = crate::samples::spec_all_nrt_rows(buffers) + spec_wrap_rows(
        spec_def_sources(defs, filedefs),
    ) + Seq::new(timeline.len(), |k: int| spec_nrt_row(timeline[k]));
    crate::scd_templating::spec_nrt_script(template, rec.bpm, rec.file_name, rec.end_beat, rows)
}

/// The score text for one render request against the discovered packs: the
/// batch replays through a fresh registry, and the buffer, definition and
/// timeline rows fill the template.
pub fn get_nrt_record_scd(
    msg: &NRTRecordMessage,
    dict: &SamplePackDict,
    buffer_handle: &crate::samples::SamplePackCollection,
    synthdef_scds: &Vec<String>,
    filedefs: &Vec<String>,
    template: &str,
) -> (r: Result<String, String>)
    ensures
        r matches Ok(s) && s@ == spec_nrt_record_scd(
            msg@,
            dict@,
            crate::samples::packs_view(buffer_handle.sample_packs@),
            views_of(synthdef_scds@),
            views_of(filedefs@),
            template@,
        ),
{
    let ghost defsv = views_of(synthdef_scds@);
    let ghost filedefsv = views_of(filedefs@);
    let rows = msg.get_processed_messages(dict);
    let ghost timelinev = timeds_view(rows@);
    let mut all_nrt_rows: Vec<String> = buffer_handle.as_nrt_buffer_load_rows();
    let ghost buffer_rows = views_of(all_nrt_rows@);
    // the session snippets as bytes, then the on-disk definitions
    let mut sources: Vec<String> = Vec::new();
    let mut i: usize = 0;
    proof {
        assert(views_of(sources@) =~= spec_def_sources(defsv, filedefsv).subrange(0, 0));
    }
    while i < synthdef_scds.len()
        invariant
            i <= synthdef_scds@.len(),
            defsv == views_of(synthdef_scds@),
            views_of(sources@) == spec_def_sources(defsv, filedefsv).subrange(0, i as int),
        decreases synthdef_scds@.len() - i,
    {
        let mut def = synthdef_scds[i].clone();
        def.append(".asBytes");
        let ghost prior = views_of(sources@);
        sources.push(def);
        proof {
            assert(views_of(sources@) =~= prior.push(defsv[i as int] + ".asBytes"@));
            assert(spec_def_sources(defsv, filedefsv).subrange(0, i + 1) =~= spec_def_sources(
                defsv,
                filedefsv,
            ).subrange(0, i as int).push(defsv[i as int] + ".asBytes"@));
        }
        i = i + 1;
    }
    let mut f: usize = 0;
    while f < filedefs.len()
        invariant
            f <= filedefs@.len(),
            defsv == views_of(synthdef_scds@),
            filedefsv == views_of(filedefs@),
            views_of(sources@) == spec_def_sources(defsv, filedefsv).subrange(
                0,
                defsv.len() + f,
            ),
        decreases filedefs@.len() - f,
    {
        let ghost prior = views_of(sources@);
        sources.push(filedefs[f].clone());
        proof {
            assert(views_of(sources@) =~= prior.push(filedefsv[f as int]));
            assert(spec_def_sources(defsv, filedefsv).subrange(0, defsv.len() + f + 1)
                =~= spec_def_sources(defsv, filedefsv).subrange(0, defsv.len() + f).push(
                filedefsv[f as int],
            ));
        }
        f = f + 1;
    }
    proof {
        assert(spec_def_sources(defsv, filedefsv).subrange(
            0,
            spec_def_sources(defsv, filedefsv).len() as int,
        ) =~= spec_def_sources(defsv, filedefsv));
    }
    // wrap each definition as a receive row
    let mut w: usize = 0;
    proof {
        assert(views_of(all_nrt_rows@) =~= buffer_rows + spec_wrap_rows(
            spec_def_sources(defsv, filedefsv),
        ).subrange(0, 0));
    }
    while w < sources.len()
        invariant
            w <= sources@.len(),
            views_of(sources@) == spec_def_sources(defsv, filedefsv),
            views_of(all_nrt_rows@) == buffer_rows + spec_wrap_rows(
                spec_def_sources(defsv, filedefsv),
            ).subrange(0, w as int),
        decreases sources@.len() - w,
    {
        let row = crate::scd_templating::nrt_wrap_synthdef(sources[w].as_str());
        let ghost prior = views_of(all_nrt_rows@);
        all_nrt_rows.push(row);
        proof {
            let wrapped = spec_wrap_rows(spec_def_sources(defsv, filedefsv));
            assert(views_of(all_nrt_rows@) =~= prior.push(wrapped[w as int]));
            assert(wrapped.subrange(0, w + 1) =~= wrapped.subrange(0, w as int).push(
                wrapped[w as int],
            ));
            assert(views_of(all_nrt_rows@) =~= buffer_rows + wrapped.subrange(0, w + 1));
        }
        w = w + 1;
    }
    proof {
        let wrapped = spec_wrap_rows(spec_def_sources(defsv, filedefsv));
        assert(wrapped.subrange(0, wrapped.len() as int) =~= wrapped);
    }
    // the replayed batch, row by row
    let mut t: usize = 0;
    proof {
        assert(views_of(all_nrt_rows@) + Seq::new(
            0,
            |k: int| spec_nrt_row(timelinev[k]),
        ) =~= views_of(all_nrt_rows@));
    }
    let ghost fixed_rows = views_of(all_nrt_rows@);
    while t < rows.len()
        invariant
            t <= rows@.len(),
            timelinev == timeds_view(rows@),
            views_of(all_nrt_rows@) == fixed_rows + Seq::new(
                t as nat,
                |k: int| spec_nrt_row(timelinev[k]),
            ),
        decreases rows@.len() - t,
    {
        let row = render_nrt_row(&rows[t]);
        let ghost prior = views_of(all_nrt_rows@);
        all_nrt_rows.push(row);
        proof {
            assert(timelinev[t as int] == rows@[t as int]@);
            assert(views_of(all_nrt_rows@) =~= prior.push(spec_nrt_row(timelinev[t as int])));
            assert(views_of(all_nrt_rows@) =~= fixed_rows + Seq::new(
                (t + 1) as nat,
                |k: int| spec_nrt_row(timelinev[k]),
            ));
        }
        t = t + 1;
    }
    let script = crate::scd_templating::create_nrt_script(
        template,
        msg.bpm,
        msg.file_name.as_str(),
        msg.end_beat,
        &all_nrt_rows,
    );
    proof {
        assert(Seq::new(timelinev.len(), |k: int| spec_nrt_row(timelinev[k])) =~= Seq::new(
            rows@.len(),
            |k: int| spec_nrt_row(timelinev[k]),
        ));
    }
    Ok(script)
}

/// Anything the score serializes row by row.
pub trait NRTConvert {
    /// What this value's score row reads.
    spec fn nrt_row_spec(&self) -> Seq<char>;

    /// The score row for this value.
    fn as_nrt_row(&self) -> (r: String)
        ensures
            r@ == self.nrt_row_spec(),
    ;
}

impl NRTConvert for TimedOSCPacket {
    open spec fn nrt_row_spec(&self) -> Seq<char> {
        spec_nrt_row(self@)
    }

    fn as_nrt_row(&self) -> (r: String) {
        render_nrt_row(self)
    }
}

/// The score row for one timed wire message.
pub fn render_nrt_row(t: &TimedOSCPacket) -> (r: String)
    ensures
        r@ == spec_nrt_row(t@),
{
    let time_s = t.time.to_string5();
    match &t.packet {
        crate::osc::OscPacket::Message(m) => {
            let mut lits: Vec<String> = Vec::new();
            let mut i: usize = 0;
            proof {
                assert(crate::osc::args_view(m.args@).subrange(0, 0) =~= Seq::<ArgV>::empty());
                assert(views_of(lits@) =~= spec_arg_lits(crate::osc::args_view(m.args@).subrange(
                    0,
                    0,
                )));
            }
            while i < m.args.len()
                invariant
                    i <= m.args@.len(),
                    views_of(lits@) == spec_arg_lits(crate::osc::args_view(m.args@).subrange(
                        0,
                        i as int,
                    )),
                decreases m.args@.len() - i,
            {
                let lit: String = match &m.args[i] {
                    crate::osc::OscArg::Int(v) => i64_to_string(*v as i64),
                    crate::osc::OscArg::Dec(d) => d.to_string5(),
                    crate::osc::OscArg::Str(s) => {
                        let mut q = String::new();
                        push_char(&mut q, '"');
                        q.append(s.as_str());
                        push_char(&mut q, '"');
                        proof {
                            reveal_strlit("\"");
                            assert("\""@ =~= seq!['"']);
                            assert(q@ =~= "\""@ + s@ + "\""@);
                        }
                        q
                    },
                    _ => "err".to_owned(),
                };
                let ghost priorl = views_of(lits@);
                lits.push(lit);
                proof {
                    let av = crate::osc::args_view(m.args@);
                    assert(av[i as int] == m.args@[i as int]@);
                    assert(views_of(lits@) =~= priorl.push(spec_arg_lit(av[i as int])));
                    let pre = av.subrange(0, i as int);
                    let ext = av.subrange(0, i + 1);
                    assert(ext.drop_last() =~= pre);
                    assert(ext.last() == av[i as int]);
                    assert(views_of(lits@) =~= spec_arg_lits(ext));
                }
                i = i + 1;
            }
            proof {
                let av = crate::osc::args_view(m.args@);
                assert(av.subrange(0, av.len() as int) =~= av);
            }
            let arg_string = join_rows(&lits, ",");
            let mut out = "[ ".to_owned();
            out.append(time_s.as_str());
            out.append(", [\"");
            out.append(m.addr.as_str());
            out.append("\",");
            out.append(arg_string.as_str());
            out.append("] ]");
            out
        },
        crate::osc::OscPacket::Bundle(_) => {
            let mut out = "[ ".to_owned();
            out.append(time_s.as_str());
            out.append(", [\"err\"] ]");
            out
        },
    }
}

} // verus!
