//! Registered sample metadata, keyed by sample pack. Samples arrive one by
//! one as registration commands; a pack keeps at most one sample per tone
//! index, and a re-registration of a known file hands the known sample
//! back.
use vstd::prelude::*;

use crate::config::{SERVER_NAME, spec_server_name};
use crate::osc_model::LoadSampleMessage;
use crate::strutil::{push_char, spec_i64_str, i32_to_string, str_eq};

verus! {

/// One registered sample's metadata.
pub struct Sample {
    pub file_path: String,
    pub buffer_number: i32,
    pub category_tag: String,
    pub tone_index: i32,
}

/// Ghost image of a sample.
pub struct SampleV {
    pub file_path: Seq<char>,
    pub buffer_number: int,
    pub category_tag: Seq<char>,
    pub tone_index: int,
}

impl View for Sample {
    type V = SampleV;

    open spec fn view(&self) -> SampleV {
        SampleV {
            file_path: self.file_path@,
            buffer_number: self.buffer_number as int,
            category_tag: self.category_tag@,
            tone_index: self.tone_index as int,
        }
    }
}

/// Ghost images of a sample list.
pub open spec fn samples_view(s: Seq<Sample>) -> Seq<SampleV> {
    s.map_values(|x: Sample| x@)
}

/// A fresh copy of a sample.
pub fn clone_sample(s: &Sample) -> (r: Sample)
    ensures
        r@ == s@,
{
    Sample {
        file_path: s.file_path.clone(),
        buffer_number: s.buffer_number,
        category_tag: s.category_tag.clone(),
        tone_index: s.tone_index,
    }
}

/// The boot-time script line that reads this sample into its buffer.
pub open spec fn spec_buffer_load_scd(s: SampleV) -> Seq<char> {
    "Buffer.read("@ + spec_server_name() + ", \""@ + s.file_path + "\", 0, -1, bufnum: "@
        + spec_i64_str(s.buffer_number) + "); \n"@
}

/// The score row that allocates and reads this sample's buffer at time
/// zero in an offline render.
pub open spec fn spec_nrt_scd_row(s: SampleV) -> Seq<char> {
    "[0.0, (Buffer.new(server, 44100 * 8.0, 2, bufnum: "@ + spec_i64_str(s.buffer_number)
        + ")).allocReadMsg(\""@ + s.file_path + "\")]"@
}

impl Sample {
    /// The boot-time buffer read line for this sample.
    pub fn get_buffer_load_scd(&self) -> (r: String)
        ensures
            r@ == spec_buffer_load_scd(self@),
    {
        let mut out = "Buffer.read(".to_owned();
        out.append(SERVER_NAME);
        out.append(", \"");
        out.append(self.file_path.as_str());
        out.append("\", 0, -1, bufnum: ");
        let num = i32_to_string(self.buffer_number);
        out.append(num.as_str());
        out.append("); \n");
        out
    }

    /// The offline-render buffer row for this sample.
    pub fn get_nrt_scd_row(&self) -> (r: String)
        ensures
            r@ == spec_nrt_scd_row(self@),
    {
        let mut out = "[0.0, (Buffer.new(server, 44100 * 8.0, 2, bufnum: ".to_owned();
        let num = i32_to_string(self.buffer_number);
        out.append(num.as_str());
        out.append(")).allocReadMsg(\"");
        out.append(self.file_path.as_str());
        out.append("\")]");
        out
    }
}

/// One pack's registered samples, in registration order.
pub struct SamplePack {
    pub samples: Vec<Sample>,
}

/// The first sample with this tone index that the category admits: a blank
/// category admits every sample. A stored negative tone index matches no
/// request.
pub open spec fn spec_find_sample(samples: Seq<SampleV>, number: int, cat: Seq<char>) -> Option<
    SampleV,
>
    decreases samples.len(),
{
    if samples.len() == 0 {
        None
    } else {
        let s = samples[0];
        if (s.category_tag == cat || cat.len() == 0) && s.tone_index >= 0 && s.tone_index
            == number {
            Some(s)
        } else {
            spec_find_sample(samples.drop_first(), number, cat)
        }
    }
}

impl SamplePack {
    /// The first registered sample of this tone index in the category; a
    /// blank category searches the whole pack.
    pub fn find(&self, sample_number: usize, category: &str) -> (r: Option<Sample>)
        ensures
            match r {
                Some(s) => spec_find_sample(samples_view(self.samples@), sample_number as int,
                    category@) == Some(s@),
                None => spec_find_sample(samples_view(self.samples@), sample_number as int,
                    category@) is None,
            },
    {
        proof {
            assert(samples_view(self.samples@).skip(0) =~= samples_view(self.samples@));
        }
        let mut i: usize = 0;
        while i < self.samples.len()
            invariant
                i <= self.samples@.len(),
                spec_find_sample(samples_view(self.samples@), sample_number as int, category@)
                    == spec_find_sample(
                    samples_view(self.samples@).skip(i as int),
                    sample_number as int,
                    category@,
                ),
            decreases self.samples@.len() - i,
        {
            let s = &self.samples[i];
            let cat_ok = str_eq(s.category_tag.as_str(), category) || category.unicode_len() == 0;
            let tone_ok = s.tone_index >= 0 && sample_number <= i32::MAX as usize && s.tone_index
                == sample_number as i32;
            proof {
                let whole = samples_view(self.samples@);
                assert(whole[i as int] == self.samples@[i as int]@);
                assert(whole.skip(i as int)[0] == whole[i as int]);
                assert(whole.skip(i as int).drop_first() =~= whole.skip(i + 1));
            }
            if cat_ok && tone_ok {
                return Some(clone_sample(s));
            }
            proof {
                let sv = self.samples@[i as int]@;
                if sv.tone_index >= 0 && sv.tone_index == sample_number as int {
                    assert(self.samples@[i as int].tone_index >= 0);
                    assert(sample_number <= i32::MAX as usize);
                }
            }
            i = i + 1;
        }
        proof {
            assert(samples_view(self.samples@).skip(i as int) =~= Seq::<SampleV>::empty());
        }
        None
    }
}

/// Registered sample packs, in first-registration order, with unique pack
/// names.
pub struct SamplePackDict {
    packs: Vec<(String, SamplePack)>,
}

/// Ghost image of the dictionary: pack names with their sample lists.
pub open spec fn dict_view(packs: Seq<(String, SamplePack)>) -> Seq<(Seq<char>, Seq<SampleV>)> {
    packs.map_values(|p: (String, SamplePack)| (p.0@, samples_view(p.1.samples@)))
}

/// The index of a pack by name.
pub open spec fn spec_pack_index(d: Seq<(Seq<char>, Seq<SampleV>)>, name: Seq<char>) -> Option<
    int,
>
    decreases d.len(),
{
    if d.len() == 0 {
        None
    } else if d[0].0 == name {
        Some(0)
    } else {
        match spec_pack_index(d.drop_first(), name) {
            Some(i) => Some(i + 1),
            None => None,
        }
    }
}

/// The samples that keep their place when a tone index is re-registered.
pub open spec fn spec_keep_tone(samples: Seq<SampleV>, tone: int) -> Seq<SampleV>
    decreases samples.len(),
{
    if samples.len() == 0 {
        Seq::<SampleV>::empty()
    } else {
        spec_keep_tone(samples.drop_last(), tone) + (if samples.last().tone_index == tone {
            Seq::<SampleV>::empty()
        } else {
            seq![samples.last()]
        })
    }
}

/// The first sample with this file path.
pub open spec fn spec_find_path(samples: Seq<SampleV>, path: Seq<char>) -> Option<SampleV>
    decreases samples.len(),
{
    if samples.len() == 0 {
        None
    } else if samples[0].file_path == path {
        Some(samples[0])
    } else {
        spec_find_path(samples.drop_first(), path)
    }
}

impl View for SamplePackDict {
    type V = Seq<(Seq<char>, Seq<SampleV>)>;

    closed spec fn view(&self) -> Seq<(Seq<char>, Seq<SampleV>)> {
        dict_view(self.packs@)
    }
}

impl SamplePackDict {
    /// An empty dictionary.
    pub fn new() -> (r: SamplePackDict)
        ensures
            r@.len() == 0,
    {
        SamplePackDict { packs: Vec::new() }
    }

    /// The sample a registration resolves to, and the registered state it
    /// leaves: samples of the same tone index give way, and a known file
    /// path is handed back instead of being registered twice.
    pub open spec fn spec_register(
        d: Seq<(Seq<char>, Seq<SampleV>)>,
        m: crate::osc_model::LoadSampleV,
    ) -> (Seq<(Seq<char>, Seq<SampleV>)>, SampleV) {
        let at = spec_pack_index(d, m.sample_pack);
        let base = if at is Some {
            d
        } else {
            d.push((m.sample_pack, Seq::<SampleV>::empty()))
        };
        let i = if at is Some {
            at->Some_0
        } else {
            base.len() - 1
        };
        let kept = spec_keep_tone(base[i].1, m.tone_index);
        let fresh = SampleV {
            file_path: m.file_path,
            buffer_number: m.buffer_number,
            category_tag: m.category_tag,
            tone_index: m.tone_index,
        };
        match spec_find_path(kept, m.file_path) {
            Some(existing) => (base.update(i, (base[i].0, kept)), existing),
            None => (base.update(i, (base[i].0, kept.push(fresh))), fresh),
        }
    }

    /// Register one sample's metadata under its pack.
    pub fn register_sample(&mut self, msg: &LoadSampleMessage) -> (r: Result<Sample, String>)
        ensures
            r is Ok,
            r matches Ok(s) ==> (final(self)@, s@) == Self::spec_register(old(self)@, msg@),
    {
        let ghost d0 = self@;
        let at = self.find_pack_index(msg.sample_pack.as_str());
        let idx: usize = match at {
            Some(j) => j,
            None => {
                let n = self.packs.len();
                self.packs.push((msg.sample_pack.clone(), SamplePack { samples: Vec::new() }));
                proof {
                    assert(self@ =~~= d0.push((msg.sample_pack@, Seq::<SampleV>::empty())));
                }
                n
            },
        };
        let ghost base = self@;
        proof {
            assert(idx < self.packs@.len());
        }
        // samples of the same tone index give way
        let mut kept: Vec<Sample> = Vec::new();
        let pack_len = self.packs[idx].1.samples.len();
        let mut k: usize = 0;
        proof {
            assert(self.packs@[idx as int].1.samples@.subrange(0, 0) =~= Seq::<Sample>::empty());
            assert(samples_view(Seq::<Sample>::empty()) =~= Seq::<SampleV>::empty());
        }
        while k < pack_len
            invariant
                idx < self.packs@.len(),
                k <= pack_len,
                pack_len == self.packs@[idx as int].1.samples@.len(),
                samples_view(kept@) == spec_keep_tone(
                    samples_view(self.packs@[idx as int].1.samples@.subrange(0, k as int)),
                    msg.tone_index as int,
                ),
            decreases pack_len - k,
        {
            let s = &self.packs[idx].1.samples[k];
            proof {
                let whole = self.packs@[idx as int].1.samples@;
                let pre = samples_view(whole.subrange(0, k as int));
                let ext = samples_view(whole.subrange(0, k + 1));
                assert(ext.drop_last() =~= pre);
                assert(ext.last() == whole[k as int]@);
            }
            if s.tone_index != msg.tone_index {
                kept.push(clone_sample(s));
                proof {
                    assert(samples_view(kept@) =~= spec_keep_tone(
                        samples_view(self.packs@[idx as int].1.samples@.subrange(0, k + 1)),
                        msg.tone_index as int,
                    ));
                }
            } else {
                proof {
                    assert(samples_view(kept@) =~= spec_keep_tone(
                        samples_view(self.packs@[idx as int].1.samples@.subrange(0, k + 1)),
                        msg.tone_index as int,
                    ));
                }
            }
            k = k + 1;
        }
        proof {
            let whole = self.packs@[idx as int].1.samples@;
            assert(whole.subrange(0, whole.len() as int) =~= whole);
            assert(base[idx as int].1 == samples_view(whole));
        }
        // a known file path is handed back instead of registered twice
        let existing = find_by_path(&kept, msg.file_path.as_str());
        let selected = match existing {
            Some(s) => {
                self.set_pack_samples(idx, kept);
                proof {
                    assert(self@ =~~= base.update(idx as int, (base[idx as int].0, samples_view(
                        keptv(&self.packs@[idx as int].1.samples@),
                    ))));
                }
                s
            },
            None => {
                let sample = Sample {
                    file_path: msg.file_path.clone(),
                    buffer_number: msg.buffer_number,
                    category_tag: msg.category_tag.clone(),
                    tone_index: msg.tone_index,
                };
                let ghost kept0 = samples_view(kept@);
                let mut with_new = kept;
                with_new.push(sample);
                proof {
                    assert(samples_view(with_new@) =~= kept0.push(SampleV {
                        file_path: msg.file_path@,
                        buffer_number: msg.buffer_number as int,
                        category_tag: msg.category_tag@,
                        tone_index: msg.tone_index as int,
                    }));
                }
                self.set_pack_samples(idx, with_new);
                Sample {
                    file_path: msg.file_path.clone(),
                    buffer_number: msg.buffer_number,
                    category_tag: msg.category_tag.clone(),
                    tone_index: msg.tone_index,
                }
            },
        };
        proof {
            let sp = Self::spec_register(d0, msg@);
            assert(self@ =~~= sp.0);
            assert(selected@ == sp.1);
        }
        Ok(selected)
    }

    /// Replace one pack's sample list.
    fn set_pack_samples(&mut self, idx: usize, samples: Vec<Sample>)
        requires
            idx < old(self).packs@.len(),
        ensures
            final(self)@ == old(self)@.update(idx as int, (old(self)@[idx as int].0, samples_view(
                samples@,
            ))),
            final(self).packs@.len() == old(self).packs@.len(),
            final(self).packs@[idx as int].1.samples@ == samples@,
    {
        let name = self.packs[idx].0.clone();
        let ghost oldv = self@;
        self.packs.set(idx, (name, SamplePack { samples }));
        proof {
            assert(self@ =~= oldv.update(idx as int, (oldv[idx as int].0, samples_view(
                self.packs@[idx as int].1.samples@,
            ))));
        }
    }

    /// The position of a pack by name, in first-registration order.
    fn find_pack_index(&self, name: &str) -> (r: Option<usize>)
        ensures
            match r {
                Some(i) => i < self@.len() && spec_pack_index(self@, name@) == Some(i as int),
                None => spec_pack_index(self@, name@) is None,
            },
    {
        proof {
            assert(self@.skip(0) =~= self@);
        }
        let mut i: usize = 0;
        while i < self.packs.len()
            invariant
                i <= self.packs@.len(),
                spec_pack_index(self@, name@) == (match spec_pack_index(
                    self@.skip(i as int),
                    name@,
                ) {
                    Some(j) => Some(j + i),
                    None => None,
                }),
            decreases self.packs@.len() - i,
        {
            proof {
                assert(self@[i as int] == (self.packs@[i as int].0@, samples_view(
                    self.packs@[i as int].1.samples@,
                )));
                assert(self@.skip(i as int)[0] == self@[i as int]);
                assert(self@.skip(i as int).drop_first() =~= self@.skip(i + 1));
            }
            if str_eq(self.packs[i].0.as_str(), name) {
                return Some(i);
            }
            i = i + 1;
        }
        proof {
            assert(self@.skip(self@.len() as int) =~= Seq::<(Seq<char>, Seq<SampleV>)>::empty());
        }
        None
    }

    /// The sample a trigger resolves: pack by name, then tone index within
    /// the category.
    pub fn find(&self, sample_pack: &str, sample_number: usize, category: &str) -> (r: Option<
        Sample,
    >)
        ensures
            match spec_pack_index(self@, sample_pack@) {
                Some(i) => match r {
                    Some(s) => spec_find_sample(self@[i].1, sample_number as int, category@)
                        == Some(s@),
                    None => spec_find_sample(self@[i].1, sample_number as int, category@) is None,
                },
                None => r is None,
            },
    {
        match self.find_pack_index(sample_pack) {
            Some(i) => {
                proof {
                    assert(self@[i as int] == (self.packs@[i as int].0@, samples_view(
                        self.packs@[i as int].1.samples@,
                    )));
                }
                self.packs[i].1.find(sample_number, category)
            },
            None => None,
        }
    }

    /// Every registered sample, pack by pack in registration order.
    pub fn get_all_samples(&self) -> (r: Vec<Sample>)
        ensures
            samples_view(r@) == spec_all_samples(self@),
    {
        let mut out: Vec<Sample> = Vec::new();
        let mut i: usize = 0;
        proof {
            assert(self@.subrange(0, 0) =~= Seq::<(Seq<char>, Seq<SampleV>)>::empty());
            assert(samples_view(out@) =~= spec_all_samples(self@.subrange(0, 0)));
        }
        while i < self.packs.len()
            invariant
                i <= self.packs@.len(),
                samples_view(out@) == spec_all_samples(self@.subrange(0, i as int)),
            decreases self.packs@.len() - i,
        {
            proof {
                assert(self@[i as int] == (self.packs@[i as int].0@, samples_view(
                    self.packs@[i as int].1.samples@,
                )));
            }
            let pack_samples = &self.packs[i].1.samples;
            let mut j: usize = 0;
            proof {
                assert(samples_view(pack_samples@).subrange(0, 0) =~= Seq::<SampleV>::empty());
                assert(samples_view(out@) =~= spec_all_samples(self@.subrange(0, i as int))
                    + samples_view(pack_samples@).subrange(0, 0));
            }
            while j < pack_samples.len()
                invariant
                    j <= pack_samples@.len(),
                    i < self.packs@.len(),
                    self@[i as int].1 == samples_view(pack_samples@),
                    samples_view(out@) == spec_all_samples(self@.subrange(0, i as int))
                        + samples_view(pack_samples@).subrange(0, j as int),
                decreases pack_samples@.len() - j,
            {
                let ghost prior = samples_view(out@);
                out.push(clone_sample(&pack_samples[j]));
                proof {
                    assert(samples_view(out@) =~= prior.push(pack_samples@[j as int]@));
                    assert(samples_view(pack_samples@)[j as int] == pack_samples@[j as int]@);
                    assert(samples_view(pack_samples@).subrange(0, j + 1) =~= samples_view(
                        pack_samples@,
                    ).subrange(0, j as int).push(pack_samples@[j as int]@));
                    assert(samples_view(out@) =~= spec_all_samples(self@.subrange(0, i as int))
                        + samples_view(pack_samples@).subrange(0, j + 1));
                }
                j = j + 1;
            }
            proof {
                let pre = self@.subrange(0, i as int);
                let ext = self@.subrange(0, i + 1);
                assert(ext.drop_last() =~= pre);
                assert(ext.last() == self@[i as int]);
                assert(samples_view(pack_samples@).subrange(
                    0,
                    samples_view(pack_samples@).len() as int,
                ) =~= samples_view(pack_samples@));
                assert(samples_view(out@) =~= spec_all_samples(self@.subrange(0, i + 1)));
            }
            i = i + 1;
        }
        proof {
            assert(self@.subrange(0, self@.len() as int) =~= self@);
        }
        out
    }
}

/// All samples of all packs, in pack order.
pub open spec fn spec_all_samples(d: Seq<(Seq<char>, Seq<SampleV>)>) -> Seq<SampleV>
    decreases d.len(),
{
    if d.len() == 0 {
        Seq::<SampleV>::empty()
    } else {
        spec_all_samples(d.drop_last()) + d.last().1
    }
}

/// The first sample in the list with this file path, copied out.
fn find_by_path(list: &Vec<Sample>, path: &str) -> (r: Option<Sample>)
    ensures
        match r {
            Some(s) => spec_find_path(samples_view(list@), path@) == Some(s@),
            None => spec_find_path(samples_view(list@), path@) is None,
        },
{
    proof {
        assert(samples_view(list@).skip(0) =~= samples_view(list@));
    }
    let mut e: usize = 0;
    while e < list.len()
        invariant
            e <= list@.len(),
            spec_find_path(samples_view(list@), path@) == spec_find_path(
                samples_view(list@).skip(e as int),
                path@,
            ),
        decreases list@.len() - e,
    {
        proof {
            let whole = samples_view(list@);
            assert(whole[e as int] == list@[e as int]@);
            assert(whole.skip(e as int)[0] == whole[e as int]);
            assert(whole.skip(e as int).drop_first() =~= whole.skip(e + 1));
        }
        if str_eq(list[e].file_path.as_str(), path) {
            return Some(clone_sample(&list[e]));
        }
        e = e + 1;
    }
    proof {
        assert(samples_view(list@).skip(list@.len() as int) =~= Seq::<SampleV>::empty());
    }
    None
}

/// Identity on a sample list, naming the kept samples in a proof.
spec fn keptv(s: &Seq<Sample>) -> Seq<Sample> {
    *s
}

} // verus!
