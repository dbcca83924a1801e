//! Sample packs discovered on disk at boot. Each subdirectory of the
//! sample directory is a pack; each sound file in it, taken in name order,
//! is a sample with the next buffer number; a category map groups the
//! samples of a pack by the keyword table. The directory walk itself is
//! unverified shell work that hands the listing in as plain text.
use vstd::prelude::*;

use crate::config::{SERVER_NAME, SERVER_OSC_SOCKET_NAME, spec_server_name,
    spec_server_socket_name};
use crate::strutil::{contains_str, contains_sub, i32_to_string, spec_i64_str, spec_join,
    spec_sort_texts, sort_strings, str_eq, views_of};

verus! {

/// One discovered sample file and its assigned buffer number.
pub struct Sample {
    pub file_name: String,
    pub buffer_nr: i32,
}

/// Ghost image of a discovered sample.
pub struct SampleFileV {
    pub file_name: Seq<char>,
    pub buffer_nr: int,
}

impl View for Sample {
    type V = SampleFileV;

    open spec fn view(&self) -> SampleFileV {
        SampleFileV { file_name: self.file_name@, buffer_nr: self.buffer_nr as int }
    }
}

/// Ghost images of a discovered-sample list.
pub open spec fn samples_file_view(s: Seq<Sample>) -> Seq<SampleFileV> {
    s.map_values(|x: Sample| x@)
}

/// A fresh copy of a discovered sample.
pub fn clone_file_sample(s: &Sample) -> (r: Sample)
    ensures
        r@ == s@,
{
    Sample { file_name: s.file_name.clone(), buffer_nr: s.buffer_nr }
}

/// The boot-time script line that reads this sample into its buffer.
pub open spec fn spec_file_buffer_load(dir: Seq<char>, s: SampleFileV) -> Seq<char> {
    "Buffer.read("@ + spec_server_name() + ", \""@ + dir + "/"@ + s.file_name
        + "\", 0, -1, bufnum: "@ + spec_i64_str(s.buffer_nr) + "); \n"@
}

/// The offline-render score row that allocates and reads this sample.
pub open spec fn spec_file_nrt_row(dir: Seq<char>, s: SampleFileV) -> Seq<char> {
    "[0.0, (Buffer.new(server, 44100 * 8.0, 2, bufnum: "@ + spec_i64_str(s.buffer_nr)
        + ")).allocReadMsg(\""@ + dir + "/"@ + s.file_name + "\")]"@
}

impl Sample {
    /// The boot-time buffer read line for this sample under its directory.
    pub fn to_buffer_load_scd(&self, dir: &str) -> (r: String)
        ensures
            r@ == spec_file_buffer_load(dir@, self@),
    {
        let mut out = "Buffer.read(".to_owned();
        out.append(SERVER_NAME);
        out.append(", \"");
        out.append(dir);
        out.append("/");
        out.append(self.file_name.as_str());
        out.append("\", 0, -1, bufnum: ");
        let num = i32_to_string(self.buffer_nr);
        out.append(num.as_str());
        out.append("); \n");
        out
    }

    /// The offline-render buffer row for this sample under its directory.
    pub fn to_nrt_scd_row(&self, dir: &str) -> (r: String)
        ensures
            r@ == spec_file_nrt_row(dir@, self@),
    {
        let mut out = "[0.0, (Buffer.new(server, 44100 * 8.0, 2, bufnum: ".to_owned();
        let num = i32_to_string(self.buffer_nr);
        out.append(num.as_str());
        out.append(")).allocReadMsg(\"");
        out.append(dir);
        out.append("/");
        out.append(self.file_name.as_str());
        out.append("\")]");
        out
    }
}

/// The text after the last slash of a path; the whole path when it holds
/// no slash.
pub open spec fn spec_last_slash(p: Seq<char>) -> Option<int>
    decreases p.len(),
{
    if p.len() == 0 {
        None
    } else if p.last() == '/' {
        Some(p.len() - 1)
    } else {
        spec_last_slash(p.drop_last())
    }
}

/// The last component of a path.
pub open spec fn spec_last_component(p: Seq<char>) -> Seq<char> {
    match spec_last_slash(p) {
        Some(i) => p.subrange(i + 1, p.len() as int),
        None => p,
    }
}

/// One pack: its directory, its samples in name order, and its samples by
/// category code.
pub struct SamplePack {
    pub dir_path: String,
    pub samples: Vec<Sample>,
    pub sample_dict: Vec<(String, Vec<Sample>)>,
}

/// Rows of a pack's boot-time buffer reads, in sample order.
pub open spec fn spec_pack_load_rows(dir: Seq<char>, samples: Seq<SampleFileV>) -> Seq<Seq<char>>
    decreases samples.len(),
{
    if samples.len() == 0 {
        Seq::<Seq<char>>::empty()
    } else {
        spec_pack_load_rows(dir, samples.drop_last()) + seq![
            spec_file_buffer_load(dir, samples.last()),
        ]
    }
}

/// The concatenation of a text row list.
pub open spec fn spec_concat(rows: Seq<Seq<char>>) -> Seq<char>
    decreases rows.len(),
{
    if rows.len() == 0 {
        Seq::<char>::empty()
    } else {
        spec_concat(rows.drop_last()) + rows.last()
    }
}

/// Rows of a pack's offline-render buffer reads, in sample order.
pub open spec fn spec_pack_nrt_rows(dir: Seq<char>, samples: Seq<SampleFileV>) -> Seq<Seq<char>>
    decreases samples.len(),
{
    if samples.len() == 0 {
        Seq::<Seq<char>>::empty()
    } else {
        spec_pack_nrt_rows(dir, samples.drop_last()) + seq![
            spec_file_nrt_row(dir, samples.last()),
        ]
    }
}

/// The position of a category code in a category map.
pub open spec fn spec_dict_lookup(
    m: Seq<(Seq<char>, Seq<SampleFileV>)>,
    key: Seq<char>,
) -> Option<int>
    decreases m.len(),
{
    if m.len() == 0 {
        None
    } else if m[0].0 == key {
        Some(0)
    } else {
        match spec_dict_lookup(m.drop_first(), key) {
            Some(i) => Some(i + 1),
            None => None,
        }
    }
}

/// The buffer a request resolves to within one pack: a known category with
/// samples serves the request index modulo its size; anything else falls
/// back to the pack's own list the same way.
pub open spec fn spec_category_to_buf(
    samples: Seq<SampleFileV>,
    dict: Seq<(Seq<char>, Seq<SampleFileV>)>,
    number: int,
    category: Option<Seq<char>>,
) -> int {
    let fallback = samples[number % samples.len() as int].buffer_nr;
    match category {
        Some(c) => match spec_dict_lookup(dict, c) {
            Some(i) => if dict[i].1.len() > 0 {
                dict[i].1[number % dict[i].1.len() as int].buffer_nr
            } else {
                fallback
            },
            None => fallback,
        },
        None => fallback,
    }
}

impl SamplePack {
    /// Ghost image of the category map.
    pub open spec fn dict_v(&self) -> Seq<(Seq<char>, Seq<SampleFileV>)> {
        crate::sample_sorting::cat_map_view(self.sample_dict@)
    }

    /// The name of the pack: the last component of its directory path.
    pub fn get_dir_path<'a>(&'a self) -> (r: &'a str)
        ensures
            r@ == spec_last_component(self.dir_path@),
    {
        let p = self.dir_path.as_str();
        let len = p.unicode_len();
        let mut best: Option<usize> = None;
        let mut j: usize = 0;
        proof {
            assert(p@.subrange(0, 0) =~= Seq::<char>::empty());
        }
        while j < len
            invariant
                j <= len,
                len == p@.len(),
                (match best {
                    Some(b) => b < j && spec_last_slash(p@.subrange(0, j as int)) == Some(b as int),
                    None => spec_last_slash(p@.subrange(0, j as int)) is None,
                }),
            decreases len - j,
        {
            let c = p.get_char(j);
            proof {
                let pre = p@.subrange(0, j as int);
                let ext = p@.subrange(0, j + 1);
                assert(ext.drop_last() =~= pre);
                assert(ext.last() == p@[j as int]);
            }
            if c == '/' {
                best = Some(j);
            }
            j = j + 1;
        }
        proof {
            assert(p@.subrange(0, len as int) =~= p@);
        }
        match best {
            Some(b) => {
                let r = p.substring_char(b + 1, len);
                proof {
                    assert(r@ == spec_last_component(self.dir_path@));
                }
                r
            },
            None => p,
        }
    }

    /// The whole pack's boot-time buffer read script.
    pub fn as_buffer_load_scd(&self) -> (r: String)
        ensures
            r@ == spec_concat(spec_pack_load_rows(self.dir_path@, samples_file_view(self.samples@))),
    {
        let mut script = String::new();
        let mut i: usize = 0;
        proof {
            assert(samples_file_view(self.samples@.subrange(0, 0)) =~= Seq::<SampleFileV>::empty());
            assert(script@ =~= spec_concat(spec_pack_load_rows(self.dir_path@, samples_file_view(
                self.samples@.subrange(0, 0),
            ))));
        }
        while i < self.samples.len()
            invariant
                i <= self.samples@.len(),
                script@ == spec_concat(spec_pack_load_rows(self.dir_path@, samples_file_view(
                    self.samples@.subrange(0, i as int),
                ))),
            decreases self.samples@.len() - i,
        {
            let row = self.samples[i].to_buffer_load_scd(self.dir_path.as_str());
            script.append(row.as_str());
            proof {
                let pre = samples_file_view(self.samples@.subrange(0, i as int));
                let ext = samples_file_view(self.samples@.subrange(0, i + 1));
                assert(ext.drop_last() =~= pre);
                assert(ext.last() == self.samples@[i as int]@);
                assert(spec_pack_load_rows(self.dir_path@, ext).drop_last() =~= spec_pack_load_rows(
                    self.dir_path@,
                    pre,
                ));
            }
            i = i + 1;
        }
        proof {
            assert(self.samples@.subrange(0, self.samples@.len() as int) =~= self.samples@);
        }
        script
    }

    /// The pack's offline-render buffer rows, in sample order.
    pub fn as_nrt_buffer_load_rows(&self) -> (r: Vec<String>)
        ensures
            views_of(r@) == spec_pack_nrt_rows(self.dir_path@, samples_file_view(self.samples@)),
    {
        let mut out: Vec<String> = Vec::new();
        let mut i: usize = 0;
        proof {
            assert(samples_file_view(self.samples@.subrange(0, 0)) =~= Seq::<SampleFileV>::empty());
            assert(views_of(out@) =~= spec_pack_nrt_rows(self.dir_path@, samples_file_view(
                self.samples@.subrange(0, 0),
            )));
        }
        while i < self.samples.len()
            invariant
                i <= self.samples@.len(),
                views_of(out@) == spec_pack_nrt_rows(self.dir_path@, samples_file_view(
                    self.samples@.subrange(0, i as int),
                )),
            decreases self.samples@.len() - i,
        {
            out.push(self.samples[i].to_nrt_scd_row(self.dir_path.as_str()));
            proof {
                let pre = samples_file_view(self.samples@.subrange(0, i as int));
                let ext = samples_file_view(self.samples@.subrange(0, i + 1));
                assert(ext.drop_last() =~= pre);
                assert(ext.last() == self.samples@[i as int]@);
                assert(views_of(out@) =~= spec_pack_nrt_rows(self.dir_path@, ext));
            }
            i = i + 1;
        }
        proof {
            assert(self.samples@.subrange(0, self.samples@.len() as int) =~= self.samples@);
        }
        out
    }

    /// The buffer number a request resolves to in this pack, wrapping the
    /// request index around the chosen list.
    pub fn category_to_buf(&self, number: usize, category: Option<String>) -> (r: i32)
        requires
            self.samples@.len() > 0,
        ensures
            r == spec_category_to_buf(samples_file_view(self.samples@), self.dict_v(),
                number as int, match category {
                    Some(c) => Some(c@),
                    None => None,
                }),
    {
        proof {
            assert(crate::sample_sorting::cat_map_view(self.sample_dict@).skip(0)
                =~= crate::sample_sorting::cat_map_view(self.sample_dict@));
        }
        match category {
            Some(cat) => {
                let mut i: usize = 0;
                while i < self.sample_dict.len()
                    invariant
                        i <= self.sample_dict@.len(),
                        self.samples@.len() > 0,
                        category == Some(cat),
                        spec_dict_lookup(self.dict_v(), cat@) == (match spec_dict_lookup(
                            self.dict_v().skip(i as int),
                            cat@,
                        ) {
                            Some(j) => Some(j + i),
                            None => None,
                        }),
                    decreases self.sample_dict@.len() - i,
                {
                    proof {
                        assert(self.dict_v()[i as int] == (self.sample_dict@[i as int].0@,
                            samples_file_view(self.sample_dict@[i as int].1@)));
                        assert(self.dict_v().skip(i as int)[0] == self.dict_v()[i as int]);
                        assert(self.dict_v().skip(i as int).drop_first() =~= self.dict_v().skip(
                            i + 1,
                        ));
                    }
                    if str_eq(self.sample_dict[i].0.as_str(), cat.as_str()) {
                        let vs = &self.sample_dict[i].1;
                        if vs.len() > 0 {
                            let index = number % vs.len();
                            proof {
                                assert(samples_file_view(vs@)[index as int] == vs@[index as int]@);
                            }
                            return vs[index].buffer_nr;
                        } else {
                            let index = number % self.samples.len();
                            proof {
                                assert(samples_file_view(self.samples@)[index as int]
                                    == self.samples@[index as int]@);
                            }
                            return self.samples[index].buffer_nr;
                        }
                    }
                    i = i + 1;
                }
                proof {
                    assert(self.dict_v().skip(self.dict_v().len() as int) =~= Seq::<
                        (Seq<char>, Seq<SampleFileV>),
                    >::empty());
                }
                let index = number % self.samples.len();
                proof {
                    assert(samples_file_view(self.samples@)[index as int]
                        == self.samples@[index as int]@);
                }
                self.samples[index].buffer_nr
            },
            None => {
                let index = number % self.samples.len();
                proof {
                    assert(samples_file_view(self.samples@)[index as int]
                        == self.samples@[index as int]@);
                }
                self.samples[index].buffer_nr
            },
        }
    }
}

/// Ghost image of a pack.
pub struct PackV {
    pub dir_path: Seq<char>,
    pub samples: Seq<SampleFileV>,
    pub dict: Seq<(Seq<char>, Seq<SampleFileV>)>,
}

impl View for SamplePack {
    type V = PackV;

    open spec fn view(&self) -> PackV {
        PackV {
            dir_path: self.dir_path@,
            samples: samples_file_view(self.samples@),
            dict: crate::sample_sorting::cat_map_view(self.sample_dict@),
        }
    }
}

/// A buffer-number counter that hands out the next number and stops at the
/// top of its range instead of wrapping.
pub struct Counter {
    pub value: i32,
}

/// The counter's next value.
pub open spec fn sat_inc(v: int) -> int {
    if v < i32::MAX {
        v + 1
    } else {
        v
    }
}

impl Counter {
    /// Advance and return the new value.
    pub fn next(&mut self) -> (r: i32)
        ensures
            final(self).value == sat_inc(old(self).value as int),
            r == final(self).value,
    {
        if self.value < i32::MAX {
            self.value = self.value + 1;
        }
        self.value
    }
}

/// Whether a file name names a sound file the packs accept.
pub open spec fn spec_is_wav(name: Seq<char>) -> bool {
    contains_sub(name, ".wav"@) || contains_sub(name, ".WAV"@)
}

/// The samples built from a name listing: each accepted name takes the
/// counter's next number, in listing order; the rest are ignored.
pub open spec fn spec_build_samples(names: Seq<Seq<char>>, c: int) -> (Seq<SampleFileV>, int)
    decreases names.len(),
{
    if names.len() == 0 {
        (Seq::<SampleFileV>::empty(), c)
    } else if spec_is_wav(names[0]) {
        let rest = spec_build_samples(names.drop_first(), sat_inc(c));
        (seq![SampleFileV { file_name: names[0], buffer_nr: sat_inc(c) }] + rest.0, rest.1)
    } else {
        spec_build_samples(names.drop_first(), c)
    }
}

/// The category map of a sample list, filed in order.
pub open spec fn spec_fold_cats(samples: Seq<SampleFileV>) -> Seq<(Seq<char>, Seq<SampleFileV>)>
    decreases samples.len(),
{
    if samples.len() == 0 {
        Seq::<(Seq<char>, Seq<SampleFileV>)>::empty()
    } else {
        crate::sample_sorting::spec_cat_add(spec_fold_cats(samples.drop_last()), samples.last())
    }
}

/// The position of a pack name in the collection.
pub open spec fn spec_pack_slot(entries: Seq<(Seq<char>, PackV)>, name: Seq<char>) -> Option<int>
    decreases entries.len(),
{
    if entries.len() == 0 {
        None
    } else if entries[0].0 == name {
        Some(0)
    } else {
        match spec_pack_slot(entries.drop_first(), name) {
            Some(i) => Some(i + 1),
            None => None,
        }
    }
}

/// A pack stored under its name: a repeated name replaces the earlier
/// pack, as a keyed map would.
pub open spec fn spec_put_pack(
    entries: Seq<(Seq<char>, PackV)>,
    name: Seq<char>,
    pack: PackV,
) -> Seq<(Seq<char>, PackV)> {
    match spec_pack_slot(entries, name) {
        Some(i) => entries.update(i, (name, pack)),
        None => entries.push((name, pack)),
    }
}

/// The collection built from a directory listing: each directory becomes a
/// pack of its sound files in name order, with buffer numbers threaded
/// across packs.
pub open spec fn spec_create_from(
    listing: Seq<(Seq<char>, Seq<Seq<char>>)>,
    acc: Seq<(Seq<char>, PackV)>,
    c: int,
) -> (Seq<(Seq<char>, PackV)>, int)
    decreases listing.len(),
{
    if listing.len() == 0 {
        (acc, c)
    } else {
        let sorted = spec_sort_texts(listing[0].1);
        let built = spec_build_samples(sorted, c);
        let pack = PackV { dir_path: listing[0].0, samples: built.0, dict: spec_fold_cats(
            built.0,
        ) };
        spec_create_from(
            listing.drop_first(),
            spec_put_pack(acc, spec_last_component(listing[0].0), pack),
            built.1,
        )
    }
}

/// Every discovered pack under its name, with the shared buffer counter.
pub struct SamplePackCollection {
    pub sample_packs: Vec<(String, SamplePack)>,
    pub counter: Counter,
}

/// Ghost image of the collection's packs.
pub open spec fn packs_view(s: Seq<(String, SamplePack)>) -> Seq<(Seq<char>, PackV)> {
    s.map_values(|e: (String, SamplePack)| (e.0@, e.1@))
}

/// Ghost images of a directory listing.
pub open spec fn listing_view(s: Seq<(String, Vec<String>)>) -> Seq<(Seq<char>, Seq<Seq<char>>)> {
    s.map_values(|e: (String, Vec<String>)| (e.0@, views_of(e.1@)))
}

/// Rows of every pack's offline-render buffer reads, in pack order.
pub open spec fn spec_all_nrt_rows(entries: Seq<(Seq<char>, PackV)>) -> Seq<Seq<char>>
    decreases entries.len(),
{
    if entries.len() == 0 {
        Seq::<Seq<char>>::empty()
    } else {
        spec_all_nrt_rows(entries.drop_last()) + spec_pack_nrt_rows(
            entries.last().1.dir_path,
            entries.last().1.samples,
        )
    }
}

/// The boot scripts of every pack, in pack order.
pub open spec fn spec_all_load_scds(entries: Seq<(Seq<char>, PackV)>) -> Seq<Seq<char>>
    decreases entries.len(),
{
    if entries.len() == 0 {
        Seq::<Seq<char>>::empty()
    } else {
        spec_all_load_scds(entries.drop_last()) + seq![
            spec_concat(spec_pack_load_rows(entries.last().1.dir_path, entries.last().1.samples)),
        ]
    }
}

impl SamplePackCollection {
    /// A collection with no packs.
    pub fn empty() -> (r: SamplePackCollection)
        ensures
            packs_view(r.sample_packs@).len() == 0,
            r.counter.value == 1,
    {
        SamplePackCollection { sample_packs: Vec::new(), counter: Counter { value: 1 } }
    }

    /// Build the collection from a directory listing: pairs of a pack
    /// directory path and the file names found in it. The walk that
    /// produces the listing is the shell's; everything from here on is
    /// deterministic.
    pub fn create(listing: Vec<(String, Vec<String>)>) -> (r: SamplePackCollection)
        ensures
            (packs_view(r.sample_packs@), r.counter.value as int) == spec_create_from(
                listing_view(listing@),
                Seq::<(Seq<char>, PackV)>::empty(),
                -1,
            ),
    {
        let mut counter = Counter { value: -1 };
        let mut packs: Vec<(String, SamplePack)> = Vec::new();
        let mut i: usize = 0;
        proof {
            assert(listing_view(listing@).skip(0) =~= listing_view(listing@));
            assert(packs_view(packs@) =~= Seq::<(Seq<char>, PackV)>::empty());
        }
        while i < listing.len()
            invariant
                i <= listing@.len(),
                spec_create_from(
                    listing_view(listing@),
                    Seq::<(Seq<char>, PackV)>::empty(),
                    -1,
                ) == spec_create_from(
                    listing_view(listing@).skip(i as int),
                    packs_view(packs@),
                    counter.value as int,
                ),
            decreases listing@.len() - i,
        {
            proof {
                let lv = listing_view(listing@);
                assert(lv[i as int] == (listing@[i as int].0@, views_of(listing@[i as int].1@)));
                assert(lv.skip(i as int)[0] == lv[i as int]);
                assert(lv.skip(i as int).drop_first() =~= lv.skip(i + 1));
            }
            let dir_path = listing[i].0.clone();
            let mut files: Vec<String> = Vec::new();
            let flen = listing[i].1.len();
            let mut f: usize = 0;
            while f < flen
                invariant
                    f <= flen,
                    i < listing@.len(),
                    flen == listing@[i as int].1@.len(),
                    views_of(files@) == views_of(listing@[i as int].1@).subrange(0, f as int),
                decreases flen - f,
            {
                let ghost priorf = views_of(files@);
                files.push(listing[i].1[f].clone());
                proof {
                    assert(views_of(files@) =~= priorf.push(listing@[i as int].1@[f as int]@));
                    assert(views_of(listing@[i as int].1@).subrange(0, f + 1) =~= views_of(
                        listing@[i as int].1@,
                    ).subrange(0, f as int).push(listing@[i as int].1@[f as int]@));
                }
                f = f + 1;
            }
            proof {
                assert(views_of(listing@[i as int].1@).subrange(
                    0,
                    views_of(listing@[i as int].1@).len() as int,
                ) =~= views_of(listing@[i as int].1@));
            }
            let files_in_dir = sort_strings(files);
            let ghost sortedv = views_of(files_in_dir@);
            let mut samples: Vec<Sample> = Vec::new();
            let mut sample_sorter = crate::sample_sorting::SampleCategoryDict {
                sample_map: Vec::new(),
            };
            let ghost c0 = counter.value as int;
            let mut n: usize = 0;
            proof {
                assert(sortedv.skip(0) =~= sortedv);
                assert(samples_file_view(samples@) =~= Seq::<SampleFileV>::empty());
                assert(crate::sample_sorting::cat_map_view(sample_sorter.sample_map@) =~= Seq::<
                    (Seq<char>, Seq<SampleFileV>),
                >::empty());
            }
            while n < files_in_dir.len()
                invariant
                    n <= files_in_dir@.len(),
                    sortedv == views_of(files_in_dir@),
                    spec_build_samples(sortedv, c0) == (samples_file_view(samples@)
                        + spec_build_samples(sortedv.skip(n as int), counter.value as int).0,
                    spec_build_samples(sortedv.skip(n as int), counter.value as int).1),
                    crate::sample_sorting::cat_map_view(sample_sorter.sample_map@)
                        == spec_fold_cats(samples_file_view(samples@)),
                decreases files_in_dir@.len() - n,
            {
                proof {
                    assert(sortedv[n as int] == files_in_dir@[n as int]@);
                    assert(sortedv.skip(n as int)[0] == sortedv[n as int]);
                    assert(sortedv.skip(n as int).drop_first() =~= sortedv.skip(n + 1));
                }
                let name = &files_in_dir[n];
                proof {
                    reveal_strlit(".wav");
                    reveal_strlit(".WAV");
                }
                let is_wav = contains_str(name.as_str(), ".wav") || contains_str(
                    name.as_str(),
                    ".WAV",
                );
                if is_wav {
                    let buffer_nr = counter.next();
                    let sample = Sample { file_name: name.clone(), buffer_nr };
                    let ghost priors = samples_file_view(samples@);
                    samples.push(clone_file_sample(&sample));
                    proof {
                        assert(samples_file_view(samples@) =~= priors.push(sample@));
                        assert(spec_fold_cats(samples_file_view(samples@))
                            == crate::sample_sorting::spec_cat_add(spec_fold_cats(priors),
                            sample@)) by {
                            assert(samples_file_view(samples@).drop_last() =~= priors);
                        }
                    }
                    sample_sorter.add(sample);
                }
                n = n + 1;
            }
            proof {
                assert(sortedv.skip(files_in_dir@.len() as int) =~= Seq::<Seq<char>>::empty());
            }
            let pack_name_str = {
                let tmp = SamplePack {
                    dir_path: dir_path.clone(),
                    samples: Vec::new(),
                    sample_dict: Vec::new(),
                };
                tmp.get_dir_path().to_owned()
            };
            let pack = SamplePack {
                dir_path,
                samples,
                sample_dict: sample_sorter.sample_map,
            };
            let ghost before = packs_view(packs@);
            // a repeated pack name replaces the earlier pack, as a keyed map
            let mut slot: Option<usize> = None;
            let mut s: usize = 0;
            proof {
                assert(before.skip(0) =~= before);
            }
            while s < packs.len()
                invariant_except_break
                    slot is None,
                invariant
                    s <= packs@.len(),
                    before == packs_view(packs@),
                    spec_pack_slot(before, pack_name_str@) == (match spec_pack_slot(
                        before.skip(s as int),
                        pack_name_str@,
                    ) {
                        Some(j) => Some(j + s),
                        None => None,
                    }),
                ensures
                    before == packs_view(packs@),
                    (match slot {
                        Some(j) => j < packs@.len() && spec_pack_slot(before, pack_name_str@)
                            == Some(j as int),
                        None => spec_pack_slot(before, pack_name_str@) is None,
                    }),
                decreases packs@.len() - s,
            {
                proof {
                    assert(before[s as int] == (packs@[s as int].0@, packs@[s as int].1@));
                    assert(before.skip(s as int)[0] == before[s as int]);
                    assert(before.skip(s as int).drop_first() =~= before.skip(s + 1));
                }
                if str_eq(packs[s].0.as_str(), pack_name_str.as_str()) {
                    slot = Some(s);
                    proof {
                        assert(spec_pack_slot(before, pack_name_str@) == Some(s as int));
                    }
                    break ;
                }
                s = s + 1;
            }
            match slot {
                Some(j) => {
                    packs.set(j, (pack_name_str, pack));
                    proof {
                        assert(packs_view(packs@) =~~= spec_put_pack(before, slotted_name(
                            &packs@[j as int].0@,
                        ), packs@[j as int].1@));
                    }
                },
                None => {
                    proof {
                        assert(before.skip(before.len() as int) =~= Seq::<
                            (Seq<char>, PackV),
                        >::empty());
                    }
                    packs.push((pack_name_str, pack));
                    proof {
                        assert(packs_view(packs@) =~~= before.push((
                            packs@.last().0@,
                            packs@.last().1@,
                        )));
                    }
                },
            }
            i = i + 1;
        }
        proof {
            assert(listing_view(listing@).skip(listing@.len() as int) =~= Seq::<
                (Seq<char>, Seq<Seq<char>>),
            >::empty());
        }
        SamplePackCollection { sample_packs: packs, counter }
    }

    /// The buffer a request resolves to, or nothing when the pack is
    /// unknown or empty.
    pub fn category_to_buf(&self, pack: &str, number: usize, category: Option<String>) -> (r:
        Option<i32>)
        ensures
            match spec_pack_slot(packs_view(self.sample_packs@), pack@) {
                Some(i) => {
                    let pv = packs_view(self.sample_packs@)[i].1;
                    if pv.samples.len() > 0 {
                        r == Some(
                            spec_category_to_buf(pv.samples, pv.dict, number as int, match category {
                                Some(c) => Some(c@),
                                None => None,
                            }) as i32,
                        )
                    } else {
                        r is None
                    }
                },
                None => r is None,
            },
    {
        let ghost entries = packs_view(self.sample_packs@);
        proof {
            assert(entries.skip(0) =~= entries);
        }
        let mut i: usize = 0;
        while i < self.sample_packs.len()
            invariant
                i <= self.sample_packs@.len(),
                entries == packs_view(self.sample_packs@),
                spec_pack_slot(entries, pack@) == (match spec_pack_slot(
                    entries.skip(i as int),
                    pack@,
                ) {
                    Some(j) => Some(j + i),
                    None => None,
                }),
            decreases self.sample_packs@.len() - i,
        {
            proof {
                assert(entries[i as int] == (self.sample_packs@[i as int].0@,
                    self.sample_packs@[i as int].1@));
                assert(entries.skip(i as int)[0] == entries[i as int]);
                assert(entries.skip(i as int).drop_first() =~= entries.skip(i + 1));
            }
            if str_eq(self.sample_packs[i].0.as_str(), pack) {
                let sp = &self.sample_packs[i].1;
                if sp.samples.len() == 0 {
                    return None;
                }
                return Some(sp.category_to_buf(number, category));
            }
            i = i + 1;
        }
        proof {
            assert(entries.skip(entries.len() as int) =~= Seq::<(Seq<char>, PackV)>::empty());
        }
        None
    }

    /// The whole boot-time buffer read script: every pack's script joined,
    /// then the line that reports the buffers loaded.
    pub fn as_buffer_load_scd(&self) -> (r: String)
        ensures
            r@ == spec_join(spec_all_load_scds(packs_view(self.sample_packs@)), "\n"@) + "\n"@
                + spec_server_socket_name() + ".sendMsg(\"/buffers_loaded\", \"ok\");"@,
    {
        let mut rows: Vec<String> = Vec::new();
        let mut i: usize = 0;
        proof {
            assert(packs_view(self.sample_packs@).subrange(0, 0) =~= Seq::<
                (Seq<char>, PackV),
            >::empty());
            assert(views_of(rows@) =~= spec_all_load_scds(packs_view(self.sample_packs@).subrange(
                0,
                0,
            )));
        }
        while i < self.sample_packs.len()
            invariant
                i <= self.sample_packs@.len(),
                views_of(rows@) == spec_all_load_scds(packs_view(self.sample_packs@).subrange(
                    0,
                    i as int,
                )),
            decreases self.sample_packs@.len() - i,
        {
            let ghost prior = views_of(rows@);
            rows.push(self.sample_packs[i].1.as_buffer_load_scd());
            proof {
                let pv = packs_view(self.sample_packs@);
                assert(pv[i as int] == (self.sample_packs@[i as int].0@,
                    self.sample_packs@[i as int].1@));
                let pre = pv.subrange(0, i as int);
                let ext = pv.subrange(0, i + 1);
                assert(ext.drop_last() =~= pre);
                assert(ext.last() == pv[i as int]);
                assert(views_of(rows@) =~= spec_all_load_scds(ext));
            }
            i = i + 1;
        }
        proof {
            let pv = packs_view(self.sample_packs@);
            assert(pv.subrange(0, pv.len() as int) =~= pv);
        }
        let mut out = crate::strutil::join_rows(&rows, "\n");
        out.append("\n");
        out.append(SERVER_OSC_SOCKET_NAME);
        out.append(".sendMsg(\"/buffers_loaded\", \"ok\");");
        out
    }

    /// Every pack's offline-render buffer rows, in pack order.
    pub fn as_nrt_buffer_load_rows(&self) -> (r: Vec<String>)
        ensures
            views_of(r@) == spec_all_nrt_rows(packs_view(self.sample_packs@)),
    {
        let mut out: Vec<String> = Vec::new();
        let mut i: usize = 0;
        proof {
            assert(packs_view(self.sample_packs@).subrange(0, 0) =~= Seq::<
                (Seq<char>, PackV),
            >::empty());
            assert(views_of(out@) =~= spec_all_nrt_rows(packs_view(self.sample_packs@).subrange(
                0,
                0,
            )));
        }
        while i < self.sample_packs.len()
            invariant
                i <= self.sample_packs@.len(),
                views_of(out@) == spec_all_nrt_rows(packs_view(self.sample_packs@).subrange(
                    0,
                    i as int,
                )),
            decreases self.sample_packs@.len() - i,
        {
            let ghost prior = views_of(out@);
            let mut rows = self.sample_packs[i].1.as_nrt_buffer_load_rows();
            let ghost rowsv = views_of(rows@);
            out.append(&mut rows);
            proof {
                let pv = packs_view(self.sample_packs@);
                assert(pv[i as int] == (self.sample_packs@[i as int].0@,
                    self.sample_packs@[i as int].1@));
                let pre = pv.subrange(0, i as int);
                let ext = pv.subrange(0, i + 1);
                assert(ext.drop_last() =~= pre);
                assert(ext.last() == pv[i as int]);
                assert(views_of(out@) =~= prior + rowsv);
                assert(views_of(out@) =~= spec_all_nrt_rows(ext));
            }
            i = i + 1;
        }
        proof {
            let pv = packs_view(self.sample_packs@);
            assert(pv.subrange(0, pv.len() as int) =~= pv);
        }
        out
    }
}

/// The name a replaced slot keeps, named for the proof.
spec fn slotted_name(s: &Seq<char>) -> Seq<char> {
    *s
}

} // verus!
