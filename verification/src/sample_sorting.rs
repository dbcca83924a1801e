//! Keyword-based sample categorization. A fixed table maps filename
//! keywords to short category codes; a sample lands in the first category
//! whose keywords match its name, compared without case.
use vstd::prelude::*;

use crate::samples::{Sample, SampleFileV, samples_file_view, clone_file_sample};
use crate::strutil::{contains_str, contains_sub, str_eq, to_ascii_lower, to_lower};

verus! {

/// Whether a keyword occurs in a name, both lowered.
pub open spec fn has_kw(name: Seq<char>, kw: Seq<char>) -> bool {
    contains_sub(to_lower(name), to_lower(kw))
}

/// Ghost image of a category rule.
pub struct CatV {
    pub key: Seq<char>,
    pub includes: Seq<Seq<char>>,
    pub excludes: Seq<Seq<char>>,
}

/// Views of a keyword list.
pub open spec fn strs_view(s: Seq<&str>) -> Seq<Seq<char>> {
    s.map_values(|x: &str| x@)
}

/// A rule accepts a name when some include keyword occurs in it and no
/// exclude keyword does.
pub open spec fn spec_accepts(c: CatV, name: Seq<char>) -> bool {
    (exists|i: int| 0 <= i < c.includes.len() && has_kw(name, #[trigger] c.includes[i])) && !(
    exists|i: int| 0 <= i < c.excludes.len() && has_kw(name, #[trigger] c.excludes[i]))
}

/// One category rule: its code and its include and exclude keywords.
pub struct SampleCategory<'a> {
    pub key: &'a str,
    pub includes: Vec<&'a str>,
    pub excludes: Vec<&'a str>,
}

impl<'a> View for SampleCategory<'a> {
    type V = CatV;

    open spec fn view(&self) -> CatV {
        CatV {
            key: self.key@,
            includes: strs_view(self.includes@),
            excludes: strs_view(self.excludes@),
        }
    }
}

/// Whether any keyword of the list occurs in the lowered name.
fn any_kw(kws: &Vec<&str>, lower_name: &str, ghost_name: Ghost<Seq<char>>) -> (r: bool)
    requires
        lower_name@ == to_lower(ghost_name@),
    ensures
        r == exists|i: int|
            0 <= i < strs_view(kws@).len() && has_kw(ghost_name@, #[trigger] strs_view(kws@)[i]),
{
    let mut i: usize = 0;
    while i < kws.len()
        invariant
            i <= kws@.len(),
            lower_name@ == to_lower(ghost_name@),
            forall|j: int| 0 <= j < i ==> !has_kw(ghost_name@, #[trigger] strs_view(kws@)[j]),
        decreases kws@.len() - i,
    {
        let kw = kws[i];
        let hit = if kw.unicode_len() == 0 {
            proof {
                assert(to_lower(kw@) =~= Seq::<char>::empty());
                assert(to_lower(ghost_name@).subrange(0, 0) =~= Seq::<char>::empty());
                assert(crate::strutil::is_sub_at(to_lower(ghost_name@), to_lower(kw@), 0));
            }
            true
        } else {
            let lkw = to_ascii_lower(kw);
            proof {
                assert(lkw@.len() == kw@.len());
            }
            contains_str(lower_name, lkw.as_str())
        };
        proof {
            assert(strs_view(kws@)[i as int] == kws@[i as int]@);
        }
        if hit {
            return true;
        }
        i = i + 1;
    }
    false
}

impl<'a> SampleCategory<'a> {
    /// Whether this rule accepts the sample name.
    pub fn accepts(&self, sample_name: &str) -> (r: bool)
        ensures
            r == spec_accepts(self@, sample_name@),
    {
        proof {
            assert(self@.includes == strs_view(self.includes@));
            assert(self@.excludes == strs_view(self.excludes@));
        }
        let lower_name = to_ascii_lower(sample_name);
        let inc = any_kw(&self.includes, lower_name.as_str(), Ghost(sample_name@));
        if !inc {
            return false;
        }
        let exc = any_kw(&self.excludes, lower_name.as_str(), Ghost(sample_name@));
        !exc
    }
}

/// The fixed categorization table, in rule order.
pub open spec fn spec_categories() -> Seq<CatV> {
    seq![
        CatV {
            key: "hh"@,
            includes: seq!["hat"@, "stick"@, "hh"@],
            excludes: Seq::<Seq<char>>::empty(),
        },
        CatV {
            key: "bd"@,
            includes: seq!["bass"@, "drum"@, "kick"@, "bd"@],
            excludes: seq!["crash"@],
        },
        CatV {
            key: "sh"@,
            includes: seq!["maraca"@, "shake"@, "tamb"@, "casta"@],
            excludes: Seq::<Seq<char>>::empty(),
        },
        CatV {
            key: "to"@,
            includes: seq!["tom"@, "conga"@, "block"@, "bongo"@],
            excludes: Seq::<Seq<char>>::empty(),
        },
        CatV {
            key: "sn"@,
            includes: seq!["snare"@, "clap"@, "sn"@, "sd"@],
            excludes: Seq::<Seq<char>>::empty(),
        },
        CatV {
            key: "cy"@,
            includes: seq!["cymbal"@, "crash"@, "ride"@],
            excludes: Seq::<Seq<char>>::empty(),
        },
        CatV {
            key: "be"@,
            includes: seq!["bell"@, "ring"@, "glass"@],
            excludes: Seq::<Seq<char>>::empty(),
        },
    ]
}

/// The key of the first rule that accepts the name; everything else is
/// miscellaneous.
pub open spec fn spec_first_accepting(cats: Seq<CatV>, name: Seq<char>) -> Seq<char>
    decreases cats.len(),
{
    if cats.len() == 0 {
        "mi"@
    } else if spec_accepts(cats[0], name) {
        cats[0].key
    } else {
        spec_first_accepting(cats.drop_first(), name)
    }
}

/// The category code a sample name falls under.
pub open spec fn spec_sample_category(name: Seq<char>) -> Seq<char> {
    spec_first_accepting(spec_categories(), name)
}

/// The categorization table, one rule per predetermined category.
fn categories() -> (r: Vec<SampleCategory<'static>>)
    ensures
        r@.map_values(|c: SampleCategory<'static>| c@) == spec_categories(),
{
    let out = vec![
        SampleCategory { key: "hh", includes: vec!["hat", "stick", "hh"], excludes: Vec::new() },
        SampleCategory {
            key: "bd",
            includes: vec!["bass", "drum", "kick", "bd"],
            excludes: vec!["crash"],
        },
        SampleCategory {
            key: "sh",
            includes: vec!["maraca", "shake", "tamb", "casta"],
            excludes: Vec::new(),
        },
        SampleCategory {
            key: "to",
            includes: vec!["tom", "conga", "block", "bongo"],
            excludes: Vec::new(),
        },
        SampleCategory {
            key: "sn",
            includes: vec!["snare", "clap", "sn", "sd"],
            excludes: Vec::new(),
        },
        SampleCategory {
            key: "cy",
            includes: vec!["cymbal", "crash", "ride"],
            excludes: Vec::new(),
        },
        SampleCategory {
            key: "be",
            includes: vec!["bell", "ring", "glass"],
            excludes: Vec::new(),
        },
    ];
    proof {
        assert forall|i: int| 0 <= i < out@.len() implies out@[i]@ == spec_categories()[i] by {
            assert(strs_view(out@[0].includes@) =~= seq!["hat"@, "stick"@, "hh"@]);
            assert(strs_view(out@[0].excludes@) =~= Seq::<Seq<char>>::empty());
            assert(strs_view(out@[1].includes@) =~= seq!["bass"@, "drum"@, "kick"@, "bd"@]);
            assert(strs_view(out@[1].excludes@) =~= seq!["crash"@]);
            assert(strs_view(out@[2].includes@) =~= seq!["maraca"@, "shake"@, "tamb"@, "casta"@]);
            assert(strs_view(out@[2].excludes@) =~= Seq::<Seq<char>>::empty());
            assert(strs_view(out@[3].includes@) =~= seq!["tom"@, "conga"@, "block"@, "bongo"@]);
            assert(strs_view(out@[3].excludes@) =~= Seq::<Seq<char>>::empty());
            assert(strs_view(out@[4].includes@) =~= seq!["snare"@, "clap"@, "sn"@, "sd"@]);
            assert(strs_view(out@[4].excludes@) =~= Seq::<Seq<char>>::empty());
            assert(strs_view(out@[5].includes@) =~= seq!["cymbal"@, "crash"@, "ride"@]);
            assert(strs_view(out@[5].excludes@) =~= Seq::<Seq<char>>::empty());
            assert(strs_view(out@[6].includes@) =~= seq!["bell"@, "ring"@, "glass"@]);
            assert(strs_view(out@[6].excludes@) =~= Seq::<Seq<char>>::empty());
        }
        assert(out@.map_values(|c: SampleCategory<'static>| c@) =~= spec_categories());
    }
    out
}

/// The predetermined category code for a sample file name.
pub fn get_sample_category(filename: &str) -> (r: String)
    ensures
        r@ == spec_sample_category(filename@),
{
    let cats = categories();
    let ghost cv = cats@.map_values(|c: SampleCategory<'static>| c@);
    proof {
        assert(cv.skip(0) =~= cv);
    }
    let mut i: usize = 0;
    while i < cats.len()
        invariant
            i <= cats@.len(),
            cv == cats@.map_values(|c: SampleCategory<'static>| c@),
            cv == spec_categories(),
            spec_first_accepting(cv, filename@) == spec_first_accepting(
                cv.skip(i as int),
                filename@,
            ),
        decreases cats@.len() - i,
    {
        proof {
            assert(cv[i as int] == cats@[i as int]@);
            assert(cv.skip(i as int)[0] == cv[i as int]);
            assert(cv.skip(i as int).drop_first() =~= cv.skip(i + 1));
        }
        if cats[i].accepts(filename) {
            return cats[i].key.to_owned();
        }
        i = i + 1;
    }
    proof {
        assert(cv.skip(cv.len() as int) =~= Seq::<CatV>::empty());
    }
    "mi".to_owned()
}

/// Samples grouped by their predetermined category code.
pub struct SampleCategoryDict {
    pub sample_map: Vec<(String, Vec<Sample>)>,
}

/// Ghost image of the category map.
pub open spec fn cat_map_view(m: Seq<(String, Vec<Sample>)>) -> Seq<(Seq<char>, Seq<SampleFileV>)> {
    m.map_values(|e: (String, Vec<Sample>)| (e.0@, samples_file_view(e.1@)))
}

/// The position of a category code in the map.
pub open spec fn spec_cat_index(m: Seq<(Seq<char>, Seq<SampleFileV>)>, key: Seq<char>) -> Option<
    int,
>
    decreases m.len(),
{
    if m.len() == 0 {
        None
    } else if m[0].0 == key {
        Some(0)
    } else {
        match spec_cat_index(m.drop_first(), key) {
            Some(i) => Some(i + 1),
            None => None,
        }
    }
}

/// The map after one sample is filed under its category.
pub open spec fn spec_cat_add(m: Seq<(Seq<char>, Seq<SampleFileV>)>, s: SampleFileV) -> Seq<
    (Seq<char>, Seq<SampleFileV>),
> {
    let key = spec_sample_category(s.file_name);
    match spec_cat_index(m, key) {
        Some(i) => m.update(i, (m[i].0, m[i].1.push(s))),
        None => m.push((key, seq![s])),
    }
}

impl SampleCategoryDict {
    /// File one sample under its category code.
    pub fn add(&mut self, sample: Sample)
        ensures
            cat_map_view(final(self).sample_map@) == spec_cat_add(
                cat_map_view(old(self).sample_map@),
                sample@,
            ),
    {
        let ghost m0 = cat_map_view(self.sample_map@);
        let key = get_sample_category(sample.file_name.as_str());
        proof {
            assert(m0.skip(0) =~= m0);
        }
        let mut i: usize = 0;
        while i < self.sample_map.len()
            invariant
                i <= self.sample_map@.len(),
                self == old(self),
                key@ == spec_sample_category(sample.file_name@),
                m0 == cat_map_view(self.sample_map@),
                spec_cat_index(m0, key@) == (match spec_cat_index(m0.skip(i as int), key@) {
                    Some(j) => Some(j + i),
                    None => None,
                }),
            decreases self.sample_map@.len() - i,
        {
            proof {
                assert(m0[i as int] == (self.sample_map@[i as int].0@, samples_file_view(
                    self.sample_map@[i as int].1@,
                )));
                assert(m0.skip(i as int)[0] == m0[i as int]);
                assert(m0.skip(i as int).drop_first() =~= m0.skip(i + 1));
            }
            if str_eq(self.sample_map[i].0.as_str(), key.as_str()) {
                let ghost prior = samples_file_view(self.sample_map@[i as int].1@);
                let entry_name = self.sample_map[i].0.clone();
                let mut entry_list = Vec::new();
                let old_len = self.sample_map[i].1.len();
                let mut k: usize = 0;
                while k < old_len
                    invariant
                        k <= old_len,
                        i < self.sample_map@.len(),
                        old_len == self.sample_map@[i as int].1@.len(),
                        samples_file_view(entry_list@) == samples_file_view(
                            self.sample_map@[i as int].1@,
                        ).subrange(0, k as int),
                    decreases old_len - k,
                {
                    let ghost prior2 = samples_file_view(entry_list@);
                    entry_list.push(clone_file_sample(&self.sample_map[i].1[k]));
                    proof {
                        assert(samples_file_view(entry_list@) =~= prior2.push(
                            self.sample_map@[i as int].1@[k as int]@,
                        ));
                        assert(samples_file_view(self.sample_map@[i as int].1@)[k as int]
                            == self.sample_map@[i as int].1@[k as int]@);
                        assert(samples_file_view(self.sample_map@[i as int].1@).subrange(0, k + 1)
                            =~= samples_file_view(self.sample_map@[i as int].1@).subrange(
                            0,
                            k as int,
                        ).push(self.sample_map@[i as int].1@[k as int]@));
                    }
                    k = k + 1;
                }
                proof {
                    assert(samples_file_view(self.sample_map@[i as int].1@).subrange(
                        0,
                        old_len as int,
                    ) =~= samples_file_view(self.sample_map@[i as int].1@));
                }
                entry_list.push(sample);
                self.sample_map.set(i, (entry_name, entry_list));
                proof {
                    assert(cat_map_view(self.sample_map@) =~~= m0.update(
                        i as int,
                        (m0[i as int].0, prior.push(sample@)),
                    ));
                }
                return ;
            }
            i = i + 1;
        }
        proof {
            assert(m0.skip(m0.len() as int) =~= Seq::<(Seq<char>, Seq<SampleFileV>)>::empty());
        }
        let mut fresh: Vec<Sample> = Vec::new();
        fresh.push(sample);
        self.sample_map.push((key, fresh));
        proof {
            assert(samples_file_view(fresh_view(&self.sample_map@.last().1@)) =~= seq![
                sample@,
            ]);
            assert(cat_map_view(self.sample_map@) =~~= m0.push((spec_sample_category(
                sample.file_name@,
            ), seq![sample@])));
        }
    }
}

/// The freshly pushed sample list, named for the proof.
spec fn fresh_view(s: &Seq<Sample>) -> Seq<Sample> {
    *s
}

} // verus!
