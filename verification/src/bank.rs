//! The filter bank: every membership filter recovered from previously
//! persisted batch files, queried as one union.
//!
//! Loading is availability-over-strictness: a file that does not decode is
//! skipped and counted, never fatal, so a corrupt history file cannot block
//! new generation.

use vstd::prelude::*;

use crate::codec::{decode_filter, file_filter_set, filter_section_wf};
use crate::filter::MembershipFilter;

verus! {

/// The code sets of the filters that a list of file contents yields: one
/// set per file whose filter section decodes, in file order.
pub open spec fn loaded_sets(files: Seq<Seq<u8>>) -> Seq<Set<Seq<char>>>
    decreases files.len(),
{
    if files.len() == 0 {
        Seq::empty()
    } else {
        let head = if filter_section_wf(files.first()) {
            seq![file_filter_set(files.first())]
        } else {
            Seq::empty()
        };
        head + loaded_sets(files.drop_first())
    }
}

proof fn lemma_loaded_sets_push(files: Seq<Seq<u8>>, f: Seq<u8>)
    ensures
        loaded_sets(files.push(f)) == loaded_sets(files) + (if filter_section_wf(f) {
            seq![file_filter_set(f)]
        } else {
            Seq::<Set<Seq<char>>>::empty()
        }),
    decreases files.len(),
{
    let tail = if filter_section_wf(f) {
        seq![file_filter_set(f)]
    } else {
        Seq::<Set<Seq<char>>>::empty()
    };
    if files.len() == 0 {
        assert(files.push(f).first() == f);
        assert(files.push(f).drop_first() =~= Seq::<Seq<u8>>::empty());
        assert(loaded_sets(files.push(f)) =~= tail + loaded_sets(Seq::<Seq<u8>>::empty()));
        assert(loaded_sets(files.push(f)) =~= loaded_sets(files) + tail);
    } else {
        assert(files.push(f).first() == files.first());
        assert(files.push(f).drop_first() =~= files.drop_first().push(f));
        lemma_loaded_sets_push(files.drop_first(), f);
        assert(loaded_sets(files.push(f)) =~= loaded_sets(files) + tail);
    }
}

/// The code sets a bank would load from these file contents.
pub open spec fn prior_sets(files: Seq<Vec<u8>>) -> Seq<Set<Seq<char>>> {
    loaded_sets(files.map_values(|v: Vec<u8>| v@))
}

/// The filters loaded from prior batch files, with a count of the files
/// that were skipped as undecodable.
pub struct FilterBank {
    filters: Vec<MembershipFilter>,
    skipped: usize,
}

impl FilterBank {
    /// The loaded filters' code sets, in load order.
    pub closed spec fn filter_views(self) -> Seq<Set<Seq<char>>> {
        self.filters@.map_values(|f: MembershipFilter| f@)
    }

    /// How many files were skipped as undecodable.
    pub closed spec fn spec_skipped(self) -> int {
        self.skipped as int
    }

    pub closed spec fn wf(self) -> bool {
        forall|i: int| 0 <= i < self.filters@.len() ==> (#[trigger] self.filters@[i]).wf()
    }

    /// Some loaded filter's set holds the code.
    pub open spec fn covers(self, code: Seq<char>) -> bool {
        exists|i: int|
            0 <= i < self.filter_views().len() && (#[trigger] self.filter_views()[i]).contains(
                code,
            )
    }

    /// A bank with no history.
    pub fn empty() -> (r: FilterBank)
        ensures
            r.wf(),
            r.filter_views() == Seq::<Set<Seq<char>>>::empty(),
            r.spec_skipped() == 0,
    {
        let r = FilterBank { filters: Vec::new(), skipped: 0 };
        proof {
            assert(r.filter_views() =~= Seq::<Set<Seq<char>>>::empty());
        }
        r
    }

    /// Load a bank from the contents of the discovered batch files.  Every
    /// file whose filter section decodes contributes its filter; every
    /// other file is skipped and counted.
    pub fn load_from_contents(files: &Vec<Vec<u8>>) -> (r: FilterBank)
        ensures
            r.wf(),
            r.filter_views() == loaded_sets(files@.map_values(|v: Vec<u8>| v@)),
            r.spec_skipped() == files@.len() - r.filter_views().len(),
    {
        let ghost contents = files@.map_values(|v: Vec<u8>| v@);
        let mut filters: Vec<MembershipFilter> = Vec::new();
        let mut skipped: usize = 0;
        let mut i: usize = 0;
        proof {
            assert(filters@.map_values(|f: MembershipFilter| f@) =~= loaded_sets(
                contents.take(0),
            ));
        }
        while i < files.len()
            invariant
                i <= files@.len(),
                contents == files@.map_values(|v: Vec<u8>| v@),
                forall|j: int| 0 <= j < filters@.len() ==> (#[trigger] filters@[j]).wf(),
                filters@.map_values(|f: MembershipFilter| f@) == loaded_sets(
                    contents.take(i as int),
                ),
                skipped as int == i - filters@.len(),
            decreases files@.len() - i,
        {
            let ghost prefix = contents.take(i as int);
            let ghost views = filters@.map_values(|f: MembershipFilter| f@);
            proof {
                assert(contents.take(i + 1) =~= prefix.push(contents[i as int]));
                lemma_loaded_sets_push(prefix, contents[i as int]);
            }
            match decode_filter(files[i].as_slice()) {
                Ok(f) => {
                    filters.push(f);
                    proof {
                        assert(filters@.map_values(|f: MembershipFilter| f@) =~= views.push(
                            file_filter_set(contents[i as int]),
                        ));
                    }
                },
                Err(_) => {
                    skipped = skipped + 1;
                    proof {
                        assert(loaded_sets(contents.take(i + 1)) =~= views);
                    }
                },
            }
            i += 1;
        }
        proof {
            assert(contents.take(files@.len() as int) =~= contents);
        }
        FilterBank { filters, skipped }
    }

    /// How many filters were loaded.
    pub fn loaded_count(&self) -> (n: usize)
        ensures
            n == self.filter_views().len(),
    {
        self.filters.len()
    }

    /// How many files were skipped as undecodable.
    pub fn skipped_count(&self) -> (n: usize)
        ensures
            n as int == self.spec_skipped(),
    {
        self.skipped
    }

    /// Whether the code may have been produced by an earlier run: `true`
    /// whenever any loaded filter holds it, and possibly — with bounded
    /// probability — for other codes.
    pub fn possibly_contains(&self, code: &String) -> (r: bool)
        requires
            self.wf(),
        ensures
            self.covers(code@) ==> r,
    {
        let mut i: usize = 0;
        while i < self.filters.len()
            invariant
                self.wf(),
                i <= self.filters@.len(),
                forall|j: int|
                    0 <= j < i ==> !(#[trigger] self.filter_views()[j]).contains(code@),
            decreases self.filters@.len() - i,
        {
            if self.filters[i].check(code) {
                return true;
            }
            i += 1;
        }
        false
    }
}

} // verus!
