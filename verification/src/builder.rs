//! The batch builder: the accept/reject loop at the core of generation.
//!
//! Candidates are drawn at random; a candidate that any historical filter
//! may have seen is rejected, a candidate equal to one already accepted in
//! this run is rejected exactly, and every other candidate is accepted
//! into the batch's own set and filter, until the target count is reached
//! or the attempt budget runs out.

use vstd::prelude::*;

use std::collections::HashSet;

use crate::alphabet::{code_key, valid_code};
use crate::bank::FilterBank;
use crate::errors::CodeGenError;
use crate::filter::{MembershipFilter, MAX_FILTER_ITEMS, PPB_ONE};
use crate::short_link::generate_candidate;

verus! {

broadcast use vstd::std_specs::hash::group_hash_axioms;

/// Appending one element to a sequence inserts it into the sequence's set.
proof fn lemma_to_set_push<A>(s: Seq<A>, x: A)
    ensures
        s.push(x).to_set() == s.to_set().insert(x),
{
    assert forall|a: A| s.push(x).to_set().contains(a) implies s.to_set().insert(x).contains(
        a,
    ) by {
        let i = choose|i: int| 0 <= i < s.push(x).len() && s.push(x)[i] == a;
        if i < s.len() {
            assert(s[i] == a);
        }
    }
    assert forall|a: A| s.to_set().insert(x).contains(a) implies s.push(x).to_set().contains(
        a,
    ) by {
        if a == x {
            assert(s.push(x)[s.len() as int] == a);
        } else {
            let i = choose|i: int| 0 <= i < s.len() && s[i] == a;
            assert(s.push(x)[i] == a);
        }
    }
    assert(s.push(x).to_set() =~= s.to_set().insert(x));
}

/// One completed generation run: the accepted codes, and the membership
/// filter built over exactly those codes.
pub struct Batch {
    pub filter: MembershipFilter,
    pub codes: Vec<String>,
}

impl Batch {
    /// The accepted codes, in acceptance order.
    pub open spec fn code_views(self) -> Seq<Seq<char>> {
        self.codes@.map_values(|s: String| s@)
    }

    /// A well-formed batch: a usable filter, valid pairwise-distinct
    /// codes, and the filter's set is exactly the accepted codes.
    pub open spec fn wf(self) -> bool {
        &&& self.filter.wf()
        &&& forall|i: int|
            0 <= i < self.code_views().len() ==> valid_code(#[trigger] self.code_views()[i])
        &&& forall|i: int, j: int|
            0 <= i < j < self.code_views().len() ==> self.code_views()[i]
                != self.code_views()[j]
        &&& self.filter@ == self.code_views().to_set()
    }
}

/// The generation loop.
pub struct BatchBuilder {}

impl BatchBuilder {
    /// Assemble one batch of `target_count` codes, none of which any
    /// filter of `bank` holds, at false-positive rate `fp_ppb` parts per
    /// billion, giving up after `max_attempts` drawn candidates.
    pub fn build(
        target_count: usize,
        bank: &FilterBank,
        fp_ppb: u64,
        max_attempts: u64,
    ) -> (r: Result<Batch, CodeGenError>)
        requires
            bank.wf(),
            target_count as int <= MAX_FILTER_ITEMS as int,
            0 < fp_ppb < PPB_ONE,
        ensures
            r matches Ok(b) ==> {
                &&& b.wf()
                &&& b.code_views().len() == target_count
                &&& forall|i: int|
                    0 <= i < b.code_views().len() ==> !bank.covers(
                        #[trigger] b.code_views()[i],
                    )
            },
            r matches Err(e) ==> e == CodeGenError::AddressSpaceExhaustion || e
                == CodeGenError::FilterUnavailable,
    {
        let sized_for: usize = if target_count == 0 {
            1
        } else {
            target_count
        };
        let mut filter = match MembershipFilter::new(sized_for, fp_ppb) {
            Some(f) => f,
            None => {
                return Err(CodeGenError::FilterUnavailable);
            },
        };
        let mut codes: Vec<String> = Vec::new();
        let mut seen: HashSet<u64> = HashSet::new();
        let mut attempts: u64 = 0;
        proof {
            assert(codes@.map_values(|s: String| s@).to_set() =~= Set::<Seq<char>>::empty());
        }
        while codes.len() < target_count
            invariant
                bank.wf(),
                filter.wf(),
                attempts <= max_attempts,
                codes@.len() <= target_count,
                forall|i: int|
                    0 <= i < codes@.len() ==> valid_code(#[trigger] codes@[i]@),
                forall|i: int|
                    0 <= i < codes@.len() ==> seen@.contains(
                        (code_key(#[trigger] codes@[i]@) as u64),
                    ),
                forall|i: int, j: int| 0 <= i < j < codes@.len() ==> codes@[i]@ != codes@[j]@,
                forall|i: int| 0 <= i < codes@.len() ==> !bank.covers(#[trigger] codes@[i]@),
                filter@ == codes@.map_values(|s: String| s@).to_set(),
            decreases max_attempts - attempts,
        {
            if attempts >= max_attempts {
                return Err(CodeGenError::AddressSpaceExhaustion);
            }
            attempts = attempts + 1;
            let (text, key) = generate_candidate();
            if bank.possibly_contains(&text) {
                continue ;
            }
            let ghost old_seen = seen@;
            if seen.contains(&key) {
                continue ;
            }
            let ghost old_codes = codes@;
            let _newly = seen.insert(key);
            filter.insert(&text);
            codes.push(text);
            proof {
                assert forall|i: int| 0 <= i < old_codes.len() implies old_codes[i]@
                    != text@ by {
                    if old_codes[i]@ == text@ {
                        assert(old_seen.contains((code_key(old_codes[i]@) as u64)));
                        assert((code_key(old_codes[i]@) as u64) == key);
                        assert(false);
                    }
                }
                assert(codes@.map_values(|s: String| s@) =~= old_codes.map_values(
                    |s: String| s@,
                ).push(text@));
                lemma_to_set_push(old_codes.map_values(|s: String| s@), text@);
            }
        }
        Ok(Batch { filter, codes })
    }
}

} // verus!
