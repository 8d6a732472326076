//! Short links and the candidate generator: one random code drawn from the
//! alphabet, together with its exact numeric key.

use vstd::prelude::*;

use rand::Rng;

use crate::alphabet::{
    alphabet_byte, alphabet_byte_at, chars_of_bytes, code_key, is_alphabet_byte,
    lemma_alphabet_ascii, lemma_code_bytes_to_chars, lemma_pow256_increases, pow256, valid_code,
    valid_code_bytes, ALPHABET_LEN, CODE_LEN,
};
use crate::bank::{prior_sets, FilterBank};
use crate::builder::BatchBuilder;
use crate::codec::{batch_file_wf, encode_batch, file_code_chars, file_filter_set};
use crate::errors::CodeGenError;
use crate::filter::{MAX_FILTER_ITEMS, PPB_ONE};

verus! {

/// A code paired with the destination it routes to.
#[derive(Clone, Debug)]
pub struct ShortLink {
    pub slink: String,
    pub dest: String,
}

impl ShortLink {
    /// Pair a code with a destination.
    pub fn new(slink: String, dest: String) -> (r: ShortLink)
        ensures
            r.slink@ == slink@,
            r.dest@ == dest@,
    {
        ShortLink { slink, dest }
    }
}

/// Relies on `rand::thread_rng` and `Rng::gen_range` over `0..bound`: the
/// draw falls below `bound`; `gen_range` panics on an empty range, which is
/// excluded here.  Nothing more is assumed of the drawn value.
#[verifier::external_body]
fn random_index(bound: usize) -> (r: usize)
    requires
        0 < bound,
    ensures
        r < bound,
{
    rand::thread_rng().gen_range(0..bound)
}

/// Relies on `String::from_utf8`: bytes below 128 are valid UTF-8 and
/// decode to the characters with the same code points.
#[verifier::external_body]
pub(crate) fn ascii_to_string(bytes: Vec<u8>) -> (r: String)
    requires
        forall|i: int| 0 <= i < bytes@.len() ==> bytes@[i] < 128,
    ensures
        r@ == chars_of_bytes(bytes@),
{
    String::from_utf8(bytes).unwrap_or_default()
}

/// The code spelled by a sequence of alphabet indices, with its key.
pub fn code_from_indices(indices: &Vec<usize>) -> (r: (String, u64))
    requires
        indices@.len() == CODE_LEN,
        forall|i: int| 0 <= i < indices@.len() ==> indices@[i] < ALPHABET_LEN,
    ensures
        r.0@ == Seq::new(CODE_LEN as nat, |i: int| alphabet_byte_at(indices@[i] as int) as char),
        valid_code(r.0@),
        r.1 as int == code_key(r.0@),
{
    let mut bytes: Vec<u8> = Vec::new();
    let mut key: u64 = 0;
    let mut i: usize = 0;
    while i < CODE_LEN
        invariant
            i <= CODE_LEN,
            indices@.len() == CODE_LEN,
            forall|j: int| 0 <= j < indices@.len() ==> indices@[j] < ALPHABET_LEN,
            bytes@.len() == i,
            forall|j: int| 0 <= j < i ==> bytes@[j] == alphabet_byte_at(indices@[j] as int),
            key as int == code_key(chars_of_bytes(bytes@)),
            (key as int) < pow256(i as nat),
        decreases CODE_LEN - i,
    {
        let b = alphabet_byte(indices[i]);
        proof {
            lemma_alphabet_ascii(indices@[i as int] as int);
            assert(pow256((i + 1) as nat) == 256 * pow256(i as nat));
            reveal_with_fuel(pow256, 7);
            lemma_pow256_increases((i + 1) as nat, CODE_LEN as nat);
            assert(pow256(CODE_LEN as nat) == 0x1_0000_0000_0000);
        }
        let ghost old_bytes = bytes@;
        key = key * 256 + (b as u64);
        bytes.push(b);
        proof {
            let s = chars_of_bytes(bytes@);
            assert(s =~= chars_of_bytes(old_bytes).push(b as char));
            assert(s.drop_last() =~= chars_of_bytes(old_bytes));
            assert(s.last() as u8 == b);
        }
        i += 1;
    }
    proof {
        assert forall|j: int| 0 <= j < bytes@.len() implies is_alphabet_byte(bytes@[j]) by {
            assert(alphabet_byte_at(indices@[j] as int) == bytes@[j]);
        }
        assert(valid_code_bytes(bytes@));
        lemma_code_bytes_to_chars(bytes@);
        assert forall|j: int| 0 <= j < bytes@.len() implies bytes@[j] < 128 by {
            lemma_alphabet_ascii(indices@[j] as int);
        }
    }
    let text = ascii_to_string(bytes);
    proof {
        assert(text@ =~= Seq::new(
            CODE_LEN as nat,
            |i: int| alphabet_byte_at(indices@[i] as int) as char,
        ));
    }
    (text, key)
}

/// Draw one candidate code, uniformly at random, with its key.
pub fn generate_candidate() -> (r: (String, u64))
    ensures
        valid_code(r.0@),
        r.1 as int == code_key(r.0@),
{
    let mut indices: Vec<usize> = Vec::new();
    let mut i: usize = 0;
    while i < CODE_LEN
        invariant
            i <= CODE_LEN,
            indices@.len() == i,
            forall|j: int| 0 <= j < i ==> indices@[j] < ALPHABET_LEN,
        decreases CODE_LEN - i,
    {
        let idx = random_index(ALPHABET_LEN);
        indices.push(idx);
        i += 1;
    }
    code_from_indices(&indices)
}

/// Draw one random code: `CODE_LEN` characters, all from the alphabet.
pub fn generate_short_link() -> (r: String)
    ensures
        valid_code(r@),
{
    let (text, _key) = generate_candidate();
    text
}

/// One full generation run over in-memory file contents: load the filter
/// bank from the prior batch files (skipping undecodable ones), assemble a
/// batch of `target_count` fresh codes, and serialize it.  The caller reads
/// the prior files and writes the result; no partial batch is ever
/// returned.
pub fn generate_short_link_batch(
    prior_files: &Vec<Vec<u8>>,
    target_count: usize,
    fp_ppb: u64,
    max_attempts: u64,
) -> (r: Result<Vec<u8>, CodeGenError>)
    requires
        target_count as int <= MAX_FILTER_ITEMS as int,
        0 < fp_ppb < PPB_ONE,
    ensures
        r matches Ok(out) ==> {
            &&& batch_file_wf(out@)
            &&& file_code_chars(out@).len() == target_count
            &&& forall|i: int|
                0 <= i < target_count ==> valid_code(#[trigger] file_code_chars(out@)[i])
            &&& forall|i: int, j: int|
                0 <= i < j < target_count ==> file_code_chars(out@)[i] != file_code_chars(
                    out@,
                )[j]
            &&& forall|i: int|
                0 <= i < target_count ==> file_filter_set(out@).contains(
                    #[trigger] file_code_chars(out@)[i],
                )
            &&& forall|i: int, j: int|
                #![trigger prior_sets(prior_files@)[j].contains(file_code_chars(out@)[i])]
                0 <= i < target_count && 0 <= j < prior_sets(prior_files@).len()
                    ==> !prior_sets(prior_files@)[j].contains(file_code_chars(out@)[i])
        },
        r matches Err(e) ==> e == CodeGenError::AddressSpaceExhaustion || e
            == CodeGenError::FilterUnavailable,
{
    let bank = FilterBank::load_from_contents(prior_files);
    let batch = match BatchBuilder::build(target_count, &bank, fp_ppb, max_attempts) {
        Ok(b) => b,
        Err(e) => {
            return Err(e);
        },
    };
    let out = encode_batch(&batch);
    proof {
        assert forall|i: int| 0 <= i < target_count implies file_filter_set(out@).contains(
            #[trigger] file_code_chars(out@)[i],
        ) by {
            assert(batch.code_views().to_set().contains(batch.code_views()[i]));
        }
        assert forall|i: int, j: int|
            #![trigger prior_sets(prior_files@)[j].contains(file_code_chars(out@)[i])]
            0 <= i < target_count && 0 <= j < prior_sets(prior_files@).len()
            implies !prior_sets(prior_files@)[j].contains(file_code_chars(out@)[i]) by {
            assert(!bank.covers(batch.code_views()[i]));
        }
    }
    Ok(out)
}

} // verus!
