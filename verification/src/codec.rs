//! The batch file codec.
//!
//! A persisted batch file holds, in order: an eight-byte little-endian
//! length `L`, then `L` bytes of serialized membership filter, then the
//! codes as text, one per line, each line closed by a newline byte.
//! Decoding reads the filter alone, or the full batch; any malformed input
//! is reported as a corrupt batch file.

use vstd::prelude::*;

use vstd::bytes::{
    lemma_auto_spec_u64_to_from_le_bytes, spec_u64_from_le_bytes, spec_u64_to_le_bytes,
    spec_u64_to_le_bytes_open, spec_u64_to_le_bytes_to_open,
};
use vstd::slice::slice_subrange;

use crate::alphabet::{
    byte_in_alphabet, bytes_of_chars, chars_of_bytes, is_alphabet_byte, lemma_alphabet_no_newline,
    lemma_code_bytes_ascii, lemma_code_bytes_to_chars, lemma_code_chars_to_bytes,
    lemma_valid_code_is_ascii, valid_code, valid_code_bytes, CODE_LEN,
};
use crate::builder::Batch;
use crate::errors::CodeGenError;
use crate::filter::{decoded_filter, MembershipFilter};
use crate::short_link::ascii_to_string;
use vstd::slice::slice_to_vec;

verus! {

/// The length prefix of a batch file: the byte count of the filter blob.
pub open spec fn file_len(bytes: Seq<u8>) -> int
    recommends
        bytes.len() >= 8,
{
    spec_u64_from_le_bytes(bytes.subrange(0, 8)) as int
}

/// The filter blob of a batch file.
pub open spec fn filter_blob(bytes: Seq<u8>) -> Seq<u8> {
    bytes.subrange(8, 8 + file_len(bytes))
}

/// The remainder of a batch file: the code lines.
pub open spec fn code_region(bytes: Seq<u8>) -> Seq<u8> {
    bytes.subrange(8 + file_len(bytes), bytes.len() as int)
}

/// The filter section parses: the length prefix fits, and the blob is a
/// well-formed serialized filter with a nonempty bitmap.
pub open spec fn filter_section_wf(bytes: Seq<u8>) -> bool {
    &&& bytes.len() >= 8
    &&& 8 + file_len(bytes) <= bytes.len()
    &&& (decoded_filter(filter_blob(bytes)) matches Some(d) && d.1 > 0)
}

/// The code set of the filter a batch file carries.
pub open spec fn file_filter_set(bytes: Seq<u8>) -> Set<Seq<char>> {
    decoded_filter(filter_blob(bytes)).unwrap().0
}

/// Append a slice to a byte vector.
fn push_bytes(out: &mut Vec<u8>, src: &[u8])
    ensures
        final(out)@ == old(out)@ + src@,
{
    let mut i: usize = 0;
    while i < src.len()
        invariant
            i <= src@.len(),
            out@ == old(out)@ + src@.subrange(0, i as int),
        decreases src@.len() - i,
    {
        let b = src[i];
        out.push(b);
        proof {
            assert(out@ =~= old(out)@ + src@.subrange(0, i + 1));
        }
        i += 1;
    }
    proof {
        assert(out@ =~= old(out)@ + src@);
    }
}

/// Append the little-endian encoding of `v`.
fn push_u64_le(out: &mut Vec<u8>, v: u64)
    ensures
        final(out)@ == old(out)@ + spec_u64_to_le_bytes(v),
{
    out.push((v & 0xff) as u8);
    out.push(((v >> 8) & 0xff) as u8);
    out.push(((v >> 16) & 0xff) as u8);
    out.push(((v >> 24) & 0xff) as u8);
    out.push(((v >> 32) & 0xff) as u8);
    out.push(((v >> 40) & 0xff) as u8);
    out.push(((v >> 48) & 0xff) as u8);
    out.push(((v >> 56) & 0xff) as u8);
    proof {
        spec_u64_to_le_bytes_to_open(v);
        assert(out@ =~= old(out)@ + spec_u64_to_le_bytes_open(v));
    }
}

/// Read the little-endian value of the first eight bytes.
fn read_u64_le(bytes: &[u8]) -> (r: u64)
    requires
        bytes@.len() >= 8,
    ensures
        spec_u64_to_le_bytes(r) == bytes@.subrange(0, 8),
        r as int == spec_u64_from_le_bytes(bytes@.subrange(0, 8)) as int,
{
    let b0 = bytes[0] as u64;
    let b1 = bytes[1] as u64;
    let b2 = bytes[2] as u64;
    let b3 = bytes[3] as u64;
    let b4 = bytes[4] as u64;
    let b5 = bytes[5] as u64;
    let b6 = bytes[6] as u64;
    let b7 = bytes[7] as u64;
    let x = b0 | (b1 << 8) | (b2 << 16) | (b3 << 24) | (b4 << 32) | (b5 << 40) | (b6 << 48) | (
    b7 << 56);
    proof {
        assert((x & 0xff) == b0 && ((x >> 8) & 0xff) == b1 && ((x >> 16) & 0xff) == b2 && ((x
            >> 24) & 0xff) == b3 && ((x >> 32) & 0xff) == b4 && ((x >> 40) & 0xff) == b5 && ((x
            >> 48) & 0xff) == b6 && ((x >> 56) & 0xff) == b7) by (bit_vector)
            requires
                x == b0 | (b1 << 8) | (b2 << 16) | (b3 << 24) | (b4 << 32) | (b5 << 40) | (b6
                    << 48) | (b7 << 56),
                b0 < 256,
                b1 < 256,
                b2 < 256,
                b3 < 256,
                b4 < 256,
                b5 < 256,
                b6 < 256,
                b7 < 256,
        ;
        spec_u64_to_le_bytes_to_open(x);
        assert(spec_u64_to_le_bytes(x) =~= bytes@.subrange(0, 8));
        lemma_auto_spec_u64_to_from_le_bytes();
    }
    x
}

/// Decode the membership filter of a batch file, ignoring the code lines,
/// as the filter bank does when it loads history.
pub fn decode_filter(bytes: &[u8]) -> (r: Result<MembershipFilter, CodeGenError>)
    ensures
        r is Ok <==> filter_section_wf(bytes@),
        r matches Ok(f) ==> f.wf() && f@ == file_filter_set(bytes@),
        r matches Err(e) ==> e == CodeGenError::CorruptBatchFile,
{
    if bytes.len() < 8 {
        return Err(CodeGenError::CorruptBatchFile);
    }
    let len64 = read_u64_le(bytes);
    if len64 > (bytes.len() - 8) as u64 {
        return Err(CodeGenError::CorruptBatchFile);
    }
    let len = len64 as usize;
    let blob = slice_subrange(bytes, 8, 8 + len);
    proof {
        assert(blob@ =~= filter_blob(bytes@));
    }
    match MembershipFilter::from_bytes(blob) {
        Some(f) => Ok(f),
        None => Err(CodeGenError::CorruptBatchFile),
    }
}

/// No byte of the line is the terminator.
pub open spec fn line_has_no_nl(l: Seq<u8>) -> bool {
    forall|j: int| 0 <= j < l.len() ==> l[j] != 10
}

/// Index of the first newline byte, or the length when there is none.
pub open spec fn first_nl(s: Seq<u8>) -> nat
    decreases s.len(),
{
    if s.len() == 0 {
        0
    } else if s.first() == 10 {
        0
    } else {
        1 + first_nl(s.drop_first())
    }
}

/// Where the bytes put their first newline, the model finds it.
proof fn lemma_first_nl_at(s: Seq<u8>, k: int)
    requires
        0 <= k <= s.len(),
        forall|j: int| 0 <= j < k ==> s[j] != 10,
        k < s.len() ==> s[k] == 10,
    ensures
        first_nl(s) == if k < s.len() {
            k
        } else {
            s.len() as int
        },
    decreases s.len(),
{
    if s.len() > 0 && k > 0 {
        lemma_first_nl_at(s.drop_first(), k - 1);
    }
}

/// The lines of a newline-terminated byte sequence, or nothing when the
/// last line is unterminated.
pub open spec fn split_lines(s: Seq<u8>) -> Option<Seq<Seq<u8>>>
    decreases s.len(),
{
    if s.len() == 0 {
        Some(Seq::empty())
    } else if first_nl(s) >= s.len() {
        None
    } else {
        match split_lines(s.subrange(first_nl(s) as int + 1, s.len() as int)) {
            Some(rest) => Some(seq![s.subrange(0, first_nl(s) as int)] + rest),
            None => None,
        }
    }
}

/// One line per code, each closed by a newline.
pub open spec fn join_lines(lines: Seq<Seq<u8>>) -> Seq<u8>
    decreases lines.len(),
{
    if lines.len() == 0 {
        Seq::empty()
    } else {
        lines.first() + seq![10u8] + join_lines(lines.drop_first())
    }
}

proof fn lemma_join_push(lines: Seq<Seq<u8>>, l: Seq<u8>)
    ensures
        join_lines(lines.push(l)) == join_lines(lines) + l + seq![10u8],
    decreases lines.len(),
{
    reveal_with_fuel(join_lines, 3);
    if lines.len() == 0 {
        assert(lines.push(l).first() == l);
        assert(lines.push(l).drop_first() =~= Seq::<Seq<u8>>::empty());
        assert(join_lines(lines.push(l)) =~= join_lines(lines) + l + seq![10u8]);
    } else {
        assert(lines.push(l).first() == lines.first());
        assert(lines.push(l).drop_first() =~= lines.drop_first().push(l));
        lemma_join_push(lines.drop_first(), l);
        assert(join_lines(lines.push(l)) =~= join_lines(lines) + l + seq![10u8]);
    }
}

/// Joining lines free of newline bytes, then splitting, gives them back.
pub proof fn lemma_split_join(lines: Seq<Seq<u8>>)
    requires
        forall|i: int| 0 <= i < lines.len() ==> line_has_no_nl(#[trigger] lines[i]),
    ensures
        split_lines(join_lines(lines)) == Some(lines),
    decreases lines.len(),
{
    if lines.len() == 0 {
        assert(lines =~= Seq::<Seq<u8>>::empty());
    } else {
        let a = lines.first();
        let rest = join_lines(lines.drop_first());
        let s = join_lines(lines);
        assert(s == a + seq![10u8] + rest);
        assert forall|j: int| 0 <= j < a.len() implies s[j] != 10 by {
            assert(s[j] == a[j]);
        }
        assert(s[a.len() as int] == 10);
        lemma_first_nl_at(s, a.len() as int);
        assert(s.subrange(0, a.len() as int) =~= a);
        assert(s.subrange(a.len() as int + 1, s.len() as int) =~= rest);
        lemma_split_join(lines.drop_first());
        assert(seq![a] + lines.drop_first() =~= lines);
    }
}

/// The code lines of a batch file.
pub open spec fn file_code_lines(bytes: Seq<u8>) -> Seq<Seq<u8>> {
    split_lines(code_region(bytes)).unwrap()
}

/// The code lines of a batch file, as character sequences.
pub open spec fn file_code_chars(bytes: Seq<u8>) -> Seq<Seq<char>> {
    file_code_lines(bytes).map_values(|l: Seq<u8>| chars_of_bytes(l))
}

/// Every section of a batch file parses and every code line is a valid
/// code.
pub open spec fn batch_file_wf(bytes: Seq<u8>) -> bool {
    &&& filter_section_wf(bytes)
    &&& split_lines(code_region(bytes)) is Some
    &&& forall|i: int|
        0 <= i < file_code_lines(bytes).len() ==> valid_code_bytes(
            #[trigger] file_code_lines(bytes)[i],
        )
}

/// Serialize a batch: the filter blob behind its length prefix, then the
/// codes, one per line.  The encoding parses back to the batch's filter
/// set and code list.
pub fn encode_batch(batch: &Batch) -> (r: Vec<u8>)
    requires
        batch.wf(),
    ensures
        batch_file_wf(r@),
        file_filter_set(r@) == batch.filter@,
        file_code_chars(r@) == batch.code_views(),
{
    let blob: Vec<u8> = batch.filter.to_bytes();
    let mut out: Vec<u8> = Vec::new();
    push_u64_le(&mut out, blob.len() as u64);
    push_bytes(&mut out, blob.as_slice());
    let ghost header = out@;
    let ghost lines = batch.codes@.map_values(|s: String| bytes_of_chars(s@));
    proof {
        assert(lines.take(0) =~= Seq::<Seq<u8>>::empty());
    }
    let mut i: usize = 0;
    while i < batch.codes.len()
        invariant
            batch.wf(),
            i <= batch.codes@.len(),
            lines == batch.codes@.map_values(|s: String| bytes_of_chars(s@)),
            header == spec_u64_to_le_bytes(blob@.len() as u64) + blob@,
            decoded_filter(blob@) == Some((batch.filter@, decoded_filter(blob@).unwrap().1)),
            decoded_filter(blob@).unwrap().1 > 0,
            out@ == header + join_lines(lines.take(i as int)),
        decreases batch.codes@.len() - i,
    {
        let code: &String = &batch.codes[i];
        proof {
            assert(batch.code_views()[i as int] == code@);
            lemma_valid_code_is_ascii(code@);
            broadcast use vstd::string::is_ascii_spec_bytes;
            vstd::utf8::is_ascii_chars_encode_utf8(code@);
        }
        let bs = code.as_str().as_bytes();
        proof {
            assert(bs@ =~= bytes_of_chars(code@));
        }
        push_bytes(&mut out, bs);
        out.push(10u8);
        proof {
            lemma_join_push(lines.take(i as int), bytes_of_chars(code@));
            assert(lines.take(i + 1) =~= lines.take(i as int).push(bytes_of_chars(code@)));
            assert(out@ =~= header + join_lines(lines.take(i + 1)));
        }
        i += 1;
    }
    proof {
        assert(lines.take(batch.codes@.len() as int) =~= lines);
        lemma_auto_spec_u64_to_from_le_bytes();
        assert(out@.subrange(0, 8) =~= spec_u64_to_le_bytes(blob@.len() as u64));
        assert(file_len(out@) == blob@.len());
        assert(filter_blob(out@) =~= blob@);
        assert(code_region(out@) =~= join_lines(lines));
        assert forall|k: int| 0 <= k < lines.len() implies valid_code_bytes(
            #[trigger] lines[k],
        ) by {
            lemma_code_chars_to_bytes(batch.code_views()[k]);
        }
        assert forall|k: int| 0 <= k < lines.len() implies line_has_no_nl(
            #[trigger] lines[k],
        ) by {
            assert forall|j: int| 0 <= j < lines[k].len() implies lines[k][j] != 10 by {
                lemma_alphabet_no_newline(lines[k][j]);
            }
        }
        lemma_split_join(lines);
        assert(file_code_lines(out@) == lines);
        assert forall|k: int| 0 <= k < lines.len() implies file_code_chars(out@)[k]
            == batch.code_views()[k] by {
            lemma_code_chars_to_bytes(batch.code_views()[k]);
        }
        assert(file_code_chars(out@) =~= batch.code_views());
    }
    out
}

/// Deserialize a full batch: the filter, then every code line, each of
/// which must be a valid code on a terminated line.
pub fn decode_batch(bytes: &[u8]) -> (r: Result<Batch, CodeGenError>)
    ensures
        r is Ok <==> batch_file_wf(bytes@),
        r matches Ok(b) ==> {
            &&& b.filter.wf()
            &&& b.filter@ == file_filter_set(bytes@)
            &&& b.code_views() == file_code_chars(bytes@)
        },
        r matches Err(e) ==> e == CodeGenError::CorruptBatchFile,
{
    let filter = match decode_filter(bytes) {
        Ok(f) => f,
        Err(e) => {
            return Err(e);
        },
    };
    let total = bytes.len();
    let len64 = read_u64_le(bytes);
    proof {
        assert(len64 as int == file_len(bytes@));
        assert(8 + file_len(bytes@) <= total);
    }
    let start = 8 + (len64 as usize);
    let ghost region = code_region(bytes@);
    proof {
        assert(region =~= bytes@.subrange(start as int, bytes@.len() as int));
    }
    let mut codes: Vec<String> = Vec::new();
    let mut pos: usize = start;
    proof {
        assert(region.subrange(pos - start, region.len() as int) =~= region);
        assert(codes@.map_values(|s: String| bytes_of_chars(s@)) =~= Seq::<Seq<u8>>::empty());
    }
    while pos < bytes.len()
        invariant
            start <= pos <= bytes@.len(),
            start == 8 + file_len(bytes@),
            region == code_region(bytes@),
            region =~= bytes@.subrange(start as int, bytes@.len() as int),
            filter.wf(),
            filter_section_wf(bytes@),
            filter@ == file_filter_set(bytes@),
            forall|k: int| 0 <= k < codes@.len() ==> valid_code(#[trigger] codes@[k]@),
            match split_lines(region.subrange(pos - start, region.len() as int)) {
                Some(rest) => split_lines(region) == Some(
                    codes@.map_values(|s: String| bytes_of_chars(s@)) + rest,
                ),
                None => split_lines(region) is None,
            },
        decreases bytes@.len() - pos,
    {
        let ghost suffix = region.subrange(pos - start, region.len() as int);
        let mut j = pos;
        while j < bytes.len() && bytes[j] != 10
            invariant
                start <= pos <= j <= bytes@.len(),
                forall|m: int| pos <= m < j ==> bytes@[m] != 10,
            decreases bytes@.len() - j,
        {
            j += 1;
        }
        proof {
            assert forall|m: int| 0 <= m < j - pos implies suffix[m] != 10 by {
                assert(suffix[m] == bytes@[pos + m]);
            }
            if j < bytes@.len() {
                assert(suffix[j - pos] == bytes@[j as int]);
            }
            lemma_first_nl_at(suffix, j - pos);
        }
        if j == bytes.len() {
            proof {
                assert(first_nl(suffix) == suffix.len());
                assert(suffix.len() > 0);
                assert(split_lines(suffix) is None);
            }
            return Err(CodeGenError::CorruptBatchFile);
        }
        let ghost line = suffix.subrange(0, (j - pos) as int);
        let ghost tail = suffix.subrange(j - pos + 1, suffix.len() as int);
        proof {
            assert(first_nl(suffix) == j - pos);
            assert(suffix.len() > 0);
            assert(match split_lines(tail) {
                Some(rest) => split_lines(suffix) == Some(seq![line] + rest),
                None => split_lines(suffix) is None,
            });
            assert(tail =~= region.subrange(j + 1 - start, region.len() as int));
        }
        // validate the line as a code
        let mut ok = j - pos == CODE_LEN;
        let mut m = pos;
        while m < j && ok
            invariant
                pos <= m <= j <= bytes@.len(),
                line == suffix.subrange(0, (j - pos) as int),
                suffix == region.subrange(pos - start, region.len() as int),
                region =~= bytes@.subrange(start as int, bytes@.len() as int),
                start <= pos,
                ok ==> line.len() == CODE_LEN,
                ok ==> forall|t: int| 0 <= t < m - pos ==> is_alphabet_byte(#[trigger] line[t]),
                !ok ==> !valid_code_bytes(line),
            decreases j - m,
        {
            let b = bytes[m];
            proof {
                assert(line[m - pos] == bytes@[m as int]);
            }
            if !byte_in_alphabet(b) {
                ok = false;
            }
            m += 1;
        }
        if !ok {
            proof {
                assert(!valid_code_bytes(line));
                if split_lines(region) is Some {
                    let all = split_lines(region).unwrap();
                    let done = codes@.map_values(|s: String| bytes_of_chars(s@));
                    assert(split_lines(suffix) is Some);
                    let rest = choose|rest: Seq<Seq<u8>>| split_lines(suffix) == Some(rest);
                    assert(split_lines(tail) is Some);
                    assert(rest == seq![line] + split_lines(tail).unwrap());
                    assert(all == done + rest);
                    assert(all[done.len() as int] == line);
                    assert(file_code_lines(bytes@) == all);
                    assert(!valid_code_bytes(file_code_lines(bytes@)[done.len() as int]));
                    assert(!batch_file_wf(bytes@));
                }
            }
            return Err(CodeGenError::CorruptBatchFile);
        }
        proof {
            assert(valid_code_bytes(line));
            lemma_code_bytes_ascii(line);
            lemma_code_bytes_to_chars(line);
        }
        let line_slice = slice_subrange(bytes, pos, j);
        proof {
            assert(line_slice@ =~= line);
        }
        let line_vec = slice_to_vec(line_slice);
        let text = ascii_to_string(line_vec);
        let ghost old_codes = codes@;
        codes.push(text);
        proof {
            assert(codes@.map_values(|s: String| bytes_of_chars(s@)) =~= old_codes.map_values(
                |s: String| bytes_of_chars(s@),
            ).push(line));
            let done = old_codes.map_values(|s: String| bytes_of_chars(s@));
            match split_lines(tail) {
                Some(rest) => {
                    assert(split_lines(region) == Some(done + (seq![line] + rest)));
                    assert(done + (seq![line] + rest) =~= (done.push(line)) + rest);
                },
                None => {
                    assert(split_lines(region) is None);
                },
            }
        }
        pos = j + 1;
    }
    proof {
        assert(region.subrange(pos - start, region.len() as int) =~= Seq::<u8>::empty());
        assert(split_lines(Seq::<u8>::empty()) == Some(Seq::<Seq<u8>>::empty()));
        let done = codes@.map_values(|s: String| bytes_of_chars(s@));
        assert(done + Seq::<Seq<u8>>::empty() =~= done);
        assert(split_lines(region) == Some(done));
        assert forall|k: int| 0 <= k < file_code_lines(bytes@).len() implies valid_code_bytes(
            #[trigger] file_code_lines(bytes@)[k],
        ) by {
            lemma_code_chars_to_bytes(codes@[k]@);
        }
        assert(batch_file_wf(bytes@));
    }
    let b = Batch { filter, codes };
    proof {
        assert forall|k: int| 0 <= k < b.code_views().len() implies b.code_views()[k]
            == file_code_chars(bytes@)[k] by {
            lemma_code_chars_to_bytes(b.code_views()[k]);
        }
        assert(b.code_views() =~= file_code_chars(bytes@));
    }
    Ok(b)
}

/// Round trip: a well-formed batch's encoding decodes to a filter set that
/// holds every one of the batch's codes, and to the very code list.
pub proof fn lemma_batch_round_trip(b: Batch, bytes: Seq<u8>)
    requires
        b.wf(),
        batch_file_wf(bytes),
        file_filter_set(bytes) == b.filter@,
        file_code_chars(bytes) == b.code_views(),
    ensures
        forall|i: int|
            0 <= i < b.code_views().len() ==> file_filter_set(bytes).contains(
                #[trigger] b.code_views()[i],
            ),
        file_code_chars(bytes).to_set() == b.code_views().to_set(),
{
    assert forall|i: int| 0 <= i < b.code_views().len() implies file_filter_set(bytes).contains(
        #[trigger] b.code_views()[i],
    ) by {
        assert(b.code_views().to_set().contains(b.code_views()[i]));
    }
}

} // verus!
