//! The code alphabet: the fixed character set codes are drawn from, the
//! length of a code, and the numeric key that identifies a code exactly.

use vstd::prelude::*;

verus! {

/// Number of characters in every code.
pub const CODE_LEN: usize = 6;

/// Number of symbols in the alphabet: `A`-`Z`, `a`-`z`, `0`-`9` and the
/// nine marks `_ - . * ! ( ) $ ~`.
pub const ALPHABET_LEN: usize = 71;

/// The alphabet as a table from index to ASCII byte.
pub open spec fn alphabet_byte_at(i: int) -> u8 {
    if 0 <= i && i < 26 {
        (65 + i) as u8  // 'A'..'Z'
    } else if 26 <= i && i < 52 {
        (71 + i) as u8  // 'a'..'z'
    } else if 52 <= i && i < 62 {
        (i - 4) as u8  // '0'..'9'
    } else if i == 62 {
        95  // '_'
    } else if i == 63 {
        45  // '-'
    } else if i == 64 {
        46  // '.'
    } else if i == 65 {
        42  // '*'
    } else if i == 66 {
        33  // '!'
    } else if i == 67 {
        40  // '('
    } else if i == 68 {
        41  // ')'
    } else if i == 69 {
        36  // '$'
    } else {
        126  // '~'
    }
}

/// A byte is an alphabet member.
pub open spec fn is_alphabet_byte(b: u8) -> bool {
    exists|i: int| 0 <= i < ALPHABET_LEN && alphabet_byte_at(i) == b
}

/// A character is an alphabet member.
pub open spec fn is_code_char(c: char) -> bool {
    exists|i: int| 0 <= i < ALPHABET_LEN && (alphabet_byte_at(i) as char) == c
}

/// A valid code: exactly `CODE_LEN` characters, all from the alphabet.
pub open spec fn valid_code(s: Seq<char>) -> bool {
    &&& s.len() == CODE_LEN
    &&& forall|i: int| 0 <= i < s.len() ==> is_code_char(s[i])
}

/// A valid code at the byte level.
pub open spec fn valid_code_bytes(bs: Seq<u8>) -> bool {
    &&& bs.len() == CODE_LEN
    &&& forall|i: int| 0 <= i < bs.len() ==> is_alphabet_byte(bs[i])
}

/// The characters an ASCII byte sequence decodes to.
pub open spec fn chars_of_bytes(bs: Seq<u8>) -> Seq<char> {
    bs.map(|_i: int, b: u8| b as char)
}

/// The bytes an ASCII character sequence encodes to.
pub open spec fn bytes_of_chars(cs: Seq<char>) -> Seq<u8> {
    cs.map(|_i: int, c: char| c as u8)
}

/// Every alphabet byte is ASCII.
pub proof fn lemma_alphabet_ascii(i: int)
    requires
        0 <= i < ALPHABET_LEN,
    ensures
        0 < alphabet_byte_at(i) < 128,
{
}

/// No alphabet byte is the line separator.
pub proof fn lemma_alphabet_no_newline(b: u8)
    requires
        is_alphabet_byte(b),
    ensures
        b != 10,
{
}

/// Valid code bytes decode to a valid code, and the decoding round-trips.
pub proof fn lemma_code_bytes_to_chars(bs: Seq<u8>)
    requires
        valid_code_bytes(bs),
    ensures
        valid_code(chars_of_bytes(bs)),
        bytes_of_chars(chars_of_bytes(bs)) == bs,
{
    let cs = chars_of_bytes(bs);
    assert forall|i: int| 0 <= i < cs.len() implies is_code_char(cs[i]) by {
        let j = choose|j: int| 0 <= j < ALPHABET_LEN && alphabet_byte_at(j) == bs[i];
        assert((alphabet_byte_at(j) as char) == cs[i]);
    }
    assert(bytes_of_chars(cs) =~= bs);
}

/// A valid code encodes to valid code bytes, and the encoding round-trips.
pub proof fn lemma_code_chars_to_bytes(cs: Seq<char>)
    requires
        valid_code(cs),
    ensures
        valid_code_bytes(bytes_of_chars(cs)),
        chars_of_bytes(bytes_of_chars(cs)) == cs,
{
    let bs = bytes_of_chars(cs);
    assert forall|i: int| 0 <= i < bs.len() implies is_alphabet_byte(bs[i]) by {
        let j = choose|j: int| 0 <= j < ALPHABET_LEN && (alphabet_byte_at(j) as char) == cs[i];
        lemma_alphabet_ascii(j);
        assert(alphabet_byte_at(j) == bs[i]);
    }
    assert forall|i: int| 0 <= i < cs.len() implies chars_of_bytes(bs)[i] == cs[i] by {
        let j = choose|j: int| 0 <= j < ALPHABET_LEN && (alphabet_byte_at(j) as char) == cs[i];
        lemma_alphabet_ascii(j);
    }
    assert(chars_of_bytes(bs) =~= cs);
}

/// Every valid code is ASCII text.
pub proof fn lemma_valid_code_is_ascii(s: Seq<char>)
    requires
        forall|i: int| 0 <= i < s.len() ==> is_code_char(#[trigger] s[i]),
    ensures
        vstd::utf8::is_ascii_chars(s),
{
    assert forall|i: int| 0 <= i < s.len() implies '\0' <= #[trigger] s[i] <= '\u{7f}' by {
        let j = choose|j: int| 0 <= j < ALPHABET_LEN && (alphabet_byte_at(j) as char) == s[i];
        lemma_alphabet_ascii(j);
    }
}

/// Every byte of a valid byte-level code is ASCII.
pub proof fn lemma_code_bytes_ascii(bs: Seq<u8>)
    requires
        forall|i: int| 0 <= i < bs.len() ==> is_alphabet_byte(#[trigger] bs[i]),
    ensures
        forall|i: int| 0 <= i < bs.len() ==> #[trigger] bs[i] < 128,
{
    assert forall|i: int| 0 <= i < bs.len() implies #[trigger] bs[i] < 128 by {
        let j = choose|j: int| 0 <= j < ALPHABET_LEN && alphabet_byte_at(j) == bs[i];
        lemma_alphabet_ascii(j);
    }
}

/// The alphabet table, by index.
pub fn alphabet_byte(i: usize) -> (b: u8)
    requires
        i < ALPHABET_LEN,
    ensures
        b == alphabet_byte_at(i as int),
{
    if i < 26 {
        65 + (i as u8)
    } else if i < 52 {
        71 + (i as u8)
    } else if i < 62 {
        (i as u8) - 4
    } else if i == 62 {
        95
    } else if i == 63 {
        45
    } else if i == 64 {
        46
    } else if i == 65 {
        42
    } else if i == 66 {
        33
    } else if i == 67 {
        40
    } else if i == 68 {
        41
    } else if i == 69 {
        36
    } else {
        126
    }
}

/// Alphabet membership test for a byte.
pub fn byte_in_alphabet(b: u8) -> (r: bool)
    ensures
        r == is_alphabet_byte(b),
{
    let hit = (65 <= b && b <= 90) || (97 <= b && b <= 122) || (48 <= b && b <= 57) || b == 95
        || b == 45 || b == 46 || b == 42 || b == 33 || b == 40 || b == 41 || b == 36 || b == 126;
    proof {
        if hit {
            if 65 <= b && b <= 90 {
                assert(alphabet_byte_at(b - 65) == b);
            } else if 97 <= b && b <= 122 {
                assert(alphabet_byte_at(b - 71) == b);
            } else if 48 <= b && b <= 57 {
                assert(alphabet_byte_at(b + 4) == b);
            } else if b == 95 {
                assert(alphabet_byte_at(62) == b);
            } else if b == 45 {
                assert(alphabet_byte_at(63) == b);
            } else if b == 46 {
                assert(alphabet_byte_at(64) == b);
            } else if b == 42 {
                assert(alphabet_byte_at(65) == b);
            } else if b == 33 {
                assert(alphabet_byte_at(66) == b);
            } else if b == 40 {
                assert(alphabet_byte_at(67) == b);
            } else if b == 41 {
                assert(alphabet_byte_at(68) == b);
            } else if b == 36 {
                assert(alphabet_byte_at(69) == b);
            } else {
                assert(alphabet_byte_at(70) == b);
            }
        }
    }
    hit
}

/// 256 to the power `n`.
pub open spec fn pow256(n: nat) -> int
    decreases n,
{
    if n == 0 {
        1
    } else {
        256 * pow256((n - 1) as nat)
    }
}

pub proof fn lemma_pow256_pos(n: nat)
    ensures
        pow256(n) >= 1,
    decreases n,
{
    if n > 0 {
        lemma_pow256_pos((n - 1) as nat);
    }
}

pub proof fn lemma_pow256_increases(m: nat, n: nat)
    requires
        m <= n,
    ensures
        pow256(m) <= pow256(n),
    decreases n,
{
    if m < n {
        lemma_pow256_increases(m, (n - 1) as nat);
        lemma_pow256_pos((n - 1) as nat);
    }
}

/// The numeric key of a code: its characters' byte values read as base-256
/// digits, most significant first.
pub open spec fn code_key(s: Seq<char>) -> int
    decreases s.len(),
{
    if s.len() == 0 {
        0
    } else {
        code_key(s.drop_last()) * 256 + (s.last() as u8)
    }
}

} // verus!
