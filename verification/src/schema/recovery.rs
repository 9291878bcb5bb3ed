//! The recovery key: 256 random bits, shown to the user as 13 dash-separated
//! groups of 4 Crockford base32 characters and typed back in from paper.
//!
//! Crockford's alphabet omits `I`, `L`, `O` and `U` so a transcribed key
//! cannot be garbled. Encoding reads the 32 bytes as one big-endian bit
//! string, 5 bits per character; the 52nd character carries the last bit
//! followed by 4 zero bits. Parsing accepts any case, ignores dashes and
//! ASCII whitespace anywhere, and folds `O` to `0` and `I`/`L` to `1`.
use vstd::prelude::*;
use vstd::string::{StringExecFns, StringSliceAdditionalSpecFns};

use crate::schema::crypto::fill_random;
use crate::schema::error::SchemaError;
use crate::text::push_char;
use vstd::utf8::{encode_utf8, is_ascii_chars, is_ascii_chars_encode_utf8};

verus! {

/// Length of the raw recovery key in bytes.
pub const RECOVERY_KEY_LEN: usize = 32;

/// Characters per display group.
pub const GROUP_LEN: usize = 4;

/// 256 bits at 5 bits per character.
pub const ENCODED_LEN: usize = 52;

/// Number of display groups.
pub const GROUP_COUNT: usize = ENCODED_LEN / GROUP_LEN;

/// A 256-bit recovery key. It has no `Debug` rendering of its bytes; see
/// [`RecoveryKey::debug_repr`].
#[derive(Clone)]
pub struct RecoveryKey([u8; RECOVERY_KEY_LEN]);

impl View for RecoveryKey {
    type V = Seq<u8>;

    closed spec fn view(&self) -> Seq<u8> {
        self.0@
    }
}

/// The Crockford base32 character (as an ASCII byte) for the 5-bit value
/// `v`: `0123456789ABCDEFGHJKMNPQRSTVWXYZ`.
pub open spec fn alphabet(v: u8) -> u8 {
    if v < 10 {
        (48 + v) as u8
    } else if v < 18 {
        (65 + (v - 10)) as u8
    } else if v < 20 {
        (74 + (v - 18)) as u8
    } else if v < 22 {
        (77 + (v - 20)) as u8
    } else if v < 27 {
        (80 + (v - 22)) as u8
    } else {
        (86 + (v - 27)) as u8
    }
}

/// Character `pos` (0 to 7) of the base32 encoding of the 5-byte block
/// `b0 .. b4`.
pub open spec fn block_value(b0: u8, b1: u8, b2: u8, b3: u8, b4: u8, pos: int) -> u8 {
    if pos == 0 {
        b0 >> 3u8
    } else if pos == 1 {
        ((b0 & 7u8) << 2u8) | (b1 >> 6u8)
    } else if pos == 2 {
        (b1 >> 1u8) & 31u8
    } else if pos == 3 {
        ((b1 & 1u8) << 4u8) | (b2 >> 4u8)
    } else if pos == 4 {
        ((b2 & 15u8) << 1u8) | (b3 >> 7u8)
    } else if pos == 5 {
        (b3 >> 2u8) & 31u8
    } else if pos == 6 {
        ((b3 & 3u8) << 3u8) | (b4 >> 5u8)
    } else {
        b4 & 31u8
    }
}

/// Byte `pos` (0 to 4) decoded from the 8 five-bit values `c0 .. c7`.
pub open spec fn block_byte(c0: u8, c1: u8, c2: u8, c3: u8, c4: u8, c5: u8, c6: u8, c7: u8, pos: int) -> u8 {
    if pos == 0 {
        (c0 << 3u8) | (c1 >> 2u8)
    } else if pos == 1 {
        ((c1 & 3u8) << 6u8) | (c2 << 1u8) | (c3 >> 4u8)
    } else if pos == 2 {
        ((c3 & 15u8) << 4u8) | (c4 >> 1u8)
    } else if pos == 3 {
        ((c4 & 1u8) << 7u8) | (c5 << 2u8) | (c6 >> 3u8)
    } else {
        ((c6 & 7u8) << 5u8) | c7
    }
}

/// `s[i]`, or zero past the end: the padding of the final block.
pub open spec fn at_or_zero(s: Seq<u8>, i: int) -> u8 {
    if 0 <= i < s.len() {
        s[i]
    } else {
        0
    }
}

/// The 5-bit value of encoded character `k` of `bytes`.
pub open spec fn encoded_value(bytes: Seq<u8>, k: int) -> u8 {
    let b = (k / 8) * 5;
    block_value(
        at_or_zero(bytes, b),
        at_or_zero(bytes, b + 1),
        at_or_zero(bytes, b + 2),
        at_or_zero(bytes, b + 3),
        at_or_zero(bytes, b + 4),
        k % 8,
    )
}

/// The 52-character Crockford base32 encoding of a 32-byte key.
pub open spec fn encoding(bytes: Seq<u8>) -> Seq<char> {
    Seq::new(ENCODED_LEN as nat, |k: int| alphabet(encoded_value(bytes, k)) as char)
}

/// Byte `j` decoded from the five-bit values `vs`.
pub open spec fn decoded_byte(vs: Seq<u8>, j: int) -> u8 {
    let c = (j / 5) * 8;
    block_byte(
        at_or_zero(vs, c),
        at_or_zero(vs, c + 1),
        at_or_zero(vs, c + 2),
        at_or_zero(vs, c + 3),
        at_or_zero(vs, c + 4),
        at_or_zero(vs, c + 5),
        at_or_zero(vs, c + 6),
        at_or_zero(vs, c + 7),
        j % 5,
    )
}

/// The 32 bytes that 52 five-bit values decode to; the 4 padding bits of
/// the last value are ignored.
pub open spec fn decoding(vs: Seq<u8>) -> Seq<u8> {
    Seq::new(RECOVERY_KEY_LEN as nat, |j: int| decoded_byte(vs, j))
}

/// The display groups of an encoding.
pub open spec fn groups_spec(enc: Seq<char>) -> Seq<Seq<char>> {
    Seq::new(GROUP_COUNT as nat, |g: int| enc.subrange(g * 4, g * 4 + 4))
}

/// The groups of an encoding joined by `-`.
pub open spec fn grouped_spec(enc: Seq<char>) -> Seq<char> {
    Seq::new(64, |i: int| if i % 5 == 4 { '-' } else { enc[(i / 5) * 4 + i % 5] })
}

/// Whether `b` is ASCII whitespace as `u8::is_ascii_whitespace` defines it.
pub open spec fn is_ascii_ws(b: u8) -> bool {
    b == 0x20 || b == 0x09 || b == 0x0a || b == 0x0c || b == 0x0d
}

/// The bytes of `input` that parsing keeps: everything but dashes and ASCII
/// whitespace.
pub open spec fn cleaned(input: Seq<u8>) -> Seq<u8>
    decreases input.len(),
{
    if input.len() == 0 {
        input
    } else {
        let rest = cleaned(input.drop_last());
        let b = input.last();
        if is_ascii_ws(b) || b == 0x2d {
            rest
        } else {
            rest.push(b)
        }
    }
}

/// `ch` uppercased, then with `O` read as `0` and `I`, `L` as `1`.
pub open spec fn folded(ch: u8) -> u8 {
    let upper = if 97 <= ch <= 122 {
        (ch - 32) as u8
    } else {
        ch
    };
    if upper == 79 {
        48
    } else if upper == 73 || upper == 76 {
        49
    } else {
        upper
    }
}

/// The 5-bit value of an input character: the position of its folded form
/// in the alphabet, or `None` when it is not there.
pub open spec fn char_value(ch: u8) -> Option<u8> {
    let f = folded(ch);
    if 48 <= f <= 57 {
        Some((f - 48) as u8)
    } else if 65 <= f <= 72 {
        Some((f - 55) as u8)
    } else if 74 <= f <= 75 {
        Some((f - 56) as u8)
    } else if 77 <= f <= 78 {
        Some((f - 57) as u8)
    } else if 80 <= f <= 84 {
        Some((f - 58) as u8)
    } else if 86 <= f <= 90 {
        Some((f - 59) as u8)
    } else {
        None
    }
}

/// Whether every character of `cs` is in the alphabet.
pub open spec fn all_valid(cs: Seq<u8>) -> bool {
    forall|i: int| 0 <= i < cs.len() ==> (#[trigger] char_value(cs[i])) is Some
}

/// The 5-bit values of `cs`.
pub open spec fn values_of(cs: Seq<u8>) -> Seq<u8> {
    Seq::new(cs.len(), |i: int| char_value(cs[i])->0)
}

/// What parsing the UTF-8 bytes `input` yields: the key's bytes, or the
/// reason it was refused.
pub open spec fn parse_spec(input: Seq<u8>) -> Result<Seq<u8>, &'static str> {
    let cs = cleaned(input);
    if cs.len() != ENCODED_LEN {
        Err("wrong length")
    } else if !all_valid(cs) {
        Err("invalid character")
    } else {
        Ok(decoding(values_of(cs)))
    }
}

proof fn lemma_block_value_small(b0: u8, b1: u8, b2: u8, b3: u8, b4: u8)
    ensures
        block_value(b0, b1, b2, b3, b4, 0) < 32,
        block_value(b0, b1, b2, b3, b4, 1) < 32,
        block_value(b0, b1, b2, b3, b4, 2) < 32,
        block_value(b0, b1, b2, b3, b4, 3) < 32,
        block_value(b0, b1, b2, b3, b4, 4) < 32,
        block_value(b0, b1, b2, b3, b4, 5) < 32,
        block_value(b0, b1, b2, b3, b4, 6) < 32,
        block_value(b0, b1, b2, b3, b4, 7) < 32,
{
    assert(b0 >> 3u8 < 32) by (bit_vector);
    assert(((b0 & 7u8) << 2u8) | (b1 >> 6u8) < 32) by (bit_vector);
    assert((b1 >> 1u8) & 31u8 < 32) by (bit_vector);
    assert(((b1 & 1u8) << 4u8) | (b2 >> 4u8) < 32) by (bit_vector);
    assert(((b2 & 15u8) << 1u8) | (b3 >> 7u8) < 32) by (bit_vector);
    assert((b3 >> 2u8) & 31u8 < 32) by (bit_vector);
    assert(((b3 & 3u8) << 3u8) | (b4 >> 5u8) < 32) by (bit_vector);
    assert(b4 & 31u8 < 32) by (bit_vector);
}

/// Decoding the encoding of a block gives the block back.
proof fn lemma_block_round_trip(b0: u8, b1: u8, b2: u8, b3: u8, b4: u8)
    ensures
        ({
            let c0 = block_value(b0, b1, b2, b3, b4, 0);
            let c1 = block_value(b0, b1, b2, b3, b4, 1);
            let c2 = block_value(b0, b1, b2, b3, b4, 2);
            let c3 = block_value(b0, b1, b2, b3, b4, 3);
            let c4 = block_value(b0, b1, b2, b3, b4, 4);
            let c5 = block_value(b0, b1, b2, b3, b4, 5);
            let c6 = block_value(b0, b1, b2, b3, b4, 6);
            let c7 = block_value(b0, b1, b2, b3, b4, 7);
            &&& block_byte(c0, c1, c2, c3, c4, c5, c6, c7, 0) == b0
            &&& block_byte(c0, c1, c2, c3, c4, c5, c6, c7, 1) == b1
            &&& block_byte(c0, c1, c2, c3, c4, c5, c6, c7, 2) == b2
            &&& block_byte(c0, c1, c2, c3, c4, c5, c6, c7, 3) == b3
            &&& block_byte(c0, c1, c2, c3, c4, c5, c6, c7, 4) == b4
        }),
{
    assert(((b0 >> 3u8) << 3u8) | ((((b0 & 7u8) << 2u8) | (b1 >> 6u8)) >> 2u8) == b0)
        by (bit_vector);
    assert((((((b0 & 7u8) << 2u8) | (b1 >> 6u8)) & 3u8) << 6u8) | (((b1 >> 1u8) & 31u8) << 1u8)
        | ((((b1 & 1u8) << 4u8) | (b2 >> 4u8)) >> 4u8) == b1) by (bit_vector);
    assert((((((b1 & 1u8) << 4u8) | (b2 >> 4u8)) & 15u8) << 4u8) | ((((b2 & 15u8) << 1u8) | (
    b3 >> 7u8)) >> 1u8) == b2) by (bit_vector);
    assert((((((b2 & 15u8) << 1u8) | (b3 >> 7u8)) & 1u8) << 7u8) | (((b3 >> 2u8) & 31u8) << 2u8)
        | ((((b3 & 3u8) << 3u8) | (b4 >> 5u8)) >> 3u8) == b3) by (bit_vector);
    assert((((((b3 & 3u8) << 3u8) | (b4 >> 5u8)) & 7u8) << 5u8) | (b4 & 31u8) == b4)
        by (bit_vector);
}

proof fn lemma_alphabet_value(v: u8)
    requires
        v < 32,
    ensures
        char_value(alphabet(v)) == Some(v),
        alphabet(v) != 0x2d,
        !is_ascii_ws(alphabet(v)),
        alphabet(v) < 128,
{
}

proof fn lemma_block_index(blk: int, p: int)
    requires
        0 <= p < 8,
    ensures
        (blk * 8 + p) / 8 == blk,
        (blk * 8 + p) % 8 == p,
{
    assert((blk * 8 + p) / 8 == blk && (blk * 8 + p) % 8 == p) by (nonlinear_arith)
        requires
            0 <= p < 8,
    ;
}

proof fn lemma_decoded_byte(bytes: Seq<u8>, vs: Seq<u8>, j: int)
    requires
        bytes.len() == RECOVERY_KEY_LEN,
        vs == Seq::new(ENCODED_LEN as nat, |k: int| encoded_value(bytes, k)),
        0 <= j < RECOVERY_KEY_LEN,
    ensures
        decoded_byte(vs, j) == bytes[j],
{
    let blk = j / 5;
    assert(0 <= blk <= 6);
    let b = blk * 5;
    let c = blk * 8;
    let b0 = at_or_zero(bytes, b);
    let b1 = at_or_zero(bytes, b + 1);
    let b2 = at_or_zero(bytes, b + 2);
    let b3 = at_or_zero(bytes, b + 3);
    let b4 = at_or_zero(bytes, b + 4);
    lemma_block_round_trip(b0, b1, b2, b3, b4);
    assert forall|p: int| 0 <= p < 8 implies #[trigger] at_or_zero(vs, c + p) == block_value(
        b0,
        b1,
        b2,
        b3,
        b4,
        p,
    ) by {
        lemma_block_index(blk, p);
        if c + p < ENCODED_LEN {
            assert(vs[c + p] == encoded_value(bytes, c + p));
        } else {
            assert(blk == 6 && p >= 4);
            assert(b2 == 0 && b3 == 0 && b4 == 0);
            assert(((0u8 & 15u8) << 1u8) | (0u8 >> 7u8) == 0u8) by (bit_vector);
            assert((0u8 >> 2u8) & 31u8 == 0u8) by (bit_vector);
            assert(((0u8 & 3u8) << 3u8) | (0u8 >> 5u8) == 0u8) by (bit_vector);
            assert(0u8 & 31u8 == 0u8) by (bit_vector);
        }
    }
    assert(at_or_zero(vs, c) == block_value(b0, b1, b2, b3, b4, 0));
    assert(at_or_zero(vs, c + 1) == block_value(b0, b1, b2, b3, b4, 1));
    assert(at_or_zero(vs, c + 2) == block_value(b0, b1, b2, b3, b4, 2));
    assert(at_or_zero(vs, c + 3) == block_value(b0, b1, b2, b3, b4, 3));
    assert(at_or_zero(vs, c + 4) == block_value(b0, b1, b2, b3, b4, 4));
    assert(at_or_zero(vs, c + 5) == block_value(b0, b1, b2, b3, b4, 5));
    assert(at_or_zero(vs, c + 6) == block_value(b0, b1, b2, b3, b4, 6));
    assert(at_or_zero(vs, c + 7) == block_value(b0, b1, b2, b3, b4, 7));
    assert(j == b + j % 5);
}

/// Decoding the encoding of a key gives the key back.
pub proof fn lemma_decoding_inverts_encoding(bytes: Seq<u8>)
    requires
        bytes.len() == RECOVERY_KEY_LEN,
    ensures
        decoding(Seq::new(ENCODED_LEN as nat, |k: int| encoded_value(bytes, k))) == bytes,
{
    let vs = Seq::new(ENCODED_LEN as nat, |k: int| encoded_value(bytes, k));
    assert forall|j: int| 0 <= j < RECOVERY_KEY_LEN implies #[trigger] decoded_byte(vs, j)
        == bytes[j] by {
        lemma_decoded_byte(bytes, vs, j);
    }
    assert(decoding(vs) =~= bytes);
}

proof fn lemma_cleaned_grouped(g: Seq<u8>, e: Seq<u8>, i: int)
    requires
        e.len() == ENCODED_LEN,
        g.len() == 64,
        forall|k: int| 0 <= k < ENCODED_LEN ==> #[trigger] e[k] != 0x2d && !is_ascii_ws(e[k]),
        forall|k: int| 0 <= k < 64 ==> #[trigger] g[k] == (if k % 5 == 4 {
            0x2du8
        } else {
            e[(k / 5) * 4 + k % 5]
        }),
        0 <= i <= 64,
    ensures
        cleaned(g.take(i)) == e.take((i / 5) * 4 + (if i % 5 == 4 { 4 } else { i % 5 })),
    decreases i,
{
    if i == 0 {
        assert(g.take(0) =~= Seq::<u8>::empty());
        assert(e.take(0) =~= Seq::<u8>::empty());
    } else {
        let j = i - 1;
        lemma_cleaned_grouped(g, e, j);
        assert(g.take(i).drop_last() =~= g.take(j));
        let fj = (j / 5) * 4 + (if j % 5 == 4 { 4 } else { j % 5 });
        if j % 5 == 4 {
            assert(i / 5 == j / 5 + 1 && i % 5 == 0);
        } else {
            assert(i / 5 == j / 5 && i % 5 == j % 5 + 1);
            assert(e.take(fj + 1) =~= e.take(fj).push(e[fj]));
        }
    }
}

/// A key's grouped form, read back by [`RecoveryKey::parse`], gives the key.
pub proof fn lemma_grouped_form_parses_back(bytes: Seq<u8>)
    requires
        bytes.len() == RECOVERY_KEY_LEN,
    ensures
        parse_spec(encode_utf8(grouped_spec(encoding(bytes)))) == Ok::<Seq<u8>, &'static str>(bytes),
{
    let enc = encoding(bytes);
    let gs = grouped_spec(enc);
    let vs = Seq::new(ENCODED_LEN as nat, |k: int| encoded_value(bytes, k));
    let e = Seq::new(ENCODED_LEN as nat, |k: int| alphabet(vs[k]));
    assert forall|k: int| 0 <= k < ENCODED_LEN implies #[trigger] e[k] != 0x2d && !is_ascii_ws(e[k])
        && char_value(e[k]) == Some(vs[k]) && alphabet(vs[k]) < 128 && enc[k] == alphabet(vs[k]) as char by {
        let b = (k / 8) * 5;
        lemma_block_value_small(
            at_or_zero(bytes, b),
            at_or_zero(bytes, b + 1),
            at_or_zero(bytes, b + 2),
            at_or_zero(bytes, b + 3),
            at_or_zero(bytes, b + 4),
        );
        assert(0 <= k % 8 < 8);
        lemma_alphabet_value(vs[k]);
    }
    assert(is_ascii_chars(gs)) by {
        assert forall|i: int| 0 <= i < gs.len() implies '\0' <= #[trigger] gs[i] <= '\u{7f}' by {
            if i % 5 != 4 {
                let k = (i / 5) * 4 + i % 5;
                assert(0 <= k < ENCODED_LEN);
                assert(e[k] != 0x2d);
                assert(gs[i] == alphabet(vs[k]) as char);
            }
        }
    }
    is_ascii_chars_encode_utf8(gs);
    let g = encode_utf8(gs);
    assert forall|k: int| 0 <= k < 64 implies #[trigger] g[k] == (if k % 5 == 4 {
        0x2du8
    } else {
        e[(k / 5) * 4 + k % 5]
    }) by {
        assert(g[k] == gs[k] as u8);
        if k % 5 != 4 {
            assert(0 <= (k / 5) * 4 + k % 5 < ENCODED_LEN);
        }
    }
    lemma_cleaned_grouped(g, e, 64);
    assert(g.take(64) =~= g);
    assert(e.take(52) =~= e);
    assert(cleaned(g) == e);
    assert(all_valid(e));
    assert(values_of(e) =~= vs);
    lemma_decoding_inverts_encoding(bytes);
}

/// Whether `c` is one of the 32 characters of the encoding alphabet,
/// `0123456789ABCDEFGHJKMNPQRSTVWXYZ`: a digit, or an uppercase letter other
/// than `I`, `L`, `O` and `U`.
pub open spec fn in_alphabet(c: char) -> bool {
    ||| '0' <= c <= '9'
    ||| 'A' <= c <= 'Z' && c != 'I' && c != 'L' && c != 'O' && c != 'U'
}

/// A key's display form: 13 groups of 4 alphabet characters, joined by
/// dashes into the grouped string, the last group ending in `0` or `G`
/// because only one bit of the key reaches the final character.
pub proof fn lemma_groups_in_alphabet(bytes: Seq<u8>)
    requires
        bytes.len() == RECOVERY_KEY_LEN,
    ensures
        ({
            let enc = encoding(bytes);
            let gs = groups_spec(enc);
            &&& gs.len() == GROUP_COUNT
            &&& forall|g: int| 0 <= g < GROUP_COUNT ==> (#[trigger] gs[g]).len() == GROUP_LEN
            &&& forall|g: int, p: int|
                0 <= g < GROUP_COUNT && 0 <= p < GROUP_LEN ==> in_alphabet(#[trigger] gs[g][p])
            &&& grouped_spec(enc).len() == 64
            &&& forall|g: int, p: int|
                0 <= g < GROUP_COUNT && 0 <= p < GROUP_LEN ==> #[trigger] grouped_spec(enc)[5 * g + p]
                    == gs[g][p]
            &&& forall|g: int| 0 <= g < GROUP_COUNT - 1 ==> #[trigger] grouped_spec(enc)[5 * g + 4] == '-'
            &&& gs[12][3] == '0' || gs[12][3] == 'G'
        }),
{
    let enc = encoding(bytes);
    let gs = groups_spec(enc);
    assert forall|k: int| 0 <= k < ENCODED_LEN implies in_alphabet(#[trigger] enc[k]) by {
        let b = (k / 8) * 5;
        lemma_block_value_small(
            at_or_zero(bytes, b),
            at_or_zero(bytes, b + 1),
            at_or_zero(bytes, b + 2),
            at_or_zero(bytes, b + 3),
            at_or_zero(bytes, b + 4),
        );
        assert(0 <= k % 8 < 8);
        let v = encoded_value(bytes, k);
        assert(v < 32);
    }
    assert forall|g: int, p: int| 0 <= g < GROUP_COUNT && 0 <= p < GROUP_LEN implies in_alphabet(
        #[trigger] gs[g][p],
    ) by {
        assert(gs[g][p] == enc[g * 4 + p]);
    }
    assert forall|g: int, p: int| 0 <= g < GROUP_COUNT && 0 <= p < GROUP_LEN implies #[trigger] grouped_spec(
        enc,
    )[5 * g + p] == gs[g][p] by {
        assert((5 * g + p) / 5 == g && (5 * g + p) % 5 == p) by (nonlinear_arith)
            requires
                0 <= p < 4,
        ;
    }
    assert forall|g: int| 0 <= g < GROUP_COUNT - 1 implies #[trigger] grouped_spec(enc)[5 * g + 4] == '-' by {
        assert((5 * g + 4) % 5 == 4) by (nonlinear_arith);
    }
    let b31 = bytes[31];
    assert(51int / 8 == 6 && 51int % 8 == 3);
    assert(encoded_value(bytes, 51) == ((b31 & 1u8) << 4u8) | (0u8 >> 4u8));
    assert(((b31 & 1u8) << 4u8) | (0u8 >> 4u8) == 0u8 || ((b31 & 1u8) << 4u8) | (0u8 >> 4u8) == 16u8)
        by (bit_vector);
    assert(gs[12][3] == enc[51]);
}

/// Separators alone clean away to nothing.
pub proof fn lemma_cleaned_separators(s: Seq<u8>)
    requires
        forall|i: int| 0 <= i < s.len() ==> is_ascii_ws(#[trigger] s[i]) || s[i] == 0x2d,
    ensures
        cleaned(s) == Seq::<u8>::empty(),
    decreases s.len(),
{
    if s.len() > 0 {
        lemma_cleaned_separators(s.drop_last());
    }
}

/// Cleaning works piece by piece, so dashes and ASCII whitespace can be
/// added or dropped anywhere in a typed key without changing what is read.
pub proof fn lemma_cleaned_concat(a: Seq<u8>, b: Seq<u8>)
    ensures
        cleaned(a + b) == cleaned(a) + cleaned(b),
    decreases b.len(),
{
    if b.len() == 0 {
        assert(a + b =~= a);
        assert(cleaned(a) + cleaned(b) =~= cleaned(a));
    } else {
        lemma_cleaned_concat(a, b.drop_last());
        assert((a + b).drop_last() =~= a + b.drop_last());
        assert((a + b).last() == b.last());
        let x = b.last();
        if !(is_ascii_ws(x) || x == 0x2d) {
            assert(cleaned(a) + cleaned(b.drop_last()).push(x) =~= (cleaned(a) + cleaned(b.drop_last())).push(
                x,
            ));
        }
    }
}

/// Parsing reads each kept character only through its folded form: two
/// inputs whose kept characters fold alike (any case, `O` for `0`, `I` or
/// `L` for `1`) parse to the same result.
pub proof fn lemma_parse_reads_folded(a: Seq<u8>, b: Seq<u8>)
    requires
        cleaned(a).len() == cleaned(b).len(),
        forall|i: int| 0 <= i < cleaned(a).len() ==> folded(#[trigger] cleaned(a)[i]) == folded(cleaned(b)[i]),
    ensures
        parse_spec(a) == parse_spec(b),
{
    let ca = cleaned(a);
    let cb = cleaned(b);
    assert forall|i: int| 0 <= i < ca.len() implies #[trigger] char_value(ca[i]) == char_value(cb[i]) by {
        assert(folded(ca[i]) == folded(cb[i]));
    }
    if all_valid(ca) {
        assert forall|i: int| 0 <= i < cb.len() implies (#[trigger] char_value(cb[i])) is Some by {
            assert(char_value(ca[i]) == char_value(cb[i]));
        }
        assert(values_of(ca) =~= values_of(cb));
    } else {
        let i = choose|i: int| 0 <= i < ca.len() && !((#[trigger] char_value(ca[i])) is Some);
        assert(char_value(ca[i]) == char_value(cb[i]));
        assert(!all_valid(cb));
    }
}

/// How a typed character folds: a lowercase letter as its uppercase, `O` as
/// `0`, and `I` and `L` as `1`.
pub proof fn lemma_folding_cases(ch: u8)
    ensures
        65 <= ch <= 90 ==> folded((ch + 32) as u8) == folded(ch),
        folded(79) == folded(48),
        folded(73) == folded(49) && folded(76) == folded(49),
{
}

/// The alphabet character for a 5-bit value.
fn alphabet_at(v: u8) -> (c: u8)
    requires
        v < 32,
    ensures
        c == alphabet(v),
{
    if v < 10 {
        48 + v
    } else if v < 18 {
        65 + (v - 10)
    } else if v < 20 {
        74 + (v - 18)
    } else if v < 22 {
        77 + (v - 20)
    } else if v < 27 {
        80 + (v - 22)
    } else {
        86 + (v - 27)
    }
}

/// `bytes[i]`, or zero past the end.
fn byte_at_or_zero(bytes: &[u8], i: usize) -> (b: u8)
    ensures
        b == at_or_zero(bytes@, i as int),
{
    if i < bytes.len() {
        bytes[i]
    } else {
        0
    }
}

/// Encodes 32 bytes as 52 Crockford base32 characters.
fn encode(bytes: &[u8; RECOVERY_KEY_LEN]) -> (s: String)
    ensures
        s@ == encoding(bytes@),
{
    let mut s = String::new();
    let mut k: usize = 0;
    while k < ENCODED_LEN
        invariant
            k <= ENCODED_LEN,
            bytes@.len() == RECOVERY_KEY_LEN,
            s@ == encoding(bytes@).take(k as int),
        decreases ENCODED_LEN - k,
    {
        let b = (k / 8) * 5;
        let b0 = byte_at_or_zero(bytes, b);
        let b1 = byte_at_or_zero(bytes, b + 1);
        let b2 = byte_at_or_zero(bytes, b + 2);
        let b3 = byte_at_or_zero(bytes, b + 3);
        let b4 = byte_at_or_zero(bytes, b + 4);
        let pos = k % 8;
        let v: u8 = if pos == 0 {
            b0 >> 3u8
        } else if pos == 1 {
            ((b0 & 7u8) << 2u8) | (b1 >> 6u8)
        } else if pos == 2 {
            (b1 >> 1u8) & 31u8
        } else if pos == 3 {
            ((b1 & 1u8) << 4u8) | (b2 >> 4u8)
        } else if pos == 4 {
            ((b2 & 15u8) << 1u8) | (b3 >> 7u8)
        } else if pos == 5 {
            (b3 >> 2u8) & 31u8
        } else if pos == 6 {
            ((b3 & 3u8) << 3u8) | (b4 >> 5u8)
        } else {
            b4 & 31u8
        };
        proof {
            lemma_block_value_small(b0, b1, b2, b3, b4);
        }
        assert(v == encoded_value(bytes@, k as int));
        let c = alphabet_at(v);
        push_char(&mut s, c as char);
        assert(encoding(bytes@).take(k + 1) =~= encoding(bytes@).take(k as int).push(c as char));
        k += 1;
    }
    assert(encoding(bytes@).take(ENCODED_LEN as int) =~= encoding(bytes@));
    s
}

/// The 5-bit value of one input character, after case and ambiguity
/// folding.
fn decode_char(ch: u8) -> (r: Option<u8>)
    ensures
        r == char_value(ch),
{
    let upper = if 97 <= ch && ch <= 122 {
        ch - 32
    } else {
        ch
    };
    let f = if upper == 79 {
        48
    } else if upper == 73 || upper == 76 {
        49
    } else {
        upper
    };
    if 48 <= f && f <= 57 {
        Some(f - 48)
    } else if 65 <= f && f <= 72 {
        Some(f - 55)
    } else if 74 <= f && f <= 75 {
        Some(f - 56)
    } else if 77 <= f && f <= 78 {
        Some(f - 57)
    } else if 80 <= f && f <= 84 {
        Some(f - 58)
    } else if 86 <= f && f <= 90 {
        Some(f - 59)
    } else {
        None
    }
}

/// Decodes 52 five-bit values into 32 bytes.
fn decode(vs: &Vec<u8>) -> (out: [u8; RECOVERY_KEY_LEN])
    requires
        vs@.len() == ENCODED_LEN,
    ensures
        out@ == decoding(vs@),
{
    let mut out = [0u8; RECOVERY_KEY_LEN];
    let mut j: usize = 0;
    while j < RECOVERY_KEY_LEN
        invariant
            j <= RECOVERY_KEY_LEN,
            vs@.len() == ENCODED_LEN,
            out@.len() == RECOVERY_KEY_LEN,
            forall|i: int| 0 <= i < j ==> out@[i] == decoded_byte(vs@, i),
        decreases RECOVERY_KEY_LEN - j,
    {
        let c = (j / 5) * 8;
        let c0 = byte_at_or_zero(vs.as_slice(), c);
        let c1 = byte_at_or_zero(vs.as_slice(), c + 1);
        let c2 = byte_at_or_zero(vs.as_slice(), c + 2);
        let c3 = byte_at_or_zero(vs.as_slice(), c + 3);
        let c4 = byte_at_or_zero(vs.as_slice(), c + 4);
        let c5 = byte_at_or_zero(vs.as_slice(), c + 5);
        let c6 = byte_at_or_zero(vs.as_slice(), c + 6);
        let c7 = byte_at_or_zero(vs.as_slice(), c + 7);
        let pos = j % 5;
        let b: u8 = if pos == 0 {
            (c0 << 3u8) | (c1 >> 2u8)
        } else if pos == 1 {
            ((c1 & 3u8) << 6u8) | (c2 << 1u8) | (c3 >> 4u8)
        } else if pos == 2 {
            ((c3 & 15u8) << 4u8) | (c4 >> 1u8)
        } else if pos == 3 {
            ((c4 & 1u8) << 7u8) | (c5 << 2u8) | (c6 >> 3u8)
        } else {
            ((c6 & 7u8) << 5u8) | c7
        };
        assert(b == decoded_byte(vs@, j as int));
        out[j] = b;
        j += 1;
    }
    assert(out@ =~= decoding(vs@));
    out
}

impl RecoveryKey {
    /// A new recovery key from the operating system's CSPRNG.
    pub fn generate() -> (k: RecoveryKey)
        ensures
            k@.len() == RECOVERY_KEY_LEN,
    {
        let mut bytes = [0u8; RECOVERY_KEY_LEN];
        fill_random(&mut bytes);
        RecoveryKey(bytes)
    }

    /// A recovery key with exactly these bytes.
    pub fn from_bytes(bytes: [u8; RECOVERY_KEY_LEN]) -> (k: RecoveryKey)
        ensures
            k@ == bytes@,
    {
        RecoveryKey(bytes)
    }

    /// The raw key material.
    pub fn as_bytes(&self) -> (b: &[u8; RECOVERY_KEY_LEN])
        ensures
            b@ == self@,
    {
        &self.0
    }

    /// The key as 13 groups of 4 characters joined by dashes.
    pub fn to_grouped_string(&self) -> (s: String)
        ensures
            s@ == grouped_spec(encoding(self@)),
    {
        let enc = crate::text::chars_of(encode(&self.0).as_str());
        let ghost e = encoding(self@);
        let mut s = String::new();
        let mut i: usize = 0;
        while i < 64
            invariant
                enc@ == e,
                e.len() == ENCODED_LEN,
                i <= 64,
                s@ == grouped_spec(e).take(i as int),
            decreases 64 - i,
        {
            let c = if i % 5 == 4 {
                '-'
            } else {
                enc[(i / 5) * 4 + i % 5]
            };
            push_char(&mut s, c);
            assert(grouped_spec(e).take(i + 1) =~= grouped_spec(e).take(i as int).push(c));
            i += 1;
        }
        assert(grouped_spec(e).take(64) =~= grouped_spec(e));
        s
    }

    /// The display groups, in order.
    pub fn groups(&self) -> (g: Vec<String>)
        ensures
            crate::text::string_views(g@) == groups_spec(encoding(self@)),
    {
        let enc = crate::text::chars_of(encode(&self.0).as_str());
        let ghost e = encoding(self@);
        let mut groups: Vec<String> = Vec::new();
        let mut k: usize = 0;
        while k < GROUP_COUNT
            invariant
                enc@ == e,
                e.len() == ENCODED_LEN,
                k <= GROUP_COUNT,
                crate::text::string_views(groups@) == groups_spec(e).take(k as int),
            decreases GROUP_COUNT - k,
        {
            let piece = crate::text::string_of_range(&enc, k * 4, k * 4 + 4);
            let ghost before = groups@;
            groups.push(piece);
            assert(crate::text::string_views(groups@) =~= crate::text::string_views(before).push(
                e.subrange(k * 4, k * 4 + 4),
            ));
            assert(crate::text::string_views(groups@) =~= groups_spec(e).take(k + 1));
            k += 1;
        }
        assert(groups_spec(e).take(GROUP_COUNT as int) =~= groups_spec(e));
        groups
    }

    /// Parses a key typed back in: any case, dashes and ASCII whitespace
    /// anywhere, `O` read as `0` and `I`, `L` as `1`. Refuses input that
    /// does not hold exactly 52 other characters, or holds one outside the
    /// alphabet.
    pub fn parse(input: &str) -> (r: Result<RecoveryKey, SchemaError>)
        ensures
            match parse_spec(input.spec_bytes()) {
                Ok(b) => r matches Ok(k) && k@ == b,
                Err(why) => r == Err::<RecoveryKey, SchemaError>(SchemaError::InvalidRecoveryKey(why)),
            },
    {
        let bytes = input.as_bytes();
        let mut cs: Vec<u8> = Vec::new();
        let mut i: usize = 0;
        while i < bytes.len()
            invariant
                i <= bytes@.len(),
                bytes@ == input.spec_bytes(),
                cs@ == cleaned(bytes@.take(i as int)),
            decreases bytes@.len() - i,
        {
            let b = bytes[i];
            assert(bytes@.take(i + 1).drop_last() =~= bytes@.take(i as int));
            if !(b == 0x20 || b == 0x09 || b == 0x0a || b == 0x0c || b == 0x0d || b == 0x2d) {
                cs.push(b);
            }
            i += 1;
        }
        assert(bytes@.take(bytes@.len() as int) =~= bytes@);
        if cs.len() != ENCODED_LEN {
            return Err(SchemaError::InvalidRecoveryKey("wrong length"));
        }
        let mut vs: Vec<u8> = Vec::new();
        let mut k: usize = 0;
        while k < cs.len()
            invariant
                k <= cs@.len(),
                cs@.len() == ENCODED_LEN,
                cs@ == cleaned(input.spec_bytes()),
                vs@.len() == k,
                forall|j: int| 0 <= j < k ==> (#[trigger] char_value(cs@[j])) is Some && vs@[j]
                    == char_value(cs@[j])->0,
            decreases cs@.len() - k,
        {
            match decode_char(cs[k]) {
                Some(v) => vs.push(v),
                None => {
                    assert(char_value(cs@[k as int]) is None);
                    return Err(SchemaError::InvalidRecoveryKey("invalid character"));
                },
            }
            k += 1;
        }
        assert(vs@ =~= values_of(cs@));
        Ok(RecoveryKey(decode(&vs)))
    }

    /// How the key renders for debugging: never its bytes.
    pub fn debug_repr(&self) -> (s: String)
        ensures
            s@ == "RecoveryKey(<redacted>)"@,
    {
        String::from_str("RecoveryKey(<redacted>)")
    }
}

} // verus!
