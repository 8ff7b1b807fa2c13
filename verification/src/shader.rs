//! Shader records and the little-endian byte form of SPIR-V words kept in
//! the `.spv` cache next to each shader source.
use byteorder::{ByteOrder, LittleEndian, WriteBytesExt};
use vstd::prelude::*;
use crate::render_queue::QueueType;

verus! {

/// A shader program: its id, its name, its pipelines and the queue that
/// its nodes are drawn from.
pub struct Shader<P> {
    pub id: u128,
    pub name: String,
    pub pipelines: Vec<P>,
    pub queue_type: QueueType,
}

/// The number that four bytes stand for, least significant first.
pub open spec fn le_u32(b0: u8, b1: u8, b2: u8, b3: u8) -> u32 {
    (b0 as int + 256 * (b1 as int) + 65536 * (b2 as int) + 16777216 * (b3 as int)) as u32
}

/// The four bytes of `n`, least significant first.
pub open spec fn le_bytes(n: u32) -> Seq<u8> {
    seq![
        (n % 256) as u8,
        ((n / 256) % 256) as u8,
        ((n / 65536) % 256) as u8,
        ((n / 16777216) % 256) as u8,
    ]
}

/// The words that a byte sequence stands for, four bytes each.
pub open spec fn words_of(bytes: Seq<u8>) -> Seq<u32> {
    Seq::new(
        bytes.len() / 4,
        |k: int| le_u32(bytes[4 * k], bytes[4 * k + 1], bytes[4 * k + 2], bytes[4 * k + 3]),
    )
}

/// The bytes of a word sequence, four per word.
pub open spec fn bytes_of(words: Seq<u32>) -> Seq<u8> {
    Seq::new(4 * words.len(), |j: int| le_bytes(words[j / 4])[j % 4])
}

/// `byteorder`'s `LittleEndian::read_u32` on the bytes from `offset` on:
/// believed to give the little-endian number of the four bytes there. It
/// panics when fewer than four bytes remain, which `requires` rules out.
#[verifier::external_body]
fn read_u32_le_at(buf: &[u8], offset: usize) -> (r: u32)
    requires
        offset + 4 <= buf@.len(),
    ensures
        r == le_u32(buf@[offset as int], buf@[offset + 1], buf@[offset + 2], buf@[offset + 3]),
{
    LittleEndian::read_u32(&buf[offset..])
}

/// `byteorder`'s `WriteBytesExt::write_u32::<LittleEndian>` on a `Vec<u8>`:
/// believed to append the four little-endian bytes of `n`. Writing to a
/// vector does not fail.
#[verifier::external_body]
fn write_u32_le(out: &mut Vec<u8>, n: u32)
    ensures
        final(out)@ == old(out)@ + le_bytes(n),
{
    out.write_u32::<LittleEndian>(n).unwrap()
}

/// Reads cached SPIR-V: each four bytes, least significant first, make one
/// word.
pub fn decode_spirv(bytes: &[u8]) -> (r: Vec<u32>)
    requires
        bytes@.len() % 4 == 0,
    ensures
        r@ == words_of(bytes@),
        r@.len() == bytes@.len() / 4,
        forall|k: int|
            0 <= k < r@.len() ==> #[trigger] r@[k] as int == bytes@[4 * k] as int + 256 * (bytes@[4
                * k + 1] as int) + 65536 * (bytes@[4 * k + 2] as int) + 16777216 * (bytes@[4 * k
                + 3] as int),
{
    let mut v32: Vec<u32> = Vec::new();
    let len = bytes.len();
    let mut i: usize = 0;
    while i < len
        invariant
            len == bytes@.len(),
            len % 4 == 0,
            i % 4 == 0,
            i <= len,
            v32@.len() == i / 4,
            forall|k: int|
                0 <= k < v32@.len() ==> #[trigger] v32@[k] == le_u32(
                    bytes@[4 * k],
                    bytes@[4 * k + 1],
                    bytes@[4 * k + 2],
                    bytes@[4 * k + 3],
                ),
        decreases len - i,
    {
        let w = read_u32_le_at(bytes, i);
        v32.push(w);
        i = i + 4;
    }
    assert(v32@ =~= words_of(bytes@));
    proof {
        lemma_spirv_word_layout(bytes@, Seq::<u32>::empty());
    }
    v32
}

/// Writes SPIR-V for the cache: each word as four bytes, least
/// significant first.
pub fn encode_spirv(words: &[u32]) -> (r: Vec<u8>)
    requires
        4 * words@.len() <= usize::MAX,
    ensures
        r@ == bytes_of(words@),
        r@.len() == 4 * words@.len(),
        forall|k: int|
            #![trigger words@[k]]
            0 <= k < words@.len() ==> r@[4 * k] as int == words@[k] % 256 && r@[4 * k + 1] as int
                == (words@[k] / 256) % 256 && r@[4 * k + 2] as int == (words@[k] / 65536) % 256
                && r@[4 * k + 3] as int == (words@[k] / 16777216) % 256,
{
    let mut v8: Vec<u8> = Vec::new();
    let len = words.len();
    let mut k: usize = 0;
    while k < len
        invariant
            len == words@.len(),
            k <= len,
            v8@ =~= bytes_of(words@.take(k as int)),
        decreases len - k,
    {
        let ghost before = v8@;
        write_u32_le(&mut v8, words[k]);
        proof {
            let t = words@.take(k + 1);
            assert forall|j: int| 0 <= j < 4 * t.len() implies v8@[j] == le_bytes(t[j / 4])[j % 4] by {
                if j < 4 * k {
                    assert(words@.take(k as int)[j / 4] == t[j / 4]);
                } else {
                    assert(j / 4 == k);
                }
            }
            assert(v8@ =~= bytes_of(t));
        }
        k = k + 1;
    }
    assert(words@.take(len as int) =~= words@);
    proof {
        lemma_spirv_word_layout(Seq::<u8>::empty(), words@);
    }
    v8
}

/// The four bytes of a number read back give the number.
pub proof fn lemma_le_u32_of_bytes(n: u32)
    ensures
        le_u32(le_bytes(n)[0], le_bytes(n)[1], le_bytes(n)[2], le_bytes(n)[3]) == n,
{
    let b = le_bytes(n);
    assert(b[0] == n % 256);
    assert(b[1] == (n / 256) % 256);
    assert(b[2] == (n / 65536) % 256);
    assert(b[3] == (n / 16777216) % 256);
    assert(n % 256 + 256 * ((n / 256) % 256) + 65536 * ((n / 65536) % 256) + 16777216 * (
    (n / 16777216) % 256) == n) by (nonlinear_arith);
}

/// A number made of four bytes gives back those bytes.
pub proof fn lemma_le_bytes_of_u32(b0: u8, b1: u8, b2: u8, b3: u8)
    ensures
        le_bytes(le_u32(b0, b1, b2, b3)) == seq![b0, b1, b2, b3],
{
    let n = le_u32(b0, b1, b2, b3);
    let x = b0 as int + 256 * (b1 as int) + 65536 * (b2 as int) + 16777216 * (b3 as int);
    assert(x < 4294967296);
    assert(n == x);
    assert((n % 256) as u8 == b0) by (nonlinear_arith)
        requires
            n == b0 as int + 256 * (b1 as int) + 65536 * (b2 as int) + 16777216 * (b3 as int),
    ;
    assert(((n / 256) % 256) as u8 == b1) by (nonlinear_arith)
        requires
            n == b0 as int + 256 * (b1 as int) + 65536 * (b2 as int) + 16777216 * (b3 as int),
    ;
    assert(((n / 65536) % 256) as u8 == b2) by (nonlinear_arith)
        requires
            n == b0 as int + 256 * (b1 as int) + 65536 * (b2 as int) + 16777216 * (b3 as int),
    ;
    assert(((n / 16777216) % 256) as u8 == b3) by (nonlinear_arith)
        requires
            n == b0 as int + 256 * (b1 as int) + 65536 * (b2 as int) + 16777216 * (b3 as int),
    ;
    assert(le_bytes(n) =~= seq![b0, b1, b2, b3]);
}

/// Words written to the cache read back as the same words.
pub proof fn lemma_decode_encode(words: Seq<u32>)
    ensures
        words_of(bytes_of(words)) == words,
{
    let b = bytes_of(words);
    assert forall|k: int| 0 <= k < words.len() implies #[trigger] words_of(b)[k] == words[k] by {
        assert((4 * k) / 4 == k);
        assert((4 * k + 1) / 4 == k && (4 * k + 1) % 4 == 1);
        assert((4 * k + 2) / 4 == k && (4 * k + 2) % 4 == 2);
        assert((4 * k + 3) / 4 == k && (4 * k + 3) % 4 == 3);
        lemma_le_u32_of_bytes(words[k]);
    }
    assert(words_of(b) =~= words);
}

/// Cached bytes whose length is a multiple of four are written back
/// unchanged.
pub proof fn lemma_encode_decode(bytes: Seq<u8>)
    requires
        bytes.len() % 4 == 0,
    ensures
        bytes_of(words_of(bytes)) == bytes,
{
    let w = words_of(bytes);
    assert forall|j: int| 0 <= j < bytes.len() implies #[trigger] bytes_of(w)[j] == bytes[j] by {
        let k = j / 4;
        let r = j % 4;
        assert(j == 4 * k + r);
        lemma_le_bytes_of_u32(bytes[4 * k], bytes[4 * k + 1], bytes[4 * k + 2], bytes[4 * k + 3]);
    }
    assert(bytes_of(w) =~= bytes);
}

/// The word layout of the cache, stated digit by digit: word `k` is made of
/// bytes `4k` to `4k + 3`, the first of them the least significant, and
/// each word is written as its four base-256 digits, least significant
/// first.
pub proof fn lemma_spirv_word_layout(bytes: Seq<u8>, words: Seq<u32>)
    ensures
        words_of(bytes).len() == bytes.len() / 4,
        forall|k: int|
            0 <= k < bytes.len() / 4 ==> #[trigger] words_of(bytes)[k] as int == bytes[4 * k] as int
                + 256 * (bytes[4 * k + 1] as int) + 65536 * (bytes[4 * k + 2] as int) + 16777216 * (
            bytes[4 * k + 3] as int),
        bytes_of(words).len() == 4 * words.len(),
        forall|k: int|
            #![trigger words[k]]
            0 <= k < words.len() ==> bytes_of(words)[4 * k] as int == words[k] % 256
                && bytes_of(words)[4 * k + 1] as int == (words[k] / 256) % 256
                && bytes_of(words)[4 * k + 2] as int == (words[k] / 65536) % 256
                && bytes_of(words)[4 * k + 3] as int == (words[k] / 16777216) % 256,
{
    assert forall|k: int| 0 <= k < bytes.len() / 4 implies #[trigger] words_of(bytes)[k] as int
        == bytes[4 * k] as int + 256 * (bytes[4 * k + 1] as int) + 65536 * (bytes[4 * k + 2] as int)
        + 16777216 * (bytes[4 * k + 3] as int) by {
        let x = bytes[4 * k] as int + 256 * (bytes[4 * k + 1] as int) + 65536 * (
        bytes[4 * k + 2] as int) + 16777216 * (bytes[4 * k + 3] as int);
        assert(0 <= x < 4294967296);
    }
    assert forall|k: int| #![trigger words[k]] 0 <= k < words.len() implies bytes_of(words)[4 * k] as int
        == words[k] % 256 && bytes_of(words)[4 * k + 1] as int == (words[k] / 256) % 256
        && bytes_of(words)[4 * k + 2] as int == (words[k] / 65536) % 256
        && bytes_of(words)[4 * k + 3] as int == (words[k] / 16777216) % 256 by {
        assert((4 * k) / 4 == k && (4 * k) % 4 == 0);
        assert((4 * k + 1) / 4 == k && (4 * k + 1) % 4 == 1);
        assert((4 * k + 2) / 4 == k && (4 * k + 2) % 4 == 2);
        assert((4 * k + 3) / 4 == k && (4 * k + 3) % 4 == 3);
    }
}

/// Decoding does not depend on where a word stands: the words of two byte
/// runs laid end to end are the words of the first run followed by those
/// of the second, when the first is whole words long.
pub proof fn lemma_words_of_concat(a: Seq<u8>, b: Seq<u8>)
    requires
        a.len() % 4 == 0,
    ensures
        words_of(a + b) == words_of(a) + words_of(b),
{
    let n = a.len() / 4;
    assert(a.len() == 4 * n);
    assert((a.len() + b.len()) / 4 == n + b.len() / 4);
    let c = a + b;
    assert forall|k: int| 0 <= k < words_of(c).len() implies #[trigger] words_of(c)[k] == (
    words_of(a) + words_of(b))[k] by {
        if k < n {
            assert(4 * k + 3 < a.len());
            assert(c[4 * k] == a[4 * k]);
            assert(c[4 * k + 1] == a[4 * k + 1]);
            assert(c[4 * k + 2] == a[4 * k + 2]);
            assert(c[4 * k + 3] == a[4 * k + 3]);
        } else {
            let k2 = k - n;
            assert(4 * k == a.len() + 4 * k2);
            assert(4 * k2 + 3 < b.len());
            assert(c[4 * k] == b[4 * k2]);
            assert(c[4 * k + 1] == b[4 * k2 + 1]);
            assert(c[4 * k + 2] == b[4 * k2 + 2]);
            assert(c[4 * k + 3] == b[4 * k2 + 3]);
        }
    }
    assert(words_of(c) =~= words_of(a) + words_of(b));
}

/// Encoding does not depend on where a word stands: the bytes of two word
/// runs laid end to end are the bytes of the first followed by those of the
/// second.
pub proof fn lemma_bytes_of_concat(w1: Seq<u32>, w2: Seq<u32>)
    ensures
        bytes_of(w1 + w2) == bytes_of(w1) + bytes_of(w2),
{
    let w = w1 + w2;
    assert forall|j: int| 0 <= j < bytes_of(w).len() implies #[trigger] bytes_of(w)[j] == (
    bytes_of(w1) + bytes_of(w2))[j] by {
        if j < 4 * w1.len() {
            assert(j / 4 < w1.len());
            assert(w[j / 4] == w1[j / 4]);
        } else {
            let j2 = j - 4 * w1.len();
            assert(j / 4 == j2 / 4 + w1.len());
            assert(j % 4 == j2 % 4);
            assert(w[j / 4] == w2[j2 / 4]);
        }
    }
    assert(bytes_of(w) =~= bytes_of(w1) + bytes_of(w2));
}

/// Where the compiled form of a shader source is cached: the source path
/// with `.spv` appended.
pub fn spirv_cache_path(file_path: &str) -> (r: String)
    ensures
        r@ == file_path@ + ".spv"@,
{
    let mut spv_path = String::from_str(file_path);
    spv_path.append(".spv");
    spv_path
}

} // verus!
