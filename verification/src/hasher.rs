//! Content hashes of image files: the SHA-256 of the whole file, and a
//! cheaper "perceptual" hash of its first and last kibibyte and its length,
//! both written as 64 lowercase hexadecimal digits.

use vstd::prelude::*;
use sha2::Digest;

verus! {

/// The SHA-256 digest of a byte sequence.
pub uninterp spec fn sha256(data: Seq<u8>) -> Seq<u8>;

/// Calls `sha2::Sha256::digest`: the SHA-256 digest of `data`, which
/// is 32 bytes long (the output size of `Sha256`).
#[verifier::external_body]
fn sha256_digest(data: &[u8]) -> (r: Vec<u8>)
    ensures
        r@ == sha256(data@),
        r@.len() == 32,
{
    sha2::Sha256::digest(data).to_vec()
}

pub open spec fn hex_digit(n: u8) -> char {
    if n < 10 {
        ('0' as u8 + n) as char
    } else {
        ('a' as u8 + (n - 10)) as char
    }
}

/// Each byte as two lowercase hexadecimal digits, the high half first.
pub open spec fn lower_hex(bytes: Seq<u8>) -> Seq<char>
    decreases bytes.len(),
{
    if bytes.len() == 0 {
        Seq::empty()
    } else {
        lower_hex(bytes.drop_last()) + seq![hex_digit(bytes.last() / 16), hex_digit(bytes.last() % 16)]
    }
}

proof fn lemma_lower_hex_len(bytes: Seq<u8>)
    ensures
        lower_hex(bytes).len() == 2 * bytes.len(),
    decreases bytes.len(),
{
    if bytes.len() > 0 {
        lemma_lower_hex_len(bytes.drop_last());
    }
}

/// The one-character string of a hexadecimal digit.
fn hex_digit_str(n: u8) -> (r: &'static str)
    requires
        n < 16,
    ensures
        r@ == seq![hex_digit(n)],
{
    proof {
        reveal_strlit("0");
        reveal_strlit("1");
        reveal_strlit("2");
        reveal_strlit("3");
        reveal_strlit("4");
        reveal_strlit("5");
        reveal_strlit("6");
        reveal_strlit("7");
        reveal_strlit("8");
        reveal_strlit("9");
        reveal_strlit("a");
        reveal_strlit("b");
        reveal_strlit("c");
        reveal_strlit("d");
        reveal_strlit("e");
        reveal_strlit("f");
    }
    let r = match n {
        0 => "0",
        1 => "1",
        2 => "2",
        3 => "3",
        4 => "4",
        5 => "5",
        6 => "6",
        7 => "7",
        8 => "8",
        9 => "9",
        10 => "a",
        11 => "b",
        12 => "c",
        13 => "d",
        14 => "e",
        _ => "f",
    };
    assert(r@ =~= seq![hex_digit(n)]);
    r
}

/// Writes bytes as lowercase hexadecimal, two digits per byte.
pub fn to_lower_hex(bytes: &[u8]) -> (r: String)
    ensures
        r@ == lower_hex(bytes@),
{
    let mut r = String::new();
    let mut i: usize = 0;
    while i < bytes.len()
        invariant
            i <= bytes.len(),
            r@ == lower_hex(bytes@.take(i as int)),
        decreases bytes.len() - i,
    {
        let b = bytes[i];
        r.append(hex_digit_str(b / 16));
        r.append(hex_digit_str(b % 16));
        assert(bytes@.take(i + 1).drop_last() =~= bytes@.take(i as int));
        assert(r@ =~= lower_hex(bytes@.take(i + 1)));
        i = i + 1;
    }
    assert(bytes@.take(i as int) =~= bytes@);
    r
}

/// The content hash of a file's bytes.
pub open spec fn content_hash_of(data: Seq<u8>) -> Seq<char> {
    lower_hex(sha256(data))
}

/// The content hash of a file's bytes: the SHA-256 digest as 64 lowercase
/// hexadecimal digits.
pub fn content_hash(data: &[u8]) -> (r: String)
    ensures
        r@ == content_hash_of(data@),
        r@.len() == 64,
{
    let digest = sha256_digest(data);
    let r = to_lower_hex(digest.as_slice());
    proof {
        lemma_lower_hex_len(digest@);
    }
    r
}

/// How many bytes of the start and of the end of a file the perceptual hash reads.
pub const EDGE_LEN: usize = 1024;

/// The first kibibyte of the data, or all of it when it is not longer.
pub open spec fn leading_part(data: Seq<u8>) -> Seq<u8> {
    if data.len() > EDGE_LEN { data.take(EDGE_LEN as int) } else { data }
}

/// The last kibibyte of the data, or all of it when it is not longer.
pub open spec fn trailing_part(data: Seq<u8>) -> Seq<u8> {
    if data.len() > EDGE_LEN { data.skip(data.len() - EDGE_LEN) } else { data }
}

/// The `count` little-endian bytes of `n`.
pub open spec fn le_bytes(n: nat, count: nat) -> Seq<u8>
    decreases count,
{
    if count == 0 {
        Seq::empty()
    } else {
        seq![(n % 256) as u8] + le_bytes(n / 256, (count - 1) as nat)
    }
}

/// The number of bytes of a `usize`.
pub open spec fn usize_bytes() -> nat {
    (usize::BITS / 8) as nat
}

/// What the perceptual hash digests: the leading part, the trailing part,
/// and the length as the little-endian bytes of a `usize`.
pub open spec fn perceptual_input(data: Seq<u8>) -> Seq<u8> {
    leading_part(data) + trailing_part(data) + le_bytes(data.len(), usize_bytes())
}

/// The perceptual hash of a file's bytes.
pub open spec fn perceptual_hash_of(data: Seq<u8>) -> Seq<char> {
    lower_hex(sha256(perceptual_input(data)))
}

/// Appends `data[from..to]` to `out`.
fn push_range(out: &mut Vec<u8>, data: &[u8], from: usize, to: usize)
    requires
        from <= to <= data@.len(),
    ensures
        final(out)@ == old(out)@ + data@.subrange(from as int, to as int),
{
    let mut i = from;
    while i < to
        invariant
            from <= i <= to,
            to <= data@.len(),
            out@ == old(out)@ + data@.subrange(from as int, i as int),
        decreases to - i,
    {
        out.push(data[i]);
        assert(data@.subrange(from as int, i + 1) =~= data@.subrange(from as int, i as int).push(data@[i as int]));
        i = i + 1;
    }
}

proof fn lemma_le_bytes_step(n: nat, done: nat, count: nat)
    requires
        done < count,
    ensures
        le_bytes(n, count)[done as int] == ((n / pow256(done)) % 256) as u8,
        le_bytes(n, count).len() == count,
    decreases count,
{
    lemma_le_bytes_len(n, count);
    lemma_le_bytes_len(n / 256, (count - 1) as nat);
    let tail = le_bytes(n / 256, (count - 1) as nat);
    assert(le_bytes(n, count) == seq![(n % 256) as u8] + tail);
    if done > 0 {
        lemma_le_bytes_step(n / 256, (done - 1) as nat, (count - 1) as nat);
        lemma_div_div_256(n, (done - 1) as nat);
        assert(le_bytes(n, count)[done as int] == tail[done - 1]);
    } else {
        assert(pow256(0) == 1);
        assert(n / 1 == n);
    }
}

proof fn lemma_le_bytes_len(n: nat, count: nat)
    ensures
        le_bytes(n, count).len() == count,
    decreases count,
{
    if count > 0 {
        lemma_le_bytes_len(n / 256, (count - 1) as nat);
    }
}

pub open spec fn pow256(k: nat) -> nat
    decreases k,
{
    if k == 0 { 1 } else { 256 * pow256((k - 1) as nat) }
}

proof fn lemma_pow256_positive(k: nat)
    ensures
        pow256(k) > 0,
    decreases k,
{
    if k > 0 {
        lemma_pow256_positive((k - 1) as nat);
    }
}

proof fn lemma_div_div_256(n: nat, k: nat)
    ensures
        (n / 256) / pow256(k) == n / pow256(k + 1),
        (n / pow256(k)) / 256 == n / pow256(k + 1),
{
    lemma_pow256_positive(k);
    assert(pow256(k + 1) == 256 * pow256(k));
    vstd::arithmetic::div_mod::lemma_div_denominator(n as int, 256, pow256(k) as int);
    vstd::arithmetic::div_mod::lemma_div_denominator(n as int, pow256(k) as int, 256);
    assert(256 * pow256(k) == pow256(k) * 256) by (nonlinear_arith);
}

/// Appends the little-endian bytes of a length.
fn push_le_bytes(out: &mut Vec<u8>, n: usize)
    ensures
        final(out)@ == old(out)@ + le_bytes(n as nat, usize_bytes()),
{
    let count: u32 = usize::BITS / 8;
    let mut rest: usize = n;
    let mut done: u32 = 0;
    let ghost start = out@;
    proof {
        lemma_le_bytes_len(n as nat, count as nat);
        assert(pow256(0) == 1);
        assert(n as nat / 1 == n as nat);
    }
    while done < count
        invariant
            count as nat == usize_bytes(),
            done <= count,
            le_bytes(n as nat, count as nat).len() == count,
            rest as nat == (n as nat) / pow256(done as nat),
            out@ == start + le_bytes(n as nat, count as nat).take(done as int),
        decreases count - done,
    {
        proof {
            lemma_le_bytes_step(n as nat, done as nat, count as nat);
            lemma_div_div_256(n as nat, done as nat);
        }
        out.push((rest % 256) as u8);
        rest = rest / 256;
        assert(le_bytes(n as nat, count as nat).take(done + 1) =~= le_bytes(n as nat, count as nat).take(done as int).push(((n as nat / pow256(done as nat)) % 256) as u8));
        done = done + 1;
    }
    assert(le_bytes(n as nat, count as nat).take(done as int) =~= le_bytes(n as nat, count as nat));
}

/// The perceptual hash of a file's bytes: the SHA-256 digest of its first
/// kibibyte, its last kibibyte (the whole data for each when it is not
/// longer than that) and its length as the little-endian bytes of a
/// `usize`, as 64 lowercase hexadecimal digits.
pub fn perceptual_hash(data: &[u8]) -> (r: String)
    ensures
        r@ == perceptual_hash_of(data@),
        r@.len() == 64,
{
    let n = data.len();
    let mut input: Vec<u8> = Vec::new();
    if n > EDGE_LEN {
        push_range(&mut input, data, 0, EDGE_LEN);
        push_range(&mut input, data, n - EDGE_LEN, n);
    } else {
        push_range(&mut input, data, 0, n);
        push_range(&mut input, data, 0, n);
    }
    push_le_bytes(&mut input, n);
    assert(data@.subrange(0, n as int) =~= data@);
    assert(input@ =~= perceptual_input(data@));
    let digest = sha256_digest(input.as_slice());
    let r = to_lower_hex(digest.as_slice());
    proof {
        lemma_lower_hex_len(digest@);
    }
    r
}

/// Files with the same bytes have the same content hash and the same
/// perceptual hash: both hashes are functions of the bytes alone.
pub proof fn lemma_hashes_depend_on_content_only(a: Seq<u8>, b: Seq<u8>)
    requires
        a == b,
    ensures
        content_hash_of(a) == content_hash_of(b),
        perceptual_hash_of(a) == perceptual_hash_of(b),
{
}

/// Files of the same length whose first and last kibibytes agree have the
/// same perceptual hash, whatever lies between.
pub proof fn lemma_perceptual_hash_reads_only_the_edges(a: Seq<u8>, b: Seq<u8>)
    requires
        a.len() == b.len(),
        leading_part(a) == leading_part(b),
        trailing_part(a) == trailing_part(b),
    ensures
        perceptual_hash_of(a) == perceptual_hash_of(b),
{
    assert(perceptual_input(a) =~= perceptual_input(b));
}

/// The character that writes a hexadecimal digit `d` (below 16), as a code point.
pub open spec fn hex_char_code(d: int) -> int {
    if d < 10 { '0' as int + d } else { 'a' as int + (d - 10) }
}

/// Lowercase hexadecimal writes each byte as two characters, the high half
/// first: `0`–`9` for 0–9 and `a`–`f` for 10–15.
pub proof fn lemma_lower_hex_digits(bytes: Seq<u8>)
    ensures
        lower_hex(bytes).len() == 2 * bytes.len(),
        forall|i: int| 0 <= i < bytes.len() ==> {
            &&& lower_hex(bytes)[2 * i] as int == hex_char_code((#[trigger] bytes[i] / 16) as int)
            &&& lower_hex(bytes)[2 * i + 1] as int == hex_char_code((bytes[i] % 16) as int)
        },
    decreases bytes.len(),
{
    lemma_lower_hex_len(bytes);
    if bytes.len() > 0 {
        let prev = bytes.drop_last();
        lemma_lower_hex_digits(prev);
        lemma_lower_hex_len(prev);
        let last = bytes.last();
        assert(lower_hex(bytes) == lower_hex(prev) + seq![hex_digit(last / 16), hex_digit(last % 16)]);
        assert forall|i: int| 0 <= i < bytes.len() implies {
            &&& lower_hex(bytes)[2 * i] as int == hex_char_code((#[trigger] bytes[i] / 16) as int)
            &&& lower_hex(bytes)[2 * i + 1] as int == hex_char_code((bytes[i] % 16) as int)
        } by {
            if i < prev.len() {
                assert(prev[i] == bytes[i]);
                assert(lower_hex(bytes)[2 * i] == lower_hex(prev)[2 * i]);
                assert(lower_hex(bytes)[2 * i + 1] == lower_hex(prev)[2 * i + 1]);
            } else {
                assert(i == prev.len());
                assert(lower_hex(bytes)[2 * i] == hex_digit(last / 16));
                assert(lower_hex(bytes)[2 * i + 1] == hex_digit(last % 16));
            }
        }
    }
}

proof fn lemma_hex_char_code_injective(d: int, e: int)
    requires
        0 <= d < 16,
        0 <= e < 16,
        hex_char_code(d) == hex_char_code(e),
    ensures
        d == e,
{
}

/// Different bytes give different hexadecimal text.
pub proof fn lemma_lower_hex_injective(a: Seq<u8>, b: Seq<u8>)
    requires
        lower_hex(a) == lower_hex(b),
    ensures
        a == b,
{
    lemma_lower_hex_digits(a);
    lemma_lower_hex_digits(b);
    assert(a.len() == b.len());
    assert forall|i: int| 0 <= i < a.len() implies a[i] == b[i] by {
        assert(lower_hex(a)[2 * i] == lower_hex(b)[2 * i]);
        assert(lower_hex(a)[2 * i + 1] == lower_hex(b)[2 * i + 1]);
        let x = a[i];
        let y = b[i];
        assert(x / 16 < 16 && y / 16 < 16) by (bit_vector);
        assert(x % 16 < 16 && y % 16 < 16) by (bit_vector);
        assert(hex_char_code((x / 16) as int) == hex_char_code((y / 16) as int));
        assert(hex_char_code((x % 16) as int) == hex_char_code((y % 16) as int));
        lemma_hex_char_code_injective((x / 16) as int, (y / 16) as int);
        lemma_hex_char_code_injective((x % 16) as int, (y % 16) as int);
        assert(x == y) by (bit_vector)
            requires
                x / 16 == y / 16,
                x % 16 == y % 16,
        ;
    }
    assert(a =~= b);
}

/// The content hash is the SHA-256 digest of the whole file, every byte of
/// it, written as 64 lowercase hexadecimal digits when the digest has its
/// 32 bytes; files whose digests differ get different content hashes.
pub proof fn lemma_content_hash_digests_whole_file(a: Seq<u8>, b: Seq<u8>)
    ensures
        content_hash_of(a) == lower_hex(sha256(a)),
        content_hash_of(a).len() == 2 * sha256(a).len(),
        sha256(a) != sha256(b) ==> content_hash_of(a) != content_hash_of(b),
{
    lemma_lower_hex_len(sha256(a));
    if content_hash_of(a) == content_hash_of(b) {
        lemma_lower_hex_injective(sha256(a), sha256(b));
    }
}

/// The `count` little-endian bytes of `n`: byte `i` is `n / 256^i` modulo
/// 256; a `usize` has `usize::BITS / 8` of them.
pub proof fn lemma_le_bytes_are_little_endian(n: nat, count: nat)
    ensures
        le_bytes(n, count).len() == count,
        forall|i: int| 0 <= i < count ==> #[trigger] le_bytes(n, count)[i] == ((n / pow256(i as nat)) % 256) as u8,
        pow256(0) == 1,
        forall|k: nat| #[trigger] pow256(k + 1) == 256 * pow256(k),
        usize_bytes() * 8 == usize::BITS,
{
    lemma_le_bytes_len(n, count);
    assert forall|i: int| 0 <= i < count implies #[trigger] le_bytes(n, count)[i] == ((n / pow256(i as nat)) % 256) as u8 by {
        lemma_le_bytes_step(n, i as nat, count);
    }
}

/// The perceptual hash digests the first kibibyte, then the last kibibyte
/// (the bytes from `len - 1024` to the end), then the length as the
/// little-endian bytes of a `usize`; a file of at most a kibibyte is taken
/// whole for both parts.  Two files of one length that agree on the first
/// kibibyte but not on the last one give different digest inputs, and when
/// their digests differ, different perceptual hashes.
pub proof fn lemma_perceptual_hash_reads_both_ends(a: Seq<u8>, b: Seq<u8>)
    ensures
        a.len() > 1024 ==> perceptual_hash_of(a) == lower_hex(sha256(
            a.subrange(0, 1024) + a.subrange(a.len() - 1024, a.len() as int) + le_bytes(a.len(), usize_bytes()),
        )),
        a.len() <= 1024 ==> perceptual_hash_of(a) == lower_hex(sha256(a + a + le_bytes(a.len(), usize_bytes()))),
        ({
            let ia = a.subrange(0, 1024) + a.subrange(a.len() - 1024, a.len() as int) + le_bytes(a.len(), usize_bytes());
            let ib = b.subrange(0, 1024) + b.subrange(b.len() - 1024, b.len() as int) + le_bytes(b.len(), usize_bytes());
            a.len() == b.len() && a.len() > 1024 && a.subrange(0, 1024) == b.subrange(0, 1024)
                && a.subrange(a.len() - 1024, a.len() as int) != b.subrange(b.len() - 1024, b.len() as int)
            ==> ia != ib && (sha256(ia) != sha256(ib) ==> perceptual_hash_of(a) != perceptual_hash_of(b))
        }),
{
    if a.len() > 1024 {
        assert(perceptual_input(a) =~= a.subrange(0, 1024) + a.subrange(a.len() - 1024, a.len() as int) + le_bytes(a.len(), usize_bytes()));
    } else {
        assert(perceptual_input(a) =~= a + a + le_bytes(a.len(), usize_bytes()));
    }
    if b.len() > 1024 {
        assert(perceptual_input(b) =~= b.subrange(0, 1024) + b.subrange(b.len() - 1024, b.len() as int) + le_bytes(b.len(), usize_bytes()));
    }
    let ia = a.subrange(0, 1024) + a.subrange(a.len() - 1024, a.len() as int) + le_bytes(a.len(), usize_bytes());
    let ib = b.subrange(0, 1024) + b.subrange(b.len() - 1024, b.len() as int) + le_bytes(b.len(), usize_bytes());
    if a.len() == b.len() && a.len() > 1024 && a.subrange(0, 1024) == b.subrange(0, 1024)
        && a.subrange(a.len() - 1024, a.len() as int) != b.subrange(b.len() - 1024, b.len() as int) {
        let ta = a.subrange(a.len() - 1024, a.len() as int);
        let tb = b.subrange(b.len() - 1024, b.len() as int);
        assert(ia.subrange(1024, 2048) =~= ta);
        assert(ib.subrange(1024, 2048) =~= tb);
        if sha256(ia) != sha256(ib) && perceptual_hash_of(a) == perceptual_hash_of(b) {
            lemma_lower_hex_injective(sha256(ia), sha256(ib));
        }
    }
}

// ---------------------------------------------------------------------------
// A hashing run

/// What a hashing run does next.
#[derive(PartialEq, Eq, Structural, Clone, Copy, Debug)]
pub enum HashAction {
    /// Hash the images of the batch just fetched and store their hashes.
    HashBatch,
    /// No image is left without a hash: the run is over.
    Finish,
}

/// The progress of a hashing run, which fetches batches of images without
/// a content hash until none is left.
pub struct HashRun {
    pub batch_size: usize,
    pub total_hashed: usize,
}

impl HashRun {
    /// A run that fetches up to `batch_size` images at a time and has hashed none yet.
    pub fn start(batch_size: usize) -> (r: Self)
        ensures
            r.batch_size == batch_size,
            r.total_hashed == 0,
    {
        HashRun { batch_size, total_hashed: 0 }
    }

    /// What to do with a batch just fetched: an empty batch ends the run.
    pub fn on_batch_fetched(&self, batch_len: usize) -> (r: HashAction)
        ensures
            r == (if batch_len == 0 { HashAction::Finish } else { HashAction::HashBatch }),
    {
        if batch_len == 0 {
            HashAction::Finish
        } else {
            HashAction::HashBatch
        }
    }

    /// Counts a batch whose hashes are stored; returns the total so far.
    pub fn on_batch_hashed(&mut self, batch_len: usize) -> (r: usize)
        requires
            old(self).total_hashed + batch_len <= usize::MAX,
        ensures
            final(self).total_hashed == old(self).total_hashed + batch_len,
            final(self).batch_size == old(self).batch_size,
            r == final(self).total_hashed,
    {
        self.total_hashed = self.total_hashed + batch_len;
        self.total_hashed
    }
}

} // verus!
