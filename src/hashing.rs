//! Content digests (BLAKE3, lowercase hex), block lists, and the rolling checksum.
use vstd::prelude::*;
use vstd::arithmetic::div_mod::{
    lemma_add_mod_noop, lemma_mod_mod, lemma_mod_self_0, lemma_mul_mod_noop_left, lemma_small_mod,
    lemma_sub_mod_noop,
};
use vstd::slice::slice_subrange;

verus! {

/// The 32-byte BLAKE3 digest of `data`.
pub uninterp spec fn blake3_digest(data: Seq<u8>) -> Seq<u8>;

/// The input that a BLAKE3 hasher has absorbed since it was created.
pub uninterp spec fn hasher_input(h: blake3::Hasher) -> Seq<u8>;

#[verifier::external_type_specification]
#[verifier::external_body]
pub struct ExBlake3Hasher(blake3::Hasher);

/// Relies on `blake3::hash`: the 32-byte digest depends on the input alone.
#[verifier::external_body]
fn blake3_hash(data: &[u8]) -> (r: [u8; 32])
    ensures
        r@ == blake3_digest(data@),
{
    *blake3::hash(data).as_bytes()
}

/// Relies on `blake3::Hasher::new`: a fresh hasher has absorbed nothing.
#[verifier::external_body]
fn blake3_hasher_new() -> (h: blake3::Hasher)
    ensures
        hasher_input(h) == Seq::<u8>::empty(),
{
    blake3::Hasher::new()
}

/// Relies on `blake3::Hasher::update`: the bytes are appended to the absorbed input.
#[verifier::external_body]
fn blake3_hasher_update(h: &mut blake3::Hasher, data: &[u8])
    ensures
        hasher_input(*final(h)) == hasher_input(*old(h)) + data@,
{
    h.update(data);
}

/// Relies on `blake3::Hasher::finalize`: the digest of everything absorbed, the same
/// as `blake3::hash` of the concatenated input.
#[verifier::external_body]
fn blake3_hasher_finalize(h: &blake3::Hasher) -> (r: [u8; 32])
    ensures
        r@ == blake3_digest(hasher_input(*h)),
{
    *h.finalize().as_bytes()
}

/// The lowercase hexadecimal digit for a value below 16.
pub open spec fn hex_digit(v: u8) -> char {
    if v < 10 {
        (('0' as u8) + v) as char
    } else {
        (('a' as u8) + (v - 10)) as char
    }
}

/// Lowercase hexadecimal encoding, two digits per byte, high nibble first.
pub open spec fn hex_lower(bytes: Seq<u8>) -> Seq<char>
    decreases bytes.len(),
{
    if bytes.len() == 0 {
        Seq::empty()
    } else {
        hex_lower(bytes.drop_last()) + seq![hex_digit(bytes.last() / 16), hex_digit(bytes.last() % 16)]
    }
}

/// The content digest of `data` as it is exchanged: lowercase hex of its BLAKE3 digest.
pub open spec fn content_digest(data: Seq<u8>) -> Seq<char> {
    hex_lower(blake3_digest(data))
}

fn hex_char(v: u8) -> (c: char)
    requires
        v < 16,
    ensures
        c == hex_digit(v),
{
    if v < 10 {
        (('0' as u8) + v) as char
    } else {
        (('a' as u8) + (v - 10)) as char
    }
}

/// Encodes bytes as lowercase hexadecimal.
pub fn to_hex(bytes: &[u8]) -> (r: String)
    ensures
        r@ == hex_lower(bytes@),
{
    let mut r = String::new();
    let mut i: usize = 0;
    while i < bytes.len()
        invariant
            i <= bytes@.len(),
            r@ == hex_lower(bytes@.subrange(0, i as int)),
        decreases bytes@.len() - i,
    {
        let b = bytes[i];
        let hi = hex_char(b / 16);
        let lo = hex_char(b % 16);
        let ghost before = r@;
        r.push(hi);
        r.push(lo);
        proof {
            let s = bytes@.subrange(0, i + 1);
            assert(s.drop_last() =~= bytes@.subrange(0, i as int));
            assert(r@ =~= before + seq![hi, lo]);
        }
        i = i + 1;
    }
    proof {
        assert(bytes@.subrange(0, bytes@.len() as int) =~= bytes@);
    }
    r
}


/// Hashing is deterministic: two digests computed from the same bytes, whole
/// or incrementally, are the same string.
pub proof fn lemma_digest_deterministic(data: Seq<u8>, first: Seq<char>, second: Seq<char>)
    requires
        first == content_digest(data),
        second == content_digest(data),
    ensures
        first == second,
{
}

/// Incremental content hasher: absorb chunks with `update`, then `finalize` once.
pub struct FileHasher {
    hasher: blake3::Hasher,
}

impl FileHasher {
    /// The bytes absorbed so far.
    pub closed spec fn absorbed(&self) -> Seq<u8> {
        hasher_input(self.hasher)
    }

    pub fn new() -> (r: Self)
        ensures
            r.absorbed() == Seq::<u8>::empty(),
    {
        FileHasher { hasher: blake3_hasher_new() }
    }

    pub fn update(&mut self, data: &[u8])
        ensures
            final(self).absorbed() == old(self).absorbed() + data@,
    {
        blake3_hasher_update(&mut self.hasher, data);
    }

    /// Consumes the hasher and yields the digest of everything absorbed.
    pub fn finalize(self) -> (r: String)
        ensures
            r@ == content_digest(self.absorbed()),
    {
        let digest = blake3_hasher_finalize(&self.hasher);
        to_hex(&digest)
    }

    /// The content digest of a whole buffer.
    pub fn hash_bytes(data: &[u8]) -> (r: String)
        ensures
            r@ == content_digest(data@),
    {
        let digest = blake3_hash(data);
        to_hex(&digest)
    }

    /// Splits `data` into consecutive blocks of `block_size` bytes (the last one
    /// possibly shorter) and hashes each. A block size of zero yields no blocks.
    pub fn hash_blocks(data: &[u8], block_size: usize) -> (r: Vec<BlockHash>)
        ensures
            is_block_partition(data@, block_size as int, r@),
    {
        let mut blocks: Vec<BlockHash> = Vec::new();
        if block_size == 0 {
            return blocks;
        }
        let mut offset: usize = 0;
        assert(blocks@.len() == 0);
        assert(0 * block_size == 0);
        while offset < data.len()
            invariant
                block_size > 0,
                offset <= data@.len(),
                offset <= blocks@.len() * block_size < offset + block_size,
                offset < data@.len() ==> offset as int == blocks@.len() * block_size,
                blocks@.len() > 0 ==> offset > 0,
                forall|k: int| 0 <= k < blocks@.len() ==> #[trigger] is_block_at(data@, block_size as int, k, blocks@[k]),
            decreases data@.len() - offset,
        {
            let remaining = data.len() - offset;
            let size = if remaining < block_size { remaining } else { block_size };
            let block_data = slice_subrange(data, offset, offset + size);
            let hash = Self::hash_bytes(block_data);
            let ghost k = blocks@.len() as int;
            blocks.push(BlockHash { offset, size, hash });
            proof {
                assert(is_block_at(data@, block_size as int, k, blocks@[k]));
                assert((k + 1) * block_size == k * block_size + block_size) by (nonlinear_arith);
            }
            offset = offset + size;
        }
        proof {
            lemma_block_count(data@.len() as int, block_size as int, blocks@.len() as int);
        }
        blocks
    }
}

impl Default for FileHasher {
    fn default() -> (r: Self)
        ensures
            r.absorbed() == Seq::<u8>::empty(),
    {
        Self::new()
    }
}

/// The digest of one block of a known version: `hash` covers exactly
/// `bytes[offset..offset + size]`.
pub struct BlockHash {
    pub offset: usize,
    pub size: usize,
    pub hash: String,
}

/// The bytes that a block covers.
pub open spec fn block_bytes(data: Seq<u8>, b: BlockHash) -> Seq<u8> {
    data.subrange(b.offset as int, b.offset + b.size)
}

/// `b` lies inside `data` and carries the digest of the bytes it covers.
pub open spec fn valid_block(data: Seq<u8>, b: BlockHash) -> bool {
    &&& b.offset + b.size <= data.len()
    &&& b.hash@ == content_digest(block_bytes(data, b))
}

/// `b` is the `k`-th block when `data` is cut every `block_size` bytes.
pub open spec fn is_block_at(data: Seq<u8>, block_size: int, k: int, b: BlockHash) -> bool {
    &&& b.offset == k * block_size
    &&& b.offset < data.len()
    &&& b.size == if data.len() - b.offset < block_size { data.len() - b.offset } else { block_size }
    &&& valid_block(data, b)
}

/// `blocks` cuts `data` into consecutive blocks of `block_size` bytes, the last
/// possibly shorter, in order; with a block size of zero there are none.
pub open spec fn is_block_partition(data: Seq<u8>, block_size: int, blocks: Seq<BlockHash>) -> bool {
    if block_size <= 0 {
        blocks.len() == 0
    } else {
        &&& blocks.len() == (data.len() + block_size - 1) / block_size
        &&& forall|k: int| 0 <= k < blocks.len() ==> #[trigger] is_block_at(data, block_size, k, blocks[k])
    }
}

proof fn lemma_block_count(len: int, bs: int, n: int)
    requires
        bs > 0,
        len >= 0,
        n >= 0,
        n * bs < len + bs,
        n * bs >= len,
        len > 0 || n == 0,
    ensures
        n == (len + bs - 1) / bs,
{
    assert(n == (len + bs - 1) / bs) by (nonlinear_arith)
        requires
            bs > 0,
            n * bs < len + bs,
            n * bs >= len,
            len >= 0,
            n >= 0,
            len > 0 || n == 0,
    ;
}


/// Sum of the bytes.
pub open spec fn byte_sum(s: Seq<u8>) -> int
    decreases s.len(),
{
    if s.len() == 0 {
        0
    } else {
        byte_sum(s.drop_last()) + s.last()
    }
}

/// Sum of the bytes weighted by their distance from the end: the last byte
/// counts once, the first `s.len()` times.
pub open spec fn weighted_sum(s: Seq<u8>) -> int
    decreases s.len(),
{
    if s.len() == 0 {
        0
    } else {
        weighted_sum(s.drop_last()) + byte_sum(s)
    }
}

/// 2 to the 32.
pub open spec fn word_modulus() -> int {
    0x1_0000_0000
}

/// The two-sum checksum of a window, oldest byte first: the plain sum in the
/// low 16 bits, the weighted sum in the high 16 bits.
pub open spec fn rolling_checksum(s: Seq<u8>) -> u32 {
    ((byte_sum(s) % 0x10000) + 0x10000 * (weighted_sum(s) % 0x10000)) as u32
}

/// The window after `data` has slid in behind `start`: the last `start.len()`
/// bytes of the two together.
pub open spec fn rolled(start: Seq<u8>, data: Seq<u8>) -> Seq<u8> {
    (start + data).subrange(data.len() as int, (data.len() + start.len()) as int)
}

/// A position at which the rolling checksum was found among the wanted values.
#[derive(Debug, Clone, Copy)]
pub struct Match {
    /// Index of the byte that completed the window.
    pub position: usize,
    pub hash: u32,
    pub length: usize,
}

/// Fixed-window checksum recomputed in constant time per byte.
pub struct RollingHasher {
    window_size: usize,
    a: u32,
    b: u32,
    window: Vec<u8>,
    position: usize,
}

proof fn lemma_sums_drop_first(s: Seq<u8>)
    requires
        s.len() > 0,
    ensures
        byte_sum(s) == s[0] + byte_sum(s.drop_first()),
        weighted_sum(s) == s.len() * s[0] + weighted_sum(s.drop_first()),
    decreases s.len(),
{
    if s.len() == 1 {
        assert(s.drop_last() =~= Seq::<u8>::empty());
        assert(s.drop_first() =~= Seq::<u8>::empty());
    } else {
        lemma_sums_drop_first(s.drop_last());
        assert(s.drop_last().drop_first() =~= s.drop_first().drop_last());
        assert(s.drop_first().last() == s.last());
        assert(s.drop_last()[0] == s[0]);
        assert(s.len() * s[0] == (s.len() - 1) * s[0] + s[0]) by (nonlinear_arith);
    }
}

proof fn lemma_wrapping_u32(x: u32, y: u32)
    ensures
        x.wrapping_sub(y) as int == (x - y) % word_modulus(),
        x.wrapping_add(y) as int == (x + y) % word_modulus(),
        x.wrapping_mul(y) as int == (x * y) % word_modulus(),
{
}

proof fn lemma_checksum_bits(a: u32, b: u32)
    ensures
        (a & 0xFFFF) | ((b & 0xFFFF) << 16) == ((a % 0x10000) + 0x10000 * (b % 0x10000)) as u32,
{
    assert((a & 0xFFFF) | ((b & 0xFFFF) << 16) == ((a % 0x10000) + 0x10000 * (b % 0x10000)) as u32)
        by (bit_vector);
}

impl RollingHasher {
    pub closed spec fn wf(&self) -> bool {
        &&& self.window@.len() == self.window_size
        &&& (self.window_size == 0 ==> self.position == 0)
        &&& (self.window_size > 0 ==> self.position < self.window_size)
        &&& self.a as int == byte_sum(self.contents()) % word_modulus()
        &&& self.b as int == weighted_sum(self.contents()) % word_modulus()
    }

    /// The window, oldest byte first.
    pub closed spec fn contents(&self) -> Seq<u8> {
        self.window@.subrange(self.position as int, self.window_size as int) + self.window@.subrange(
            0,
            self.position as int,
        )
    }

    pub closed spec fn spec_window_size(&self) -> usize {
        self.window_size
    }

    pub fn window_size(&self) -> (r: usize)
        ensures
            r == self.spec_window_size(),
    {
        self.window_size
    }

    /// A hasher whose window holds `window_size` zero bytes.
    pub fn new(window_size: usize) -> (r: Self)
        ensures
            r.wf(),
            r.spec_window_size() == window_size,
            r.contents() == Seq::new(window_size as nat, |i: int| 0u8),
    {
        let window = vec![0u8; window_size];
        let r = RollingHasher { window_size, a: 0, b: 0, window, position: 0 };
        proof {
            assert(r.contents() =~= Seq::new(window_size as nat, |i: int| 0u8));
            lemma_zero_sums(r.contents());
        }
        r
    }

    /// Slides `byte` into the window, dropping the oldest byte, and returns the
    /// checksum of the new window.
    pub fn update(&mut self, byte: u8) -> (r: u32)
        requires
            old(self).wf(),
            old(self).spec_window_size() > 0,
        ensures
            final(self).wf(),
            final(self).spec_window_size() == old(self).spec_window_size(),
            final(self).contents() == old(self).contents().drop_first().push(byte),
            r == rolling_checksum(final(self).contents()),
    {
        let ghost old_contents = self.contents();
        let ghost old_window = self.window@;
        let old_byte = self.window[self.position];
        self.window.set(self.position, byte);
        let ghost p = self.position as int;
        self.position = (self.position + 1) % self.window_size;
        proof {
            lemma_window_slide(old_window, self.window_size as int, p, self.position as int, byte);
        }
        let weight = ((self.window_size as u64 % 0x1_0000_0000) as u32).wrapping_mul(old_byte as u32);
        proof {
            lemma_weight(self.window_size, old_byte, weight);
        }
        let old_a = self.a;
        let old_b = self.b;
        self.a = self.a.wrapping_sub(old_byte as u32).wrapping_add(byte as u32);
        self.b = self.b.wrapping_sub(weight).wrapping_add(self.a);
        proof {
            lemma_sums_slide(old_contents, byte, old_a, old_b, weight);
            lemma_checksum_bits(self.a, self.b);
            lemma_mod_mod(byte_sum(self.contents()), 0x10000, 0x10000);
            lemma_mod_mod(weighted_sum(self.contents()), 0x10000, 0x10000);
        }
        (self.a & 0xFFFF) | ((self.b & 0xFFFF) << 16)
    }

    /// Feeds every byte of `data` through the window and reports each position
    /// whose checksum is among `target_hashes`, in order. Candidates must be
    /// confirmed with a strong hash: 32-bit checksums collide.
    pub fn find_matches(&mut self, data: &[u8], target_hashes: &[u32]) -> (r: Vec<Match>)
        requires
            old(self).wf(),
            old(self).spec_window_size() > 0 || data@.len() == 0,
        ensures
            final(self).wf(),
            final(self).spec_window_size() == old(self).spec_window_size(),
            final(self).contents() == rolled(old(self).contents(), data@),
            r@ == match_list(old(self).contents(), data@, target_hashes@, old(self).spec_window_size(), data@.len() as int),
    {
        let ghost start = self.contents();
        let mut matches: Vec<Match> = Vec::new();
        let mut position: usize = 0;
        proof {
            assert(start.subrange(0, start.len() as int) =~= start);
            assert(start + data@.subrange(0, 0) =~= start);
        }
        while position < data.len()
            invariant
                self.wf(),
                self.spec_window_size() == start.len(),
                self.spec_window_size() > 0 || data@.len() == 0,
                position <= data@.len(),
                self.contents() == rolled(start, data@.subrange(0, position as int)),
                matches@ == match_list(start, data@, target_hashes@, self.spec_window_size(), position as int),
            decreases data@.len() - position,
        {
            let ghost before = data@.subrange(0, position as int);
            let hash = self.update(data[position]);
            proof {
                lemma_rolled_push(start, before, data@[position as int]);
                assert(before.push(data@[position as int]) =~= data@.subrange(0, position + 1));
            }
            if contains_u32(target_hashes, hash) {
                matches.push(Match { position, hash, length: self.window_size });
            }
            position = position + 1;
        }
        proof {
            assert(data@.subrange(0, data@.len() as int) =~= data@);
        }
        matches
    }

    /// The checksum of the current window.
    pub fn hash(&self) -> (r: u32)
        requires
            self.wf(),
        ensures
            r == rolling_checksum(self.contents()),
    {
        proof {
            lemma_checksum_bits(self.a, self.b);
            lemma_mod_mod(byte_sum(self.contents()), 0x10000, 0x10000);
            lemma_mod_mod(weighted_sum(self.contents()), 0x10000, 0x10000);
        }
        (self.a & 0xFFFF) | ((self.b & 0xFFFF) << 16)
    }
}

proof fn lemma_window_slide(w: Seq<u8>, n: int, p: int, q: int, byte: u8)
    requires
        w.len() == n,
        0 <= p < n,
        q == (p + 1) % n,
    ensures
        ({
            let w2 = w.update(p, byte);
            w2.subrange(q, n) + w2.subrange(0, q) == (w.subrange(p, n) + w.subrange(0, p)).drop_first().push(
                byte,
            )
        }),
{
    let w2 = w.update(p, byte);
    if p + 1 < n {
        lemma_small_mod((p + 1) as nat, n as nat);
    } else {
        lemma_mod_self_0(n);
    }
    assert(w2.subrange(q, n) + w2.subrange(0, q) =~= (w.subrange(p, n) + w.subrange(0, p)).drop_first().push(
        byte,
    ));
}

proof fn lemma_weight(n: usize, old_byte: u8, weight: u32)
    requires
        weight == ((n as u64 % 0x1_0000_0000) as u32).wrapping_mul(old_byte as u32),
    ensures
        weight as int == (n * old_byte) % word_modulus(),
{
    let m = word_modulus();
    let t = (n as u64 % 0x1_0000_0000) as u32;
    lemma_wrapping_u32(t, old_byte as u32);
    assert(t as int == n as int % m);
    lemma_mul_mod_noop_left(n as int, old_byte as int, m);
}

proof fn lemma_sums_slide(c: Seq<u8>, byte: u8, a: u32, b: u32, weight: u32)
    requires
        c.len() > 0,
        a as int == byte_sum(c) % word_modulus(),
        b as int == weighted_sum(c) % word_modulus(),
        weight as int == (c.len() * c[0]) % word_modulus(),
    ensures
        ({
            let d = c.drop_first().push(byte);
            let a2 = a.wrapping_sub(c[0] as u32).wrapping_add(byte as u32);
            let b2 = b.wrapping_sub(weight).wrapping_add(a2);
            &&& a2 as int == byte_sum(d) % word_modulus()
            &&& b2 as int == weighted_sum(d) % word_modulus()
        }),
{
    let m = word_modulus();
    let d = c.drop_first().push(byte);
    let x = c[0];
    lemma_sums_drop_first(c);
    assert(d.drop_last() =~= c.drop_first());
    assert(byte_sum(d) == byte_sum(c) - x + byte);
    assert(weighted_sum(d) == weighted_sum(c) - c.len() * x + byte_sum(d));
    lemma_wrapping_u32(a, x as u32);
    let t = a.wrapping_sub(x as u32);
    lemma_wrapping_u32(t, byte as u32);
    let a2 = t.wrapping_add(byte as u32);
    lemma_sub_mod_noop(byte_sum(c), x as int, m);
    lemma_add_mod_noop(byte_sum(c) - x, byte as int, m);
    lemma_small_mod(x as nat, m as nat);
    lemma_small_mod(byte as nat, m as nat);
    lemma_mod_mod_twice(byte_sum(c) - x, m);
    assert(a2 as int == byte_sum(d) % m);
    lemma_wrapping_u32(b, weight);
    let u = b.wrapping_sub(weight);
    lemma_wrapping_u32(u, a2);
    lemma_sub_mod_noop(weighted_sum(c), c.len() * x, m);
    lemma_add_mod_noop(weighted_sum(c) - c.len() * x, byte_sum(d), m);
    lemma_mod_mod_twice(weighted_sum(c) - c.len() * x, m);
    lemma_mod_mod_twice(byte_sum(d), m);
    lemma_mod_mod_twice(weighted_sum(c), m);
    lemma_mod_mod_twice(c.len() * x, m);
    lemma_mod_mod_twice(byte_sum(c), m);
}

proof fn lemma_mod_mod_twice(x: int, m: int)
    requires
        m > 0,
    ensures
        (x % m) % m == x % m,
{
    lemma_mod_mod(x, m, 1);
}

/// The matches among the first `n` positions when `data` slides in behind `start`.
pub open spec fn match_list(start: Seq<u8>, data: Seq<u8>, targets: Seq<u32>, window: usize, n: int) -> Seq<Match>
    decreases n,
{
    if n <= 0 {
        Seq::empty()
    } else {
        let prev = match_list(start, data, targets, window, n - 1);
        let h = rolling_checksum(rolled(start, data.subrange(0, n)));
        if targets.contains(h) {
            prev.push(Match { position: (n - 1) as usize, hash: h, length: window })
        } else {
            prev
        }
    }
}

proof fn lemma_rolled_push(start: Seq<u8>, data: Seq<u8>, x: u8)
    requires
        start.len() > 0,
    ensures
        rolled(start, data.push(x)) == rolled(start, data).drop_first().push(x),
{
    assert(rolled(start, data.push(x)) =~= rolled(start, data).drop_first().push(x));
}

/// Whether `x` occurs in `values`.
pub fn contains_u32(values: &[u32], x: u32) -> (r: bool)
    ensures
        r == values@.contains(x),
{
    let mut i: usize = 0;
    while i < values.len()
        invariant
            i <= values@.len(),
            forall|j: int| 0 <= j < i ==> values@[j] != x,
        decreases values@.len() - i,
    {
        if values[i] == x {
            return true;
        }
        i = i + 1;
    }
    false
}

proof fn lemma_zero_sums(s: Seq<u8>)
    requires
        forall|i: int| 0 <= i < s.len() ==> s[i] == 0,
    ensures
        byte_sum(s) == 0,
        weighted_sum(s) == 0,
    decreases s.len(),
{
    if s.len() > 0 {
        lemma_zero_sums(s.drop_last());
    }
}

} // verus!
