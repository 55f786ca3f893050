//! Block-level deltas: generating instructions that rebuild a target from a
//! reference version, replaying them, and the byte-level differ for small inputs.
use vstd::arithmetic::div_mod::{lemma_add_mod_noop, lemma_mod_self_0, lemma_small_mod};
use vstd::prelude::*;
use vstd::slice::{slice_subrange, slice_to_vec};

use crate::hashing::{block_bytes, content_digest, valid_block, BlockHash, FileHasher};
use crate::sync::{SyncError, SyncOptions};

verus! {

/// The mathematical reading of one delta instruction.
pub ghost enum OpView {
    Copy { source_offset: int, target_offset: int, length: int },
    Insert { target_offset: int, data: Seq<u8> },
    Delete { source_offset: int, length: int },
}

/// One instruction of a delta. `Delete` is informational only and is never replayed.
#[derive(Debug, Clone)]
pub enum DeltaOperation {
    Copy { source_offset: u64, target_offset: u64, length: u64 },
    Insert { target_offset: u64, data: Vec<u8> },
    Delete { source_offset: u64, length: u64 },
}

impl View for DeltaOperation {
    type V = OpView;

    open spec fn view(&self) -> OpView {
        match self {
            DeltaOperation::Copy { source_offset, target_offset, length } => OpView::Copy {
                source_offset: *source_offset as int,
                target_offset: *target_offset as int,
                length: *length as int,
            },
            DeltaOperation::Insert { target_offset, data } => OpView::Insert {
                target_offset: *target_offset as int,
                data: data@,
            },
            DeltaOperation::Delete { source_offset, length } => OpView::Delete {
                source_offset: *source_offset as int,
                length: *length as int,
            },
        }
    }
}

/// The instructions of a list, read mathematically.
pub open spec fn ops_view(ops: Seq<DeltaOperation>) -> Seq<OpView> {
    ops.map_values(|o: DeltaOperation| o@)
}

/// A transform from a reference version to a target version.
#[derive(Debug, Clone)]
pub struct FileDelta {
    pub file_id: String,
    pub source_checksum: String,
    pub target_checksum: String,
    pub operations: Vec<DeltaOperation>,
    /// Size the serialized operations would have compressed, when that is smaller.
    pub compressed_size: Option<usize>,
}

pub open spec fn min_int(a: int, b: int) -> int {
    if a < b {
        a
    } else {
        b
    }
}

/// The chunk of the target that starts at `pos`: `bs` bytes, or what is left.
pub open spec fn chunk_at(target: Seq<u8>, pos: int, bs: int) -> Seq<u8> {
    target.subrange(pos, min_int(pos + bs, target.len() as int))
}

/// The index of the first of the first `n` blocks whose digest is `digest`.
pub open spec fn first_match(blocks: Seq<BlockHash>, digest: Seq<char>, n: int) -> Option<int>
    decreases n,
{
    if n <= 0 {
        None
    } else {
        match first_match(blocks, digest, n - 1) {
            Some(i) => Some(i),
            None => if blocks[n - 1].hash@ == digest {
                Some(n - 1)
            } else {
                None
            },
        }
    }
}

/// The literal run `pending`, which ends at `pos`, as an instruction (none if empty).
pub open spec fn flush(pending: Seq<u8>, pos: int) -> Seq<OpView> {
    if pending.len() == 0 {
        Seq::empty()
    } else {
        seq![OpView::Insert { target_offset: pos - pending.len(), data: pending }]
    }
}

/// The instructions for the target from `pos` on, with the literal run `pending`
/// not yet emitted: each chunk whose digest matches a reference block becomes a
/// `Copy` of the first such block, the other chunks gather into `Insert` runs.
pub open spec fn delta_ops_from(
    blocks: Seq<BlockHash>,
    target: Seq<u8>,
    bs: int,
    pos: int,
    pending: Seq<u8>,
) -> Seq<OpView>
    decreases target.len() - pos,
{
    if bs <= 0 || pos < 0 || pos >= target.len() {
        flush(pending, pos)
    } else {
        let c = chunk_at(target, pos, bs);
        match first_match(blocks, content_digest(c), blocks.len() as int) {
            Some(i) => flush(pending, pos) + seq![
                OpView::Copy {
                    source_offset: blocks[i].offset as int,
                    target_offset: pos,
                    length: c.len() as int,
                },
            ] + delta_ops_from(blocks, target, bs, pos + c.len(), Seq::empty()),
            None => delta_ops_from(blocks, target, bs, pos + c.len(), pending + c),
        }
    }
}

/// The instructions that rebuild `target` from reference blocks of size `bs`.
pub open spec fn delta_operations(blocks: Seq<BlockHash>, target: Seq<u8>, bs: int) -> Seq<OpView> {
    delta_ops_from(blocks, target, bs, 0, Seq::empty())
}

/// Finds the first block, in list order, whose digest is `digest`.
pub fn find_block(blocks: &[BlockHash], digest: &String) -> (r: Option<usize>)
    ensures
        match r {
            Some(i) => i < blocks@.len() && first_match(blocks@, digest@, blocks@.len() as int) == Some(i as int),
            None => first_match(blocks@, digest@, blocks@.len() as int) == None::<int>,
        },
{
    let mut i: usize = 0;
    while i < blocks.len()
        invariant
            i <= blocks@.len(),
            first_match(blocks@, digest@, i as int) == None::<int>,
        decreases blocks@.len() - i,
    {
        if blocks[i].hash == *digest {
            proof {
                lemma_first_match_stable(blocks@, digest@, i + 1, blocks@.len() as int);
            }
            return Some(i);
        }
        i = i + 1;
    }
    None
}

proof fn lemma_first_match_stable(blocks: Seq<BlockHash>, digest: Seq<char>, n: int, m: int)
    requires
        0 <= n <= m,
        first_match(blocks, digest, n) is Some,
    ensures
        first_match(blocks, digest, m) == first_match(blocks, digest, n),
    decreases m - n,
{
    if m > n {
        lemma_first_match_stable(blocks, digest, n, m - 1);
    }
}

/// One zstd frame holding `data`, compressed at `level`.
pub uninterp spec fn zstd_frame(data: Seq<u8>, level: i32) -> Seq<u8>;

/// Relies on `zstd::bulk::compress`: the frame depends on the data and the
/// level alone. It compresses into a buffer of `ZSTD_compressBound` bytes,
/// which zstd documents as enough to succeed for inputs below
/// `ZSTD_MAX_INPUT_SIZE` (at least `ZSTD_INPUT_LIMIT` on every platform).
/// Its error is kept as text.
#[verifier::external_body]
fn zstd_compress(data: &[u8], level: i32) -> (r: Result<Vec<u8>, String>)
    requires
        1 <= level <= 22,
    ensures
        data@.len() < ZSTD_INPUT_LIMIT ==> r is Ok,
        r matches Ok(c) ==> c@ == zstd_frame(data@, level),
{
    zstd::bulk::compress(data, level).map_err(|e| e.to_string())
}

/// Inputs shorter than this always fit zstd's one-shot compression bound.
pub const ZSTD_INPUT_LIMIT: u64 = 0xFF00_FF00;

/// The zstd level at which the size of a delta's instructions is measured.
pub const COMPRESSION_LEVEL: i32 = 3;

impl FileDelta {
    /// Records a compressed size when compression shrank the serialized
    /// instructions; otherwise the delta is unchanged.
    pub fn record_compression(self, serialized_len: usize, compressed_len: usize) -> (r: FileDelta)
        ensures
            r == (FileDelta {
                compressed_size: if compressed_len < serialized_len {
                    Some(compressed_len)
                } else {
                    self.compressed_size
                },
                ..self
            }),
    {
        let mut delta = self;
        if compressed_len < serialized_len {
            delta.compressed_size = Some(compressed_len);
        }
        delta
    }
}

/// Computes deltas from a reference version's block list to a target version.
pub struct DeltaGenerator {
    options: SyncOptions,
}

impl DeltaGenerator {
    pub closed spec fn chunk_size(&self) -> int {
        self.options.chunk_size as int
    }

    pub fn new(options: SyncOptions) -> (r: Self)
        ensures
            r.chunk_size() == options.chunk_size,
    {
        DeltaGenerator { options }
    }

    /// The delta that rebuilds `target` from the reference whose content is
    /// `source` and whose block list is `source_blocks`. Identical digests give
    /// an empty instruction list. The result is not compressed.
    pub fn generate_delta(&self, source: &[u8], target: &[u8], source_blocks: &[BlockHash]) -> (r: FileDelta)
        ensures
            r.file_id@ == Seq::<char>::empty(),
            r.source_checksum@ == content_digest(source@),
            r.target_checksum@ == content_digest(target@),
            r.compressed_size.is_none(),
            ops_view(r.operations@) == generated_operations(source@, source_blocks@, target@, self.chunk_size()),
    {
        let source_checksum = FileHasher::hash_bytes(source);
        let target_checksum = FileHasher::hash_bytes(target);
        if source_checksum == target_checksum {
            let operations: Vec<DeltaOperation> = Vec::new();
            proof {
                assert(ops_view(operations@) =~= Seq::<OpView>::empty());
            }
            return FileDelta {
                file_id: String::new(),
                source_checksum,
                target_checksum,
                operations,
                compressed_size: None,
            };
        }
        let operations = self.find_delta_operations(target, source_blocks);
        FileDelta { file_id: String::new(), source_checksum, target_checksum, operations, compressed_size: None }
    }

    pub fn options(&self) -> (r: &SyncOptions)
        ensures
            r.chunk_size == self.chunk_size(),
    {
        &self.options
    }

    /// Measures whether zstd would shrink the delta's serialized instructions
    /// and records the compressed size when it does. The instructions
    /// themselves are left as they are.
    pub fn compress_delta(&self, delta: FileDelta, serialized_ops: &[u8]) -> (r: Result<FileDelta, SyncError>)
        ensures
            serialized_ops@.len() < ZSTD_INPUT_LIMIT ==> r is Ok,
            r matches Err(e) ==> e is Compression,
            r matches Ok(d) ==> d == (FileDelta {
                compressed_size: if zstd_frame(serialized_ops@, COMPRESSION_LEVEL).len() < serialized_ops@.len() {
                    Some(zstd_frame(serialized_ops@, COMPRESSION_LEVEL).len() as usize)
                } else {
                    delta.compressed_size
                },
                ..delta
            }),
    {
        match zstd_compress(serialized_ops, COMPRESSION_LEVEL) {
            Ok(compressed) => Ok(delta.record_compression(serialized_ops.len(), compressed.len())),
            Err(message) => Err(SyncError::Compression(message)),
        }
    }

    /// Reads the target in chunks of the block size and turns it into
    /// instructions against the reference blocks. Chunk boundaries sit at fixed
    /// offsets, not at content-defined points: content shifted by a distance
    /// that is not a multiple of the block size no longer matches.
    pub fn find_delta_operations(&self, target: &[u8], blocks: &[BlockHash]) -> (r: Vec<DeltaOperation>)
        ensures
            ops_view(r@) == delta_operations(blocks@, target@, self.chunk_size()),
    {
        let bs = self.options.chunk_size;
        let mut ops: Vec<DeltaOperation> = Vec::new();
        let mut pending: Vec<u8> = Vec::new();
        let mut pos: usize = 0;
        if bs == 0 {
            proof {
                assert(ops_view(ops@) =~= Seq::<OpView>::empty());
            }
            return ops;
        }
        proof {
            assert(ops_view(ops@) =~= Seq::<OpView>::empty());
            assert(Seq::<OpView>::empty() + delta_ops_from(blocks@, target@, bs as int, 0, Seq::empty())
                =~= delta_operations(blocks@, target@, bs as int));
        }
        while pos < target.len()
            invariant
                bs == self.chunk_size(),
                bs > 0,
                pos <= target@.len(),
                pending@.len() <= pos,
                ops_view(ops@) + delta_ops_from(blocks@, target@, bs as int, pos as int, pending@)
                    == delta_operations(blocks@, target@, bs as int),
            decreases target@.len() - pos,
        {
            let remaining = target.len() - pos;
            let size = if remaining < bs { remaining } else { bs };
            let chunk = slice_subrange(target, pos, pos + size);
            let chunk_hash = FileHasher::hash_bytes(chunk);
            let ghost old_ops = ops_view(ops@);
            let ghost old_pending = pending@;
            proof {
                assert(chunk@ == chunk_at(target@, pos as int, bs as int));
            }
            match find_block(blocks, &chunk_hash) {
                Some(i) => {
                    if pending.len() > 0 {
                        let data = pending;
                        ops.push(DeltaOperation::Insert { target_offset: (pos - data.len()) as u64, data });
                        pending = Vec::new();
                    }
                    ops.push(DeltaOperation::Copy {
                        source_offset: blocks[i].offset as u64,
                        target_offset: pos as u64,
                        length: size as u64,
                    });
                    proof {
                        let copy = seq![
                            OpView::Copy {
                                source_offset: blocks@[i as int].offset as int,
                                target_offset: pos as int,
                                length: size as int,
                            },
                        ];
                        let rest = delta_ops_from(blocks@, target@, bs as int, pos + size, Seq::empty());
                        assert(delta_ops_from(blocks@, target@, bs as int, pos as int, old_pending)
                            == flush(old_pending, pos as int) + copy + rest);
                        assert(old_ops + (flush(old_pending, pos as int) + copy + rest)
                            =~= old_ops + flush(old_pending, pos as int) + copy + rest);
                        assert(ops_view(ops@) =~= old_ops + flush(old_pending, pos as int) + seq![
                            OpView::Copy {
                                source_offset: blocks@[i as int].offset as int,
                                target_offset: pos as int,
                                length: size as int,
                            },
                        ]);
                    }
                },
                None => {
                    pending.extend_from_slice(chunk);
                    proof {
                        assert(pending@ =~= old_pending + chunk@);
                        assert(delta_ops_from(blocks@, target@, bs as int, pos as int, old_pending)
                            == delta_ops_from(blocks@, target@, bs as int, pos + size, pending@));
                    }
                },
            }
            pos = pos + size;
        }
        if pending.len() > 0 {
            let ghost old_ops = ops_view(ops@);
            let data = pending;
            ops.push(DeltaOperation::Insert { target_offset: (pos - data.len()) as u64, data });
            proof {
                assert(ops_view(ops@) =~= old_ops + flush(data@, pos as int));
            }
        } else {
            proof {
                assert(ops_view(ops@) + flush(pending@, pos as int) =~= ops_view(ops@));
            }
        }
        ops
    }
}


/// What one instruction contributes when replayed against `source`; `None`
/// when a `Copy` reaches outside it.
pub open spec fn op_output(source: Seq<u8>, op: OpView) -> Option<Seq<u8>> {
    match op {
        OpView::Copy { source_offset, length, .. } => if 0 <= source_offset && 0 <= length
            && source_offset + length <= source.len() {
            Some(source.subrange(source_offset, source_offset + length))
        } else {
            None
        },
        OpView::Insert { data, .. } => Some(data),
        OpView::Delete { .. } => Some(Seq::empty()),
    }
}

/// The bytes that replaying `ops` in order against `source` writes, or `None`
/// when one of them cannot be replayed.
pub open spec fn replay(source: Seq<u8>, ops: Seq<OpView>) -> Option<Seq<u8>>
    decreases ops.len(),
{
    if ops.len() == 0 {
        Some(Seq::empty())
    } else {
        match (op_output(source, ops[0]), replay(source, ops.drop_first())) {
            (Some(x), Some(y)) => Some(x + y),
            _ => None,
        }
    }
}

/// Rebuilds target content from a reference and a delta.
pub struct DeltaApplier {
    options: SyncOptions,
}

impl DeltaApplier {
    pub fn new(options: SyncOptions) -> (r: Self) {
        DeltaApplier { options }
    }

    /// Replays the delta's instructions in order against `source`: `Copy` takes
    /// bytes of the reference, `Insert` writes its literal bytes, `Delete` does
    /// nothing. A `Copy` reaching outside the reference fails the whole call.
    pub fn apply_delta(&self, source: &[u8], delta: &FileDelta) -> (r: Result<Vec<u8>, SyncError>)
        ensures
            r matches Ok(out) ==> replay(source@, ops_view(delta.operations@)) == Some(out@),
            r is Err ==> replay(source@, ops_view(delta.operations@)) is None,
            r matches Err(e) ==> e is Io,
    {
        let ops = &delta.operations;
        let ghost all = ops_view(ops@);
        let mut out: Vec<u8> = Vec::new();
        let mut i: usize = 0;
        proof {
            assert(all.subrange(0, all.len() as int) =~= all);
            assert(Seq::<u8>::empty() + replay(source@, all)->0 =~= replay(source@, all)->0);
        }
        while i < ops.len()
            invariant
                ops@ == delta.operations@,
                all == ops_view(ops@),
                i <= ops@.len(),
                replay(source@, all) == match replay(source@, all.subrange(i as int, all.len() as int)) {
                    Some(rest) => Some(out@ + rest),
                    None => None,
                },
            decreases ops@.len() - i,
        {
            let ghost suffix = all.subrange(i as int, all.len() as int);
            proof {
                assert(suffix.drop_first() =~= all.subrange(i + 1, all.len() as int));
                assert(suffix[0] == ops@[i as int]@);
            }
            let ghost before = out@;
            match &ops[i] {
                DeltaOperation::Copy { source_offset, length, .. } => {
                    let len = source.len() as u64;
                    if *source_offset > len || *length > len - *source_offset {
                        proof {
                            assert(op_output(source@, suffix[0]) is None);
                            assert(replay(source@, suffix) is None);
                        }
                        return Err(SyncError::Io("failed to fill whole buffer".to_string()));
                    }
                    let start = *source_offset as usize;
                    let end = start + *length as usize;
                    out.extend_from_slice(slice_subrange(source, start, end));
                    proof {
                        assert(out@ =~= before + source@.subrange(start as int, end as int));
                    }
                },
                DeltaOperation::Insert { data, .. } => {
                    out.extend_from_slice(data.as_slice());
                    proof {
                        assert(out@ =~= before + data@);
                    }
                },
                DeltaOperation::Delete { .. } => {
                    proof {
                        assert(out@ =~= before + Seq::<u8>::empty());
                    }
                },
            }
            proof {
                match replay(source@, all.subrange(i + 1, all.len() as int)) {
                    Some(rest) => {
                        let x = op_output(source@, suffix[0])->0;
                        assert(before + (x + rest) =~= out@ + rest);
                    },
                    None => {},
                }
            }
            i = i + 1;
        }
        proof {
            assert(all.subrange(ops@.len() as int, all.len() as int) =~= Seq::<OpView>::empty());
            assert(out@ + Seq::<u8>::empty() =~= out@);
        }
        Ok(out)
    }

    /// Whether `result` has the digest `expected_checksum`; reconstructed
    /// content is to be trusted only after this confirms it.
    pub fn verify_delta_application(&self, result: &[u8], expected_checksum: &str) -> (r: bool)
        ensures
            r == (content_digest(result@) == expected_checksum@),
    {
        let actual = FileHasher::hash_bytes(result);
        let expected = expected_checksum.to_string();
        actual == expected
    }
}

/// The instructions that `generate_delta` emits for a reference and a target.
pub open spec fn generated_operations(
    source: Seq<u8>,
    blocks: Seq<BlockHash>,
    target: Seq<u8>,
    bs: int,
) -> Seq<OpView> {
    if content_digest(source) == content_digest(target) {
        Seq::empty()
    } else {
        delta_operations(blocks, target, bs)
    }
}

/// No chunk of the target has the digest of a reference block without holding
/// that block's bytes.
pub open spec fn no_digest_collision(
    source: Seq<u8>,
    blocks: Seq<BlockHash>,
    target: Seq<u8>,
    bs: int,
) -> bool {
    forall|pos: int, i: int|
        0 <= pos < target.len() && pos % bs == 0 && 0 <= i < blocks.len()
            && #[trigger] content_digest(chunk_at(target, pos, bs)) == #[trigger] blocks[i].hash@
            ==> chunk_at(target, pos, bs) == block_bytes(source, blocks[i])
}

pub open spec fn copy_op(source_offset: int, target_offset: int, length: int) -> OpView {
    OpView::Copy { source_offset, target_offset, length }
}

proof fn lemma_first_match_found(blocks: Seq<BlockHash>, digest: Seq<char>, n: int, i: int)
    requires
        first_match(blocks, digest, n) == Some(i),
    ensures
        0 <= i < n,
        blocks[i].hash@ == digest,
    decreases n,
{
    if n > 0 {
        match first_match(blocks, digest, n - 1) {
            Some(j) => lemma_first_match_found(blocks, digest, n - 1, i),
            None => {},
        }
    }
}

proof fn lemma_replay_append(source: Seq<u8>, a: Seq<OpView>, b: Seq<OpView>)
    ensures
        replay(source, a + b) == match (replay(source, a), replay(source, b)) {
            (Some(x), Some(y)) => Some(x + y),
            _ => None,
        },
    decreases a.len(),
{
    if a.len() == 0 {
        assert(a + b =~= b);
        match replay(source, b) {
            Some(y) => assert(Seq::<u8>::empty() + y =~= y),
            None => {},
        }
    } else {
        assert((a + b).drop_first() =~= a.drop_first() + b);
        assert((a + b)[0] == a[0]);
        lemma_replay_append(source, a.drop_first(), b);
        match (op_output(source, a[0]), replay(source, a.drop_first()), replay(source, b)) {
            (Some(x), Some(y), Some(z)) => assert(x + (y + z) =~= (x + y) + z),
            _ => {},
        }
    }
}

proof fn lemma_replay_flush(source: Seq<u8>, pending: Seq<u8>, pos: int)
    ensures
        replay(source, flush(pending, pos)) == Some(pending),
{
    if pending.len() == 0 {
        assert(pending =~= Seq::<u8>::empty());
    } else {
        let ops = flush(pending, pos);
        assert(ops.drop_first() =~= Seq::<OpView>::empty());
        assert(replay(source, ops.drop_first()) == Some(Seq::<u8>::empty()));
        assert(op_output(source, ops[0]) == Some(pending));
        assert(pending + Seq::<u8>::empty() =~= pending);
    }
}

proof fn lemma_delta_ops_from(
    source: Seq<u8>,
    blocks: Seq<BlockHash>,
    target: Seq<u8>,
    bs: int,
    pos: int,
    pending: Seq<u8>,
)
    requires
        bs > 0,
        forall|i: int| 0 <= i < blocks.len() ==> valid_block(source, #[trigger] blocks[i]),
        no_digest_collision(source, blocks, target, bs),
        0 <= pos <= target.len(),
        pos % bs == 0 || pos == target.len(),
        pending.len() <= pos,
        pending == target.subrange(pos - pending.len(), pos),
    ensures
        replay(source, delta_ops_from(blocks, target, bs, pos, pending)) == Some(
            pending + target.subrange(pos, target.len() as int),
        ),
    decreases target.len() - pos,
{
    if pos >= target.len() {
        lemma_replay_flush(source, pending, pos);
        assert(pending + target.subrange(pos, target.len() as int) =~= pending);
    } else {
        let c = chunk_at(target, pos, bs);
        let next = pos + c.len();
        if next < target.len() {
            assert(c.len() == bs);
            lemma_add_mod_noop(pos, bs, bs);
            lemma_mod_self_0(bs);
            lemma_small_mod(0, bs as nat);
        }
        match first_match(blocks, content_digest(c), blocks.len() as int) {
            Some(i) => {
                lemma_first_match_found(blocks, content_digest(c), blocks.len() as int, i);
                assert(valid_block(source, blocks[i]));
                assert(c == block_bytes(source, blocks[i]));
                assert(op_output(source, copy_op(blocks[i].offset as int, pos, c.len() as int)) == Some(c));
                let copy = seq![copy_op(blocks[i].offset as int, pos, c.len() as int)];
                let rest = delta_ops_from(blocks, target, bs, next, Seq::empty());
                assert(target.subrange(next, next) =~= Seq::<u8>::empty());
                lemma_delta_ops_from(source, blocks, target, bs, next, Seq::empty());
                lemma_replay_flush(source, pending, pos);
                assert(copy.drop_first() =~= Seq::<OpView>::empty());
                assert(replay(source, copy.drop_first()) == Some(Seq::<u8>::empty()));
                assert(copy[0] == copy_op(blocks[i].offset as int, pos, c.len() as int));
                assert(replay(source, copy) == Some(c + Seq::<u8>::empty()));
                assert(c + Seq::<u8>::empty() =~= c);
                lemma_replay_append(source, flush(pending, pos), copy);
                lemma_replay_append(source, flush(pending, pos) + copy, rest);
                assert(Seq::<u8>::empty() + target.subrange(next, target.len() as int) =~= target.subrange(
                    next,
                    target.len() as int,
                ));
                assert(pending + c + target.subrange(next, target.len() as int) =~= pending
                    + target.subrange(pos, target.len() as int));
            },
            None => {
                let grown = pending + c;
                assert(grown =~= target.subrange(next - grown.len(), next));
                lemma_delta_ops_from(source, blocks, target, bs, next, grown);
                assert(grown + target.subrange(next, target.len() as int) =~= pending + target.subrange(
                    pos,
                    target.len() as int,
                ));
            },
        }
    }
}

/// Delta round trip: replaying the instructions generated for a target against
/// the reference they were generated from rebuilds the target exactly. This
/// holds when the block list describes the reference, no target chunk collides
/// in digest with a reference block of other content, and the two versions'
/// digests differ or the target is empty (on equal digests the instruction list
/// is empty, and replaying it writes nothing).
pub proof fn lemma_delta_round_trip(source: Seq<u8>, blocks: Seq<BlockHash>, target: Seq<u8>, bs: int)
    requires
        bs > 0,
        forall|i: int| 0 <= i < blocks.len() ==> valid_block(source, #[trigger] blocks[i]),
        no_digest_collision(source, blocks, target, bs),
        content_digest(source) != content_digest(target) || target.len() == 0,
    ensures
        replay(source, generated_operations(source, blocks, target, bs)) == Some(target),
{
    if content_digest(source) == content_digest(target) {
        assert(target =~= Seq::<u8>::empty());
    } else {
        assert(target.subrange(0, 0) =~= Seq::<u8>::empty());
        lemma_small_mod(0, bs as nat);
        lemma_delta_ops_from(source, blocks, target, bs, 0, Seq::empty());
        assert(Seq::<u8>::empty() + target.subrange(0, target.len() as int) =~= target);
    }
}


/// No chunk of the target has the digest of any reference block.
pub open spec fn no_chunk_matches(blocks: Seq<BlockHash>, target: Seq<u8>, bs: int) -> bool {
    forall|pos: int, i: int|
        0 <= pos < target.len() && pos % bs == 0 && 0 <= i < blocks.len() ==> #[trigger] blocks[i].hash@
            != #[trigger] content_digest(chunk_at(target, pos, bs))
}

proof fn lemma_first_match_none(blocks: Seq<BlockHash>, digest: Seq<char>, n: int)
    requires
        0 <= n <= blocks.len(),
        forall|i: int| 0 <= i < n ==> blocks[i].hash@ != digest,
    ensures
        first_match(blocks, digest, n) is None,
    decreases n,
{
    if n > 0 {
        lemma_first_match_none(blocks, digest, n - 1);
    }
}

proof fn lemma_unmatched_ops_from(blocks: Seq<BlockHash>, target: Seq<u8>, bs: int, pos: int, pending: Seq<u8>)
    requires
        bs > 0,
        no_chunk_matches(blocks, target, bs),
        0 <= pos <= target.len(),
        pos % bs == 0 || pos == target.len(),
    ensures
        delta_ops_from(blocks, target, bs, pos, pending) == flush(
            pending + target.subrange(pos, target.len() as int),
            target.len() as int,
        ),
    decreases target.len() - pos,
{
    if pos >= target.len() {
        assert(pending + target.subrange(pos, target.len() as int) =~= pending);
    } else {
        let c = chunk_at(target, pos, bs);
        let next = pos + c.len();
        if next < target.len() {
            lemma_add_mod_noop(pos, bs, bs);
            lemma_mod_self_0(bs);
            lemma_small_mod(0, bs as nat);
        }
        assert forall|i: int| 0 <= i < blocks.len() implies blocks[i].hash@ != content_digest(c) by {
            assert(blocks[i].hash@ != content_digest(chunk_at(target, pos, bs)));
        }
        lemma_first_match_none(blocks, content_digest(c), blocks.len() as int);
        lemma_unmatched_ops_from(blocks, target, bs, next, pending + c);
        assert(pending + c + target.subrange(next, target.len() as int) =~= pending + target.subrange(
            pos,
            target.len() as int,
        ));
    }
}

/// A target none of whose chunks matches a reference block, and whose digest
/// differs from the reference's, becomes one `Insert` of all its bytes.
pub proof fn lemma_disjoint_target_single_insert(
    source: Seq<u8>,
    blocks: Seq<BlockHash>,
    target: Seq<u8>,
    bs: int,
)
    requires
        bs > 0,
        target.len() > 0,
        content_digest(source) != content_digest(target),
        no_chunk_matches(blocks, target, bs),
    ensures
        generated_operations(source, blocks, target, bs) == seq![OpView::Insert { target_offset: 0, data: target }],
{
    lemma_small_mod(0, bs as nat);
    lemma_unmatched_ops_from(blocks, target, bs, 0, Seq::empty());
    assert(Seq::<u8>::empty() + target.subrange(0, target.len() as int) =~= target);
}

/// The mathematical reading of one byte-level change.
pub ghost struct ChangeView {
    pub offset: int,
    pub old_bytes: Seq<u8>,
    pub new_bytes: Seq<u8>,
}

/// A diverged span: `old_bytes` of the source at `offset` became `new_bytes`.
#[derive(Debug, Clone)]
pub struct ByteChange {
    pub offset: u64,
    pub old_bytes: Vec<u8>,
    pub new_bytes: Vec<u8>,
}

impl View for ByteChange {
    type V = ChangeView;

    open spec fn view(&self) -> ChangeView {
        ChangeView { offset: self.offset as int, old_bytes: self.old_bytes@, new_bytes: self.new_bytes@ }
    }
}

/// The changes of a list, read mathematically.
pub open spec fn changes_view(changes: Seq<ByteChange>) -> Seq<ChangeView> {
    changes.map_values(|c: ByteChange| c@)
}

/// How many steps both cursors advance together, from `i` and `j`, before the
/// bytes agree again or one input ends.
pub open spec fn resync_len(s: Seq<u8>, t: Seq<u8>, i: int, j: int) -> int
    decreases s.len() - i,
{
    if 0 <= i < s.len() && 0 <= j < t.len() && s[i] != t[j] {
        1 + resync_len(s, t, i + 1, j + 1)
    } else {
        0
    }
}

/// Where a diverged span starting at `i`, `j` ends: where the bytes agree
/// again, or, once one input is exhausted, at the end of both.
pub open spec fn span_end(s: Seq<u8>, t: Seq<u8>, i: int, j: int) -> (int, int) {
    let k = resync_len(s, t, i, j);
    if i + k == s.len() {
        (i + k, t.len() as int)
    } else if j + k == t.len() {
        (s.len() as int, j + k)
    } else {
        (i + k, j + k)
    }
}

proof fn lemma_resync_len(s: Seq<u8>, t: Seq<u8>, i: int, j: int)
    requires
        0 <= i <= s.len(),
        0 <= j <= t.len(),
    ensures
        0 <= resync_len(s, t, i, j),
        i + resync_len(s, t, i, j) <= s.len(),
        j + resync_len(s, t, i, j) <= t.len(),
        (i < s.len() && j < t.len() && s[i] != t[j]) ==> resync_len(s, t, i, j) >= 1,
        ({
            let k = resync_len(s, t, i, j);
            i + k == s.len() || j + k == t.len() || s[i + k] == t[j + k]
        }),
        forall|p: int| i <= p < i + resync_len(s, t, i, j) ==> #[trigger] s[p] != t[p - i + j],
    decreases s.len() - i,
{
    if i < s.len() && j < t.len() && s[i] != t[j] {
        lemma_resync_len(s, t, i + 1, j + 1);
        assert forall|p: int| i <= p < i + resync_len(s, t, i, j) implies #[trigger] s[p] != t[p - i + j] by {
            if p > i {
                assert(s[p] != t[p - (i + 1) + (j + 1)]);
            }
        }
    }
}

/// The greedy byte diff from cursors `i` and `j`: matching bytes advance both
/// cursors; a mismatch opens a span that ends where the bytes agree again.
pub open spec fn diff_from(s: Seq<u8>, t: Seq<u8>, i: int, j: int) -> Seq<ChangeView>
    decreases (s.len() - i) + (t.len() - j),
    via diff_from_decreases
{
    if i < 0 || j < 0 || i > s.len() || j > t.len() || (i == s.len() && j == t.len()) {
        Seq::empty()
    } else if i < s.len() && j < t.len() && s[i] == t[j] {
        diff_from(s, t, i + 1, j + 1)
    } else {
        let e = span_end(s, t, i, j);
        seq![ChangeView { offset: i, old_bytes: s.subrange(i, e.0), new_bytes: t.subrange(j, e.1) }]
            + diff_from(s, t, e.0, e.1)
    }
}

#[via_fn]
proof fn diff_from_decreases(s: Seq<u8>, t: Seq<u8>, i: int, j: int) {
    if !(i < 0 || j < 0 || i > s.len() || j > t.len() || (i == s.len() && j == t.len())) {
        lemma_resync_len(s, t, i, j);
    }
}

/// The greedy byte diff of `source` into `target`.
pub open spec fn byte_diff(source: Seq<u8>, target: Seq<u8>) -> Seq<ChangeView> {
    diff_from(source, target, 0, 0)
}

/// Byte-level delta for inputs too small to benefit from block matching.
pub struct SmallFileDelta {
    pub changes: Vec<ByteChange>,
}

impl SmallFileDelta {
    pub fn generate(source: &[u8], target: &[u8]) -> (r: Self)
        ensures
            changes_view(r.changes@) == byte_diff(source@, target@),
    {
        let changes = Self::diff_bytes(source, target);
        SmallFileDelta { changes }
    }

    /// Linear scan: while bytes match both cursors advance; on a mismatch both
    /// advance together until the bytes agree again, and the diverged span
    /// becomes one change. Not a minimal edit script.
    pub fn diff_bytes(source: &[u8], target: &[u8]) -> (r: Vec<ByteChange>)
        ensures
            changes_view(r@) == byte_diff(source@, target@),
    {
        let mut changes: Vec<ByteChange> = Vec::new();
        let mut i: usize = 0;
        let mut j: usize = 0;
        proof {
            assert(changes_view(changes@) + diff_from(source@, target@, 0, 0) =~= byte_diff(source@, target@));
        }
        while i < source.len() || j < target.len()
            invariant
                i <= source@.len(),
                j <= target@.len(),
                changes_view(changes@) + diff_from(source@, target@, i as int, j as int) == byte_diff(
                    source@,
                    target@,
                ),
            decreases (source@.len() - i) + (target@.len() - j),
        {
            if i < source.len() && j < target.len() && source[i] == target[j] {
                i = i + 1;
                j = j + 1;
            } else {
                let start_i = i;
                let start_j = j;
                proof {
                    lemma_resync_len(source@, target@, i as int, j as int);
                }
                while i < source.len() && j < target.len()
                    invariant
                        start_i <= i <= source@.len(),
                        start_j <= j <= target@.len(),
                        i - start_i == j - start_j,
                        i - start_i <= resync_len(source@, target@, start_i as int, start_j as int),
                        forall|p: int|
                            start_i <= p < start_i + resync_len(source@, target@, start_i as int, start_j as int)
                                ==> #[trigger] source@[p] != target@[p - start_i + start_j],
                        start_i + resync_len(source@, target@, start_i as int, start_j as int) <= source@.len(),
                        start_j + resync_len(source@, target@, start_i as int, start_j as int) <= target@.len(),
                        ({
                            let k = resync_len(source@, target@, start_i as int, start_j as int);
                            start_i + k == source@.len() || start_j + k == target@.len() || source@[start_i
                                + k] == target@[start_j + k]
                        }),
                    ensures
                        i - start_i == resync_len(source@, target@, start_i as int, start_j as int),
                    decreases source@.len() - i,
                {
                    if source[i] == target[j] {
                        proof {
                            if i - start_i < resync_len(source@, target@, start_i as int, start_j as int) {
                                assert(source@[i as int] != target@[i - start_i + start_j]);
                            }
                        }
                        break;
                    }
                    i = i + 1;
                    j = j + 1;
                }
                if i == source.len() {
                    j = target.len();
                } else if j == target.len() {
                    i = source.len();
                }
                let ghost before = changes_view(changes@);
                let old_bytes = slice_to_vec(slice_subrange(source, start_i, i));
                let new_bytes = slice_to_vec(slice_subrange(target, start_j, j));
                changes.push(ByteChange { offset: start_i as u64, old_bytes, new_bytes });
                proof {
                    let e = span_end(source@, target@, start_i as int, start_j as int);
                    assert(e == (i as int, j as int));
                    let ch = seq![
                        ChangeView {
                            offset: start_i as int,
                            old_bytes: source@.subrange(start_i as int, i as int),
                            new_bytes: target@.subrange(start_j as int, j as int),
                        },
                    ];
                    assert(changes_view(changes@) =~= before + ch);
                    assert(before + (ch + diff_from(source@, target@, i as int, j as int)) =~= before + ch
                        + diff_from(source@, target@, i as int, j as int));
                }
            }
        }
        proof {
            assert(changes_view(changes@) + Seq::<ChangeView>::empty() =~= changes_view(changes@));
        }
        changes
    }
}

} // verus!
