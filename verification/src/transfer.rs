//! Transfer bookkeeping: every copy counts the bytes it moves and hashes
//! them with BLAKE3, checks the cancel flag before each block, and reports
//! the running byte count for progress.

use vstd::prelude::*;

use crate::error::{FpError, FpErrorView};

verus! {

/// `blake3::Hasher`, an incremental BLAKE3 state.
#[verifier::external_type_specification]
#[verifier::external_body]
pub struct ExHasher(blake3::Hasher);

/// The bytes fed into a hasher so far.
pub uninterp spec fn hasher_input(h: blake3::Hasher) -> Seq<u8>;

/// The BLAKE3 hash of `data` in lowercase hexadecimal (`Hash::to_hex`).
pub uninterp spec fn blake3_hex(data: Seq<u8>) -> Seq<char>;

/// `blake3::Hasher::new`: a state that has seen no input.
#[verifier::external_body]
fn hasher_new() -> (h: blake3::Hasher)
    ensures
        hasher_input(h) == Seq::<u8>::empty(),
{
    blake3::Hasher::new()
}

/// `blake3::Hasher::update`: the input grows by `data`.
#[verifier::external_body]
fn hasher_update(h: &mut blake3::Hasher, data: &[u8])
    ensures
        hasher_input(*final(h)) == hasher_input(*old(h)) + data@,
{
    h.update(data);
}

/// `finalize().to_hex()`: the hash of everything fed in, as 64 lowercase
/// hex digits (finalizing does not change the state).
#[verifier::external_body]
fn hasher_hex(h: &blake3::Hasher) -> (r: String)
    ensures
        r@ == blake3_hex(hasher_input(*h)),
        r@.len() == 64,
{
    h.finalize().to_hex().to_string()
}

#[derive(Debug, Clone)]
pub struct TransferResult {
    pub bytes: u64,
    /// BLAKE3 checksum of the transferred bytes (hex).
    pub blake3: String,
}

pub struct TransferResultView {
    pub bytes: u64,
    pub blake3: Seq<char>,
}

impl View for TransferResult {
    type V = TransferResultView;

    open spec fn view(&self) -> TransferResultView {
        TransferResultView { bytes: self.bytes, blake3: self.blake3@ }
    }
}

/// The result of a transfer that moved exactly `data`.
pub open spec fn transfer_result_of(data: Seq<u8>) -> TransferResultView {
    TransferResultView { bytes: data.len() as u64, blake3: blake3_hex(data) }
}

/// The state of one copy: the bytes moved so far and their running hash.
pub struct CopyProgress {
    done: u64,
    hasher: blake3::Hasher,
    data: Ghost<Seq<u8>>,
}

impl CopyProgress {
    /// The bytes this copy has moved so far.
    pub closed spec fn moved(&self) -> Seq<u8> {
        self.data@
    }

    pub closed spec fn wf(&self) -> bool {
        &&& hasher_input(self.hasher) == self.data@
        &&& self.done == self.data@.len()
    }

    /// A copy that has not moved anything yet.
    pub fn new() -> (r: CopyProgress)
        ensures
            r.wf(),
            r.moved() == Seq::<u8>::empty(),
    {
        CopyProgress { done: 0, hasher: hasher_new(), data: Ghost(Seq::empty()) }
    }

    /// The check before each block: a raised cancel flag ends the copy.
    pub fn check_cancel(&self, cancelled: bool) -> (r: Result<(), FpError>)
        ensures
            match r {
                Ok(()) => !cancelled,
                Err(e) => cancelled && e@ == FpErrorView::Cancelled,
            },
    {
        if cancelled {
            Err(FpError::Cancelled)
        } else {
            Ok(())
        }
    }

    /// Accounts for a block that was written: it joins the hashed bytes, and
    /// the new byte count (for the progress report) is returned.
    pub fn absorb(&mut self, block: &[u8]) -> (done: u64)
        requires
            old(self).wf(),
            old(self).moved().len() + block@.len() <= u64::MAX,
        ensures
            final(self).wf(),
            final(self).moved() == old(self).moved() + block@,
            done == final(self).moved().len(),
    {
        hasher_update(&mut self.hasher, block);
        self.done = self.done + block.len() as u64;
        self.data = Ghost(self.data@ + block@);
        self.done
    }

    /// The number of bytes moved so far.
    pub fn done(&self) -> (n: u64)
        requires
            self.wf(),
        ensures
            n == self.moved().len(),
    {
        self.done
    }

    /// The result of the finished copy: its byte count and checksum.
    pub fn finish(&self) -> (r: TransferResult)
        requires
            self.wf(),
        ensures
            r@ == transfer_result_of(self.moved()),
    {
        TransferResult { bytes: self.done, blake3: hasher_hex(&self.hasher) }
    }
}

/// The number of bytes the next ranged read asks for: a block of at most
/// `block` bytes, never past the end.
pub fn next_read_len(pos: u64, total: u64, block: u64) -> (n: u64)
    requires
        pos < total,
        block > 0,
    ensures
        n == (if block < total - pos { block } else { (total - pos) as u64 }),
        0 < n <= block,
        pos + n <= total,
{
    if block < total - pos {
        block
    } else {
        total - pos
    }
}

/// The lengths of the ranged reads that copy the bytes from `pos` up to
/// `total`, each as long as [`next_read_len`] makes it.
pub open spec fn read_plan(pos: int, total: int, block: int) -> Seq<int>
    decreases total - pos,
{
    if pos >= total || block <= 0 {
        Seq::empty()
    } else {
        let n = if block < total - pos {
            block
        } else {
            total - pos
        };
        seq![n] + read_plan(pos + n, total, block)
    }
}

pub open spec fn sum_of(s: Seq<int>) -> int
    decreases s.len(),
{
    if s.len() == 0 {
        0
    } else {
        s[0] + sum_of(s.drop_first())
    }
}

proof fn lemma_read_plan(pos: int, total: int, block: int)
    requires
        0 <= pos <= total,
        block > 0,
    ensures
        sum_of(read_plan(pos, total, block)) == total - pos,
        forall|i: int| 0 <= i < read_plan(pos, total, block).len() ==> 0 < #[trigger] read_plan(pos, total, block)[i] <= block,
    decreases total - pos,
{
    if pos < total {
        let n = if block < total - pos {
            block
        } else {
            total - pos
        };
        lemma_read_plan(pos + n, total, block);
        let rest = read_plan(pos + n, total, block);
        let p = read_plan(pos, total, block);
        assert(p.drop_first() =~= rest);
        assert forall|i: int| 0 <= i < p.len() implies 0 < #[trigger] p[i] <= block by {
            if i > 0 {
                assert(p[i] == rest[i - 1]);
            }
        }
    }
}

// ---------------------------------------------------------------------
// Laws
// ---------------------------------------------------------------------

/// A copy's byte count and checksum depend only on the bytes it moved, not
/// on how they were cut into blocks: absorbing the blocks of `a` one after
/// another (which moves `a.flatten_alt()`, see [`CopyProgress::absorb`])
/// and absorbing those of `b` give the same result whenever the two hold
/// the same bytes in the same order — so a download and the upload of the
/// downloaded file report the same checksum.
pub proof fn law_checksum_independent_of_blocks(a: Seq<Seq<u8>>, b: Seq<Seq<u8>>)
    requires
        a.flatten() == b.flatten(),
    ensures
        transfer_result_of(a.flatten_alt()) == transfer_result_of(b.flatten_alt()),
{
    a.lemma_flatten_and_flatten_alt_are_equivalent();
    b.lemma_flatten_and_flatten_alt_are_equivalent();
}

/// Ranged reads cover a file exactly: reading from 0 in the lengths
/// [`next_read_len`] gives, each read non-empty and at most one block long,
/// moves exactly `total` bytes.
pub proof fn law_ranged_reads_cover_file(total: u64, block: u64)
    requires
        block > 0,
    ensures
        sum_of(read_plan(0, total as int, block as int)) == total,
        forall|i: int|
            0 <= i < read_plan(0, total as int, block as int).len() ==> 0 < #[trigger] read_plan(
                0,
                total as int,
                block as int,
            )[i] <= block,
{
    lemma_read_plan(0, total as int, block as int);
}

/// The byte count reported after a copy is the number of bytes moved.
pub proof fn law_result_counts_moved_bytes(data: Seq<u8>)
    requires
        data.len() <= u64::MAX,
    ensures
        transfer_result_of(data).bytes == data.len(),
        transfer_result_of(data).blake3 == blake3_hex(data),
{
}

} // verus!
