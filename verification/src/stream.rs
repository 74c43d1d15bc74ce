//! Encrypting what a reader hands out, one read at a time: the key runs on
//! across the reads, so the bytes written are the whole input XOR'd against
//! the repeated key however the input was split into reads, and the first
//! empty or failed read ends the stream.

use vstd::prelude::*;
use crate::key::{
    can_cycle, xor_cycled, xor_cycled_from, xor_with_key_from, xor_twice_restores,
    lemma_xor_cycled_append, xor_cycled_uses_whole_key_bytes,
};

verus! {

/// The size of the buffer that each read fills at most.
pub const READ_BUFFER_SIZE: usize = 512;

/// What one read of the input gave.
pub enum ReadResult {
    /// The bytes read; none at the end of the input.
    Data(Vec<u8>),
    /// The read failed.
    Failed,
}

/// What to do after a read.
pub enum ReaderAction {
    /// Write these bytes to the output, flush it, and read again; the second
    /// field is the position in the key that the next read starts at.
    Write(Vec<u8>, usize),
    /// Stop reading.
    Stop,
}

/// The read ends the stream: it failed or gave no bytes.
pub open spec fn ends_stream(read: ReadResult) -> bool {
    match read {
        ReadResult::Data(d) => d@.len() == 0,
        ReadResult::Failed => true,
    }
}

/// The key can encrypt what the read gave.
pub open spec fn read_encryptable(key: Seq<u8>, read: ReadResult) -> bool {
    match read {
        ReadResult::Data(d) => can_cycle(key, d@.len()),
        ReadResult::Failed => true,
    }
}

/// The bytes that a read gave; none for a failed read.
pub open spec fn read_bytes(read: ReadResult) -> Seq<u8> {
    match read {
        ReadResult::Data(d) => d@,
        ReadResult::Failed => Seq::empty(),
    }
}

/// The bytes that the first `n` reads gave, one after the other.
pub open spec fn bytes_read(reads: Seq<ReadResult>, n: int) -> Seq<u8>
    decreases n,
{
    if n <= 0 {
        Seq::empty()
    } else {
        bytes_read(reads, n - 1) + read_bytes(reads[n - 1])
    }
}

/// The bytes of the first `n` writes, one after the other.
pub open spec fn bytes_written(writes: Seq<Vec<u8>>, n: int) -> Seq<u8>
    decreases n,
{
    if n <= 0 {
        Seq::empty()
    } else {
        bytes_written(writes, n - 1) + writes[n - 1]@
    }
}

/// The position in the key after `consumed` bytes have been encrypted.
pub open spec fn key_position(key: Seq<u8>, consumed: int) -> int {
    if key.len() == 0 {
        0
    } else {
        consumed % (key.len() as int)
    }
}

/// Decides what follows one read, the key standing at position `offset`:
/// the bytes read, XOR'd against the key repeated from that position on, are
/// written, with the position that the next read starts at; an empty or
/// failed read stops.
pub fn encrypt_read(key: &Vec<u8>, offset: usize, read: &ReadResult) -> (action: ReaderAction)
    requires
        read_encryptable(key@, *read),
        key@.len() > 0 ==> offset < key@.len(),
    ensures
        ends_stream(*read) <==> action is Stop,
        action matches ReaderAction::Write(out, next) ==> {
            &&& out@ == xor_cycled_from(read_bytes(*read), key@, offset as int)
            &&& key@.len() > 0
            &&& next == (offset + out@.len()) % (key@.len() as int)
        },
{
    match read {
        ReadResult::Data(data) => {
            if data.len() == 0 {
                ReaderAction::Stop
            } else {
                let (out, next) = xor_with_key_from(data.as_slice(), key, offset);
                ReaderAction::Write(out, next)
            }
        },
        ReadResult::Failed => ReaderAction::Stop,
    }
}

proof fn lemma_bytes_written_prefix(prev: Seq<Vec<u8>>, w: Vec<u8>, n: int)
    requires
        0 <= n <= prev.len(),
    ensures
        bytes_written(prev.push(w), n) == bytes_written(prev, n),
    decreases n,
{
    if n > 0 {
        lemma_bytes_written_prefix(prev, w, n - 1);
        assert(prev.push(w)[n - 1] == prev[n - 1]);
    }
}

/// XOR's all the bytes that the successive reads gave against the key and
/// returns what is written, one entry per read, up to the first read that is
/// empty or failed. The key runs on from one read to the next, so what is
/// written is all the bytes read, XOR'd against the repeated key.
pub fn encrypt_reader(reads: &Vec<ReadResult>, key: &Vec<u8>) -> (writes: Vec<Vec<u8>>)
    requires
        key@.len() > 0 || reads@.len() == 0 || ends_stream(reads@[0]),
    ensures
        writes@.len() <= reads@.len(),
        forall|i: int| 0 <= i < writes@.len() ==> !ends_stream(#[trigger] reads@[i]),
        forall|i: int|
            0 <= i < writes@.len() ==> #[trigger] writes@[i]@ == xor_cycled_from(
                read_bytes(reads@[i]),
                key@,
                key_position(key@, bytes_read(reads@, i).len() as int),
            ),
        bytes_written(writes@, writes@.len() as int) == xor_cycled(
            bytes_read(reads@, writes@.len() as int),
            key@,
        ),
        writes@.len() == reads@.len() || ends_stream(reads@[writes@.len() as int]),
{
    let mut writes: Vec<Vec<u8>> = Vec::new();
    let mut offset: usize = 0;
    let mut i: usize = 0;
    proof {
        assert(xor_cycled(bytes_read(reads@, 0), key@) =~= Seq::empty());
    }
    while i < reads.len()
        invariant_except_break
            writes@.len() == i,
        invariant
            key@.len() > 0 || reads@.len() == 0 || ends_stream(reads@[0]),
            i <= reads@.len(),
            writes@.len() <= i,
            forall|j: int| 0 <= j < writes@.len() ==> !ends_stream(#[trigger] reads@[j]),
            forall|j: int|
                0 <= j < writes@.len() ==> #[trigger] writes@[j]@ == xor_cycled_from(
                    read_bytes(reads@[j]),
                    key@,
                    key_position(key@, bytes_read(reads@, j).len() as int),
                ),
            bytes_written(writes@, writes@.len() as int) == xor_cycled(
                bytes_read(reads@, writes@.len() as int),
                key@,
            ),
            offset as int == key_position(key@, bytes_read(reads@, writes@.len() as int).len() as int),
            key@.len() > 0 ==> offset < key@.len(),
            i > 0 ==> key@.len() > 0,
        ensures
            writes@.len() <= reads@.len(),
            writes@.len() == reads@.len() || ends_stream(reads@[writes@.len() as int]),
        decreases reads.len() - i,
    {
        let read = &reads[i];
        let action = encrypt_read(key, offset, read);
        match action {
            ReaderAction::Write(out, next) => {
                let ghost prev = writes@;
                let ghost before = bytes_read(reads@, i as int);
                writes.push(out);
                proof {
                    let k = key@.len() as int;
                    let d = read_bytes(reads@[i as int]);
                    assert(bytes_read(reads@, i + 1) == before + d);
                    lemma_bytes_written_prefix(prev, out, i as int);
                    assert(bytes_written(writes@, i + 1) == bytes_written(prev, i as int) + out@);
                    lemma_xor_cycled_append(before, d, key@);
                    vstd::arithmetic::div_mod::lemma_add_mod_noop_right(d.len() as int, before.len() as int, k);
                    assert(next as int == key_position(key@, bytes_read(reads@, i + 1).len() as int));
                    assert forall|j: int| 0 <= j < writes@.len() implies #[trigger] writes@[j]@
                        == xor_cycled_from(
                        read_bytes(reads@[j]),
                        key@,
                        key_position(key@, bytes_read(reads@, j).len() as int),
                    ) by {
                        if j < prev.len() {
                            assert(writes@[j] == prev[j]);
                        }
                    }
                }
                offset = next;
            },
            ReaderAction::Stop => {
                break;
            },
        }
        i += 1;
    }
    writes
}

/// Running the output of a stream through the same key again gives back the
/// bytes that were read, however either run split its input into reads: the
/// stream is decrypted by encrypting it again with the same key.
pub proof fn rerun_restores(
    reads: Seq<ReadResult>,
    writes: Seq<Vec<u8>>,
    rereads: Seq<ReadResult>,
    rewrites: Seq<Vec<u8>>,
    key: Seq<u8>,
)
    requires
        bytes_written(writes, writes.len() as int) == xor_cycled(
            bytes_read(reads, writes.len() as int),
            key,
        ),
        bytes_read(rereads, rewrites.len() as int) == bytes_written(writes, writes.len() as int),
        bytes_written(rewrites, rewrites.len() as int) == xor_cycled(
            bytes_read(rereads, rewrites.len() as int),
            key,
        ),
    ensures
        bytes_written(rewrites, rewrites.len() as int) == bytes_read(reads, writes.len() as int),
{
    xor_twice_restores(bytes_read(reads, writes.len() as int), key);
}

/// Only a failed read or a read of no bytes ends the stream; a read that gave
/// any bytes, whatever their values, does not.
pub proof fn only_empty_or_failed_reads_end(read: ReadResult)
    ensures
        ends_stream(read) <==> match read {
            ReadResult::Data(d) => d@.len() == 0,
            ReadResult::Failed => true,
        },
        read_bytes(read) == match read {
            ReadResult::Data(d) => d@,
            ReadResult::Failed => Seq::<u8>::empty(),
        },
{
}

/// Whatever satisfies what `encrypt_reader` promises writes one entry for
/// every read up to the first one that failed or gave no bytes, and nothing
/// after it; and each byte written, XOR'd with the byte read at the same
/// position of the input, gives the key byte at that position of the input,
/// the key running on across the reads.
pub proof fn reader_writes_each_nonempty_read(
    reads: Seq<ReadResult>,
    key: Seq<u8>,
    writes: Seq<Vec<u8>>,
    n: int,
)
    requires
        writes.len() <= reads.len(),
        forall|i: int| 0 <= i < writes.len() ==> !ends_stream(#[trigger] reads[i]),
        bytes_written(writes, writes.len() as int) == xor_cycled(
            bytes_read(reads, writes.len() as int),
            key,
        ),
        writes.len() == reads.len() || ends_stream(reads[writes.len() as int]),
        0 <= n <= reads.len(),
        forall|i: int| 0 <= i < n ==> (#[trigger] reads[i] matches ReadResult::Data(d) && d@.len() > 0),
    ensures
        writes.len() >= n,
        n < reads.len() && (reads[n] is Failed || (reads[n] matches ReadResult::Data(d)
            && d@.len() == 0)) ==> writes.len() == n,
        bytes_written(writes, writes.len() as int).len() == bytes_read(
            reads,
            writes.len() as int,
        ).len(),
        key.len() > 0 ==> forall|j: int|
            0 <= j < bytes_written(writes, writes.len() as int).len() ==> #[trigger] bytes_written(
                writes,
                writes.len() as int,
            )[j] ^ bytes_read(reads, writes.len() as int)[j] == key[j % (key.len() as int)],
{
    if writes.len() < n {
        let m = writes.len() as int;
        assert(reads[m] matches ReadResult::Data(d) && d@.len() > 0);
        assert(!ends_stream(reads[m]));
    }
    xor_cycled_uses_whole_key_bytes(bytes_read(reads, writes.len() as int), key);
}

} // verus!
