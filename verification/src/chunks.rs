//! How a file is cut into chunks of a fixed size.

use vstd::prelude::*;

verus! {

/// Bytes per chunk.
pub const CHUNK_SIZE: u64 = 256 * 1024;

/// The largest file whose chunks a 32-bit count can number.
pub const MAX_COUNTED_SIZE: u64 = 0xffff_ffff * (256 * 1024);

/// The largest file size that `chunk_count` takes.
pub const MAX_FILE_SIZE: u64 = 0xffff_ffff_ffff_ffff - 256 * 1024;

/// How many chunks it takes to hold `size` bytes.
pub open spec fn chunks_needed(size: nat) -> nat {
    ((size + CHUNK_SIZE - 1) / (CHUNK_SIZE as int)) as nat
}

/// The chunk count a file is announced with: the chunks it needs, counted in
/// 32 bits, and never zero.
pub open spec fn announced_chunks(size: u64) -> u32 {
    let counted = chunks_needed(size as nat) % 0x1_0000_0000;
    if counted == 0 {
        1
    } else {
        counted as u32
    }
}

/// Where chunk `index` starts.
pub open spec fn chunk_start(index: nat) -> nat {
    index * (CHUNK_SIZE as nat)
}

/// Whether a file of `size` bytes has a chunk `index`. An empty file has one
/// chunk, which is empty.
pub open spec fn has_chunk(size: nat, index: nat) -> bool {
    if size == 0 {
        index == 0
    } else {
        chunk_start(index) < size
    }
}

/// The number of bytes in chunk `index`.
pub open spec fn chunk_len(size: nat, index: nat) -> nat
    recommends
        has_chunk(size, index),
{
    if size - chunk_start(index) < CHUNK_SIZE {
        (size - chunk_start(index)) as nat
    } else {
        CHUNK_SIZE as nat
    }
}

/// The bytes of chunk `index`.
pub open spec fn chunk_bytes(data: Seq<u8>, index: nat) -> Seq<u8>
    recommends
        has_chunk(data.len(), index),
{
    data.subrange(
        chunk_start(index) as int,
        (chunk_start(index) + chunk_len(data.len(), index)) as int,
    )
}

/// The first `count` chunks, one after another.
pub open spec fn assembled(data: Seq<u8>, count: nat) -> Seq<u8>
    decreases count,
{
    if count == 0 {
        Seq::empty()
    } else {
        assembled(data, (count - 1) as nat) + chunk_bytes(data, (count - 1) as nat)
    }
}

/// The bytes in the first `count` chunks.
pub open spec fn bytes_in_chunks(size: nat, count: nat) -> nat
    decreases count,
{
    if count == 0 {
        0
    } else {
        bytes_in_chunks(size, (count - 1) as nat) + chunk_len(size, (count - 1) as nat)
    }
}

/// The indices of the first `count` chunks.
pub open spec fn all_chunks(count: u32) -> Seq<u32> {
    Seq::new(count as nat, |i: int| i as u32)
}

/// The chunk count of a file of `size` bytes.
pub fn chunk_count(size: u64) -> (count: u32)
    requires
        size <= MAX_FILE_SIZE,
    ensures
        count == announced_chunks(size),
{
    let needed: u64 = (size + CHUNK_SIZE - 1) / CHUNK_SIZE;
    let counted: u32 = #[verifier::truncate]
    (needed as u32);
    assert(counted == needed % 0x1_0000_0000) by (bit_vector)
        requires
            counted == needed as u32,
    ;
    if counted < 1 {
        1
    } else {
        counted
    }
}

/// The list of all chunk indices below `count`.
pub fn chunk_list(count: u32) -> (list: Vec<u32>)
    ensures
        list@ == all_chunks(count),
{
    let mut list: Vec<u32> = Vec::new();
    let mut i: u32 = 0;
    while i < count
        invariant
            i <= count,
            list@ == all_chunks(i),
        decreases count - i,
    {
        list.push(i);
        i = i + 1;
        assert(list@ =~= all_chunks(i));
    }
    list
}

/// The place of a chunk in its file.
#[derive(Clone, Copy, PartialEq, Eq, Structural, Debug)]
pub struct ChunkSpan {
    /// The offset of its first byte.
    pub offset: u64,
    /// Its length in bytes.
    pub size: u64,
}

/// Where chunk `index` of a file of `size` bytes lies, if the file has it.
pub fn chunk_span(size: u64, index: u32) -> (span: Option<ChunkSpan>)
    ensures
        match span {
            Some(s) => {
                &&& has_chunk(size as nat, index as nat)
                &&& s.offset == chunk_start(index as nat)
                &&& s.size == chunk_len(size as nat, index as nat)
            },
            None => !has_chunk(size as nat, index as nat),
        },
{
    if size == 0 {
        if index != 0 {
            return None;
        }
        return Some(ChunkSpan { offset: 0, size: 0 });
    }
    assert(index as int * CHUNK_SIZE <= 0xffff_ffff * CHUNK_SIZE) by (nonlinear_arith)
        requires
            index <= 0xffff_ffff,
    ;
    let offset: u64 = (index as u64) * CHUNK_SIZE;
    if offset >= size {
        return None;
    }
    let rest: u64 = size - offset;
    let len: u64 = if rest < CHUNK_SIZE {
        rest
    } else {
        CHUNK_SIZE
    };
    Some(ChunkSpan { offset, size: len })
}

proof fn lemma_start_steps(index: nat)
    ensures
        chunk_start(index + 1) == chunk_start(index) + CHUNK_SIZE,
        chunk_start(0) == 0,
{
    assert((index + 1) * (CHUNK_SIZE as nat) == index * (CHUNK_SIZE as nat) + CHUNK_SIZE)
        by (nonlinear_arith);
}

proof fn lemma_start_monotone(i: nat, j: nat)
    requires
        i <= j,
    ensures
        chunk_start(i) <= chunk_start(j),
{
    assert(i * (CHUNK_SIZE as nat) <= j * (CHUNK_SIZE as nat)) by (nonlinear_arith)
        requires
            i <= j,
    ;
}

/// A file that a 32-bit count can number has exactly the chunks below the
/// count it is announced with.
pub proof fn law_chunks_are_those_below_the_count(size: u64, index: nat)
    requires
        size <= MAX_COUNTED_SIZE,
    ensures
        has_chunk(size as nat, index) <==> index < announced_chunks(size),
{
    let needed = chunks_needed(size as nat);
    assert(needed <= 0xffff_ffff);
    if size > 0 {
        assert(needed == announced_chunks(size));
        // needed - 1 chunks do not hold the file, needed chunks do.
        assert((needed - 1) * CHUNK_SIZE < size <= needed * CHUNK_SIZE);
        if index < needed {
            lemma_start_monotone(index, (needed - 1) as nat);
        } else {
            lemma_start_monotone(needed, index);
        }
    } else {
        assert(needed == 0);
    }
}

/// The first chunks hold the file up to where they end.
proof fn lemma_assembled_prefix(data: Seq<u8>, count: nat)
    requires
        count > 0 ==> has_chunk(data.len(), (count - 1) as nat),
    ensures
        assembled(data, count) == data.take(
            if chunk_start(count) <= data.len() {
                chunk_start(count) as int
            } else {
                data.len() as int
            },
        ),
        assembled(data, count).len() == bytes_in_chunks(data.len(), count),
    decreases count,
{
    if count == 0 {
        lemma_start_steps(0);
        assert(assembled(data, 0) =~= data.take(0));
    } else {
        let last = (count - 1) as nat;
        lemma_start_steps(last);
        if last > 0 {
            lemma_start_steps((last - 1) as nat);
        } else {
            lemma_start_steps(0);
        }
        lemma_assembled_prefix(data, last);
        let start = chunk_start(last) as int;
        assert(start <= data.len());
        let end = start + chunk_len(data.len(), last);
        assert(data.take(start) + data.subrange(start, end) =~= data.take(end));
    }
}

/// The chunks of a file, put one after another, are the file.
pub proof fn law_chunks_assemble_to_the_file(data: Seq<u8>)
    requires
        data.len() <= MAX_COUNTED_SIZE,
    ensures
        assembled(data, announced_chunks(data.len() as u64) as nat) == data,
{
    let size = data.len() as u64;
    let count = announced_chunks(size) as nat;
    law_chunks_are_those_below_the_count(size, (count - 1) as nat);
    law_chunks_are_those_below_the_count(size, count);
    lemma_assembled_prefix(data, count);
    assert(data.take(data.len() as int) =~= data);
    if data.len() == 0 {
        assert(data.take(0) =~= data);
    }
}

/// The chunks of a file hold together as many bytes as the file.
pub proof fn law_chunk_sizes_add_up(size: u64)
    requires
        size <= MAX_COUNTED_SIZE,
    ensures
        bytes_in_chunks(size as nat, announced_chunks(size) as nat) == size,
{
    let data = Seq::new(size as nat, |i: int| 0u8);
    let count = announced_chunks(size) as nat;
    law_chunks_assemble_to_the_file(data);
    law_chunks_are_those_below_the_count(size, (count - 1) as nat);
    lemma_assembled_prefix(data, count);
}

/// Every byte of a file is in exactly one chunk.
pub proof fn law_each_byte_is_in_one_chunk(size: u64, position: nat, index: nat)
    requires
        position < size,
    ensures
        has_chunk(size as nat, index) && chunk_start(index) <= position < chunk_start(index)
            + chunk_len(size as nat, index) <==> index == position / (CHUNK_SIZE as nat),
{
    let home = position / (CHUNK_SIZE as nat);
    lemma_start_steps(home);
    assert(home == position / 262144);
    assert(chunk_start(home) == home * 262144);
    if index < home {
        lemma_start_steps(index);
        lemma_start_monotone(index + 1, home);
    } else if index > home {
        lemma_start_monotone(home + 1, index);
    }
}

} // verus!
