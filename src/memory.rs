//! The VM memory and the rule that decides which bytes an instruction may
//! write.
use vstd::prelude::*;

use crate::consts::{Word, MEM_SIZE, VM_MAX_RAM};
use crate::constraints::{range_fits, CheckedMemRange};
use crate::error::{PanicReason, RuntimeError};
use core::ops::Range;

verus! {

/// The execution context of the VM.
#[derive(Clone, Copy, Debug, PartialEq, Eq, Structural)]
pub enum Context {
    /// Running a predicate.
    Predicate { block_height: u32 },
    /// Running the script of a transaction.
    Script { block_height: u32 },
    /// Running a contract called from a script or another contract.
    Call { block_height: u32 },
}

impl Context {
    /// Whether the context is external: a script or a predicate.
    pub open spec fn spec_is_external(&self) -> bool {
        !(self is Call)
    }

    /// Whether the context is external: a script or a predicate.
    pub fn is_external(&self) -> (r: bool)
        ensures
            r == self.spec_is_external(),
    {
        !matches!(self, Context::Call { .. })
    }

    /// Whether the context is internal: a contract call.
    pub fn is_internal(&self) -> (r: bool)
        ensures
            r == !self.spec_is_external(),
    {
        matches!(self, Context::Call { .. })
    }

    /// The block height that the context carries.
    pub open spec fn spec_block_height(&self) -> u32 {
        match *self {
            Context::Predicate { block_height } => block_height,
            Context::Script { block_height } => block_height,
            Context::Call { block_height } => block_height,
        }
    }

    /// The block height that the context carries.
    pub fn block_height(&self) -> (r: Option<u32>)
        ensures
            r == Some(self.spec_block_height()),
    {
        match self {
            Context::Predicate { block_height } => Some(*block_height),
            Context::Script { block_height } => Some(*block_height),
            Context::Call { block_height } => Some(*block_height),
        }
    }
}

/// The registers that decide which memory the current frame owns.
#[derive(Clone, Copy, Debug, PartialEq, Eq, Structural)]
pub struct OwnershipRegisters {
    /// Stack pointer: end of the current frame's stack.
    pub sp: Word,
    /// Stack-start pointer: start of the current frame's mutable stack.
    pub ssp: Word,
    /// Heap pointer: lowest byte of the heap.
    pub hp: Word,
    /// Heap pointer of the enclosing frame: end of the owned heap.
    pub prev_hp: Word,
    /// Execution context.
    pub context: Context,
    /// Start of the memory that holds the serialized transaction.
    pub tx_start: Word,
    /// End of the memory that holds the serialized transaction.
    pub tx_end: Word,
}

/// Whether the current frame may write the `len` bytes at `address`: they
/// lie inside its stack `[ssp, sp)`, inside its heap `[hp, prev_hp)`, or,
/// in an external context, inside the transaction `[tx_start, tx_end)`.
pub open spec fn may_write(owner: OwnershipRegisters, address: int, len: int) -> bool {
    ||| (owner.ssp <= address && address + len <= owner.sp)
    ||| (owner.hp <= address && address + len <= owner.prev_hp)
    ||| (owner.context.spec_is_external() && owner.tx_start <= address && address + len
        <= owner.tx_end)
}

impl OwnershipRegisters {
    /// Registers with the stack `[stack.start, stack.end)` and the heap
    /// `[heap.start, heap.end)`, and no transaction memory.
    pub fn test(stack: Range<u64>, heap: Range<u64>, context: Context) -> (r: Self)
        ensures
            r.ssp == stack.start,
            r.sp == stack.end,
            r.hp == heap.start,
            r.prev_hp == heap.end,
            r.context == context,
            r.tx_start == 0,
            r.tx_end == 0,
    {
        OwnershipRegisters {
            sp: stack.end,
            ssp: stack.start,
            hp: heap.start,
            prev_hp: heap.end,
            context,
            tx_start: 0,
            tx_end: 0,
        }
    }

    /// The same registers with the transaction held in `tx`.
    pub fn with_tx_region(self, tx: Range<u64>) -> (r: Self)
        ensures
            r == (OwnershipRegisters { tx_start: tx.start, tx_end: tx.end, ..self }),
    {
        OwnershipRegisters { tx_start: tx.start, tx_end: tx.end, ..self }
    }

    /// Whether the frame owns every byte of `range`.
    pub fn has_ownership_range(&self, range: &CheckedMemRange) -> (r: bool)
        requires
            range.wf(),
        ensures
            r == may_write(*self, range@.start as int, range@.end - range@.start),
    {
        let start = range.start() as u64;
        let end = range.end() as u64;
        (self.ssp <= start && end <= self.sp) || (self.hp <= start && end <= self.prev_hp) || (
        self.context.is_external() && self.tx_start <= start && end <= self.tx_end)
    }
}

/// The memory of the VM: a buffer of fixed size.
#[derive(Clone)]
pub struct VmMemory {
    bytes: Vec<u8>,
}

impl View for VmMemory {
    type V = Seq<u8>;

    closed spec fn view(&self) -> Seq<u8> {
        self.bytes@
    }
}

/// `bytes` written over `memory` at `address`.
pub open spec fn written(memory: Seq<u8>, address: int, bytes: Seq<u8>) -> Seq<u8> {
    memory.subrange(0, address) + bytes + memory.subrange(address + bytes.len(), memory.len() as int)
}

impl VmMemory {
    /// A memory whose bytes are all zero.
    pub fn new() -> (r: Self)
        ensures
            r@ == Seq::new(MEM_SIZE as nat, |i: int| 0u8),
    {
        let bytes = vec![0u8; MEM_SIZE];
        let r = VmMemory { bytes };
        assert(r@ =~= Seq::new(MEM_SIZE as nat, |i: int| 0u8));
        r
    }

    /// A memory whose bytes are all zero, every byte of it usable.
    pub fn fully_allocated() -> (r: Self)
        ensures
            r@ == Seq::new(MEM_SIZE as nat, |i: int| 0u8),
    {
        Self::new()
    }

    /// The whole memory.
    pub fn as_slice(&self) -> (r: &[u8])
        ensures
            r@ == self@,
    {
        self.bytes.as_slice()
    }

    /// Copies out the `len` bytes at `address`; fails when they do not lie
    /// in the memory.
    pub fn read(&self, address: usize, len: usize) -> (r: Result<Vec<u8>, RuntimeError>)
        requires
            self@.len() == MEM_SIZE,
        ensures
            r is Ok <==> address + len <= MEM_SIZE,
            r matches Ok(v) ==> v@ == self@.subrange(address as int, address + len),
            r is Err ==> r == Err::<Vec<u8>, RuntimeError>(
                RuntimeError::Recoverable(PanicReason::MemoryOverflow),
            ),
    {
        if len > MEM_SIZE || address > MEM_SIZE - len {
            return Err(RuntimeError::Recoverable(PanicReason::MemoryOverflow));
        }
        Ok(self.read_unchecked(address, len))
    }

    /// Copies out the `len` bytes at `address`, which lie in the memory.
    pub(crate) fn read_unchecked(&self, address: usize, len: usize) -> (r: Vec<u8>)
        requires
            self@.len() == MEM_SIZE,
            address + len <= MEM_SIZE,
        ensures
            r@ == self@.subrange(address as int, address + len),
    {
        let mut out: Vec<u8> = Vec::with_capacity(len);
        let mut i: usize = 0;
        while i < len
            invariant
                self@.len() == MEM_SIZE,
                address + len <= MEM_SIZE,
                i <= len,
                out@ == self@.subrange(address as int, address + i),
            decreases len - i,
        {
            out.push(self.bytes[address + i]);
            i = i + 1;
            assert(out@ =~= self@.subrange(address as int, address + i));
        }
        out
    }

    /// Copies out the `N` bytes at `address`, which lie in the memory.
    pub(crate) fn read_array<const N: usize>(&self, address: usize) -> (r: [u8; N])
        requires
            self@.len() == MEM_SIZE,
            address + N <= MEM_SIZE,
        ensures
            r@ == self@.subrange(address as int, address + N),
    {
        let mut out = [0u8; N];
        let mut i: usize = 0;
        while i < N
            invariant
                self@.len() == MEM_SIZE,
                address + N <= MEM_SIZE,
                i <= N,
                out@.len() == N,
                forall|j: int| 0 <= j < i ==> out@[j] == self@[address + j],
            decreases N - i,
        {
            out[i] = self.bytes[address + i];
            i = i + 1;
        }
        assert(out@ =~= self@.subrange(address as int, address + N));
        out
    }

    /// Copies out the `N` bytes at `address`; fails when they do not lie in
    /// the memory.
    pub fn read_bytes<const N: usize>(&self, address: usize) -> (r: Result<[u8; N], RuntimeError>)
        requires
            self@.len() == MEM_SIZE,
        ensures
            r.is_ok() <==> address + N <= MEM_SIZE,
            r matches Ok(a) ==> a@ == self@.subrange(address as int, address + N),
            r matches Err(e) ==> e == RuntimeError::Recoverable(PanicReason::MemoryOverflow),
    {
        if N > MEM_SIZE || address > MEM_SIZE - N {
            return Err(RuntimeError::Recoverable(PanicReason::MemoryOverflow));
        }
        Ok(self.read_array::<N>(address))
    }

    /// Writes `data` at `address` without any check of ownership.
    pub fn write_unchecked(&mut self, address: usize, data: &[u8])
        requires
            old(self)@.len() == MEM_SIZE,
            address + data@.len() <= MEM_SIZE,
        ensures
            final(self)@ == written(old(self)@, address as int, data@),
    {
        let mut i: usize = 0;
        while i < data.len()
            invariant
                old(self)@.len() == MEM_SIZE,
                address + data@.len() <= MEM_SIZE,
                self@.len() == old(self)@.len(),
                i <= data@.len(),
                forall|j: int|
                    0 <= j < self@.len() ==> #[trigger] self@[j] == if address <= j < address + i {
                        data@[j - address]
                    } else {
                        old(self)@[j]
                    },
            decreases data@.len() - i,
        {
            self.bytes.set(address + i, data[i]);
            i = i + 1;
        }
        assert(self@ =~= written(old(self)@, address as int, data@));
    }

    /// Writes `data` at `address` without any check of ownership.
    pub fn force_write_bytes(&mut self, address: usize, data: &[u8])
        requires
            old(self)@.len() == MEM_SIZE,
            address + data@.len() <= MEM_SIZE,
        ensures
            final(self)@ == written(old(self)@, address as int, data@),
    {
        self.write_unchecked(address, data)
    }

    /// Sets the `len` bytes at `address` to zero without any check of
    /// ownership.
    pub fn clear_unchecked(&mut self, address: usize, len: usize)
        requires
            old(self)@.len() == MEM_SIZE,
            address + len <= MEM_SIZE,
        ensures
            final(self)@.len() == old(self)@.len(),
            forall|i: int|
                0 <= i < old(self)@.len() ==> #[trigger] final(self)@[i] == if address <= i
                    < address + len {
                    0u8
                } else {
                    old(self)@[i]
                },
    {
        let mut i: usize = 0;
        while i < len
            invariant
                old(self)@.len() == MEM_SIZE,
                address + len <= MEM_SIZE,
                self@.len() == old(self)@.len(),
                i <= len,
                forall|j: int|
                    0 <= j < self@.len() ==> #[trigger] self@[j] == if address <= j < address + i {
                        0u8
                    } else {
                        old(self)@[j]
                    },
            decreases len - i,
        {
            self.bytes.set(address + i, 0u8);
            i = i + 1;
        }
    }

    /// Writes `data` at `address` when the range lies in the memory and the
    /// frame described by `owner` owns it; otherwise leaves the memory as it
    /// is.
    pub fn try_write(&mut self, owner: OwnershipRegisters, address: Word, data: &[u8]) -> (r: Result<
        (),
        RuntimeError,
    >)
        requires
            old(self)@.len() == MEM_SIZE,
        ensures
            r.is_ok() <==> range_fits(address as int, data@.len() as int, 0, VM_MAX_RAM as int)
                && may_write(owner, address as int, data@.len() as int),
            r.is_ok() ==> final(self)@ == written(old(self)@, address as int, data@),
            r matches Err(e) ==> e == RuntimeError::Recoverable(PanicReason::MemoryOverflow)
                && final(self)@ == old(self)@,
    {
        let range = CheckedMemRange::new(address, data.len())?;
        if !owner.has_ownership_range(&range) {
            return Err(RuntimeError::Recoverable(PanicReason::MemoryOverflow));
        }
        self.write_unchecked(range.start(), data);
        Ok(())
    }
}

/// A memory that starts with the bytes of `chains`, one after the other,
/// and is zero after them.
pub fn mem(chains: &[&[u8]]) -> (r: VmMemory)
    requires
        concat(chains@.map_values(|c: &[u8]| c@)).len() <= MEM_SIZE,
    ensures
        r@ == written(
            Seq::new(MEM_SIZE as nat, |i: int| 0u8),
            0,
            concat(chains@.map_values(|c: &[u8]| c@)),
        ),
{
    let ghost parts = chains@.map_values(|c: &[u8]| c@);
    let mut bytes: Vec<u8> = Vec::new();
    let mut i: usize = 0;
    while i < chains.len()
        invariant
            i <= chains@.len(),
            parts == chains@.map_values(|c: &[u8]| c@),
            concat(parts).len() <= MEM_SIZE,
            bytes@ == concat(parts.subrange(0, i as int)),
        decreases chains@.len() - i,
    {
        let chain = chains[i];
        proof {
            lemma_concat_prefix(parts, i as int);
            lemma_concat_bound(parts, i + 1);
        }
        let mut j: usize = 0;
        while j < chain.len()
            invariant
                j <= chain@.len(),
                bytes@ == concat(parts.subrange(0, i as int)) + chain@.subrange(0, j as int),
            decreases chain@.len() - j,
        {
            bytes.push(chain[j]);
            j = j + 1;
            assert(bytes@ =~= concat(parts.subrange(0, i as int)) + chain@.subrange(0, j as int));
        }
        assert(chain@.subrange(0, j as int) =~= chain@);
        assert(parts[i as int] == chain@);
        i = i + 1;
    }
    assert(parts.subrange(0, i as int) =~= parts);
    let mut memory = VmMemory::new();
    memory.force_write_bytes(0, bytes.as_slice());
    memory
}

/// The sequences of `parts`, one after the other.
pub open spec fn concat(parts: Seq<Seq<u8>>) -> Seq<u8>
    decreases parts.len(),
{
    if parts.len() == 0 {
        Seq::empty()
    } else {
        concat(parts.drop_last()) + parts.last()
    }
}

/// Concatenating one more part appends it.
proof fn lemma_concat_prefix(parts: Seq<Seq<u8>>, i: int)
    requires
        0 <= i < parts.len(),
    ensures
        concat(parts.subrange(0, i + 1)) == concat(parts.subrange(0, i)) + parts[i],
{
    assert(parts.subrange(0, i + 1).drop_last() =~= parts.subrange(0, i));
}

/// A prefix of the parts concatenates to no more than all of them.
proof fn lemma_concat_bound(parts: Seq<Seq<u8>>, i: int)
    requires
        0 <= i <= parts.len(),
    ensures
        concat(parts.subrange(0, i)).len() <= concat(parts).len(),
    decreases parts.len() - i,
{
    if i < parts.len() {
        lemma_concat_prefix(parts, i);
        lemma_concat_bound(parts, i + 1);
    } else {
        assert(parts.subrange(0, i) =~= parts);
    }
}

/// A 32-byte storage key whose last byte is `k`, the others zero.
pub fn key(k: u8) -> (r: [u8; 32])
    ensures
        r@ == Seq::new(31, |i: int| 0u8).push(k),
{
    let mut r = [0u8; 32];
    r[31] = k;
    assert(r@ =~= Seq::new(31, |i: int| 0u8).push(k));
    r
}

} // verus!
