//! Ranges of VM memory that were checked to fit into the memory.
use vstd::prelude::*;

use crate::consts::{Word, MEM_SIZE, VM_MAX_RAM};
use crate::error::{BugVariant, PanicReason, RuntimeError};
use crate::memory::VmMemory;
use core::ops::Range;

verus! {

/// Whether the range `[address, address + size)` passes the checks of a
/// memory range under the constraint `[lo, hi)`: its end does not overflow,
/// its start lies in the constraint and, when it is not empty, so does its
/// last byte.
pub open spec fn range_fits(address: int, size: int, lo: int, hi: int) -> bool {
    &&& address + size <= u64::MAX
    &&& lo <= address < hi
    &&& (size == 0 || lo <= address + size - 1 < hi)
}

/// A range of memory that has been checked to fit into the VM memory.
#[derive(Clone, Copy)]
pub struct CheckedMemRange {
    start: usize,
    end: usize,
}

impl View for CheckedMemRange {
    type V = Range<usize>;

    closed spec fn view(&self) -> Range<usize> {
        Range { start: self.start, end: self.end }
    }
}

impl CheckedMemRange {
    /// The range lies inside the memory and does not end before it starts.
    pub open spec fn wf(&self) -> bool {
        self@.start <= self@.end <= MEM_SIZE
    }

    /// Creates a memory range of `size` bytes at `address`, which must lie in
    /// the memory.
    pub fn new(address: Word, size: usize) -> (r: Result<Self, RuntimeError>)
        ensures
            r.is_ok() <==> range_fits(address as int, size as int, 0, VM_MAX_RAM as int),
            address + size > u64::MAX ==> (r matches Err(e) && e == RuntimeError::Recoverable(
                PanicReason::MemoryOverflow,
            )),
            address < VM_MAX_RAM && address + size <= VM_MAX_RAM ==> r is Ok,
            r matches Ok(m) ==> m.wf() && m@.start == address && m@.end == address + size,
            r matches Err(e) ==> e == RuntimeError::Recoverable(PanicReason::MemoryOverflow),
    {
        Self::new_inner(address, size, 0..VM_MAX_RAM)
    }

    /// Creates a memory range of `SIZE` bytes at `address`.
    pub fn new_const<const SIZE: usize>(address: Word) -> (r: Result<Self, RuntimeError>)
        ensures
            r.is_ok() <==> range_fits(address as int, SIZE as int, 0, VM_MAX_RAM as int),
            r matches Ok(m) ==> m.wf() && m@.start == address && m@.end == address + SIZE,
            r matches Err(e) ==> e == RuntimeError::Recoverable(PanicReason::MemoryOverflow),
    {
        Self::new(address, SIZE)
    }

    /// Creates a memory range of `size` bytes at `address` that must lie in
    /// `constraint`, which itself must end inside the memory.
    pub fn new_with_constraint(address: Word, size: usize, constraint: Range<Word>) -> (r: Result<
        Self,
        RuntimeError,
    >)
        ensures
            constraint.end > VM_MAX_RAM ==> r == Err::<Self, RuntimeError>(
                RuntimeError::Bug(BugVariant::InvalidMemoryConstraint),
            ),
            constraint.end <= VM_MAX_RAM ==> (r.is_ok() <==> range_fits(
                address as int,
                size as int,
                constraint.start as int,
                constraint.end as int,
            )),
            constraint.end <= VM_MAX_RAM ==> (r matches Err(e) ==> e == RuntimeError::Recoverable(
                PanicReason::MemoryOverflow,
            )),
            r matches Ok(m) ==> m.wf() && m@.start == address && m@.end == address + size,
    {
        if constraint.end > VM_MAX_RAM {
            return Err(RuntimeError::Bug(BugVariant::InvalidMemoryConstraint));
        }
        Self::new_inner(address, size, constraint)
    }

    /// Creates a memory range and checks that it fits into the constraint.
    pub(crate) fn new_inner(address: Word, size: usize, constraint: Range<Word>) -> (r: Result<
        Self,
        RuntimeError,
    >)
        requires
            constraint.end <= VM_MAX_RAM,
        ensures
            r.is_ok() <==> range_fits(
                address as int,
                size as int,
                constraint.start as int,
                constraint.end as int,
            ),
            r matches Ok(m) ==> m.wf() && m@.start == address && m@.end == address + size,
            r matches Err(e) ==> e == RuntimeError::Recoverable(PanicReason::MemoryOverflow),
    {
        let end = match address.checked_add(size as Word) {
            Some(end) => end,
            None => return Err(RuntimeError::Recoverable(PanicReason::MemoryOverflow)),
        };
        if address < constraint.start || address >= constraint.end {
            return Err(RuntimeError::Recoverable(PanicReason::MemoryOverflow));
        }
        if size != 0 {
            let last = end - 1;
            if last < constraint.start || last >= constraint.end {
                return Err(RuntimeError::Recoverable(PanicReason::MemoryOverflow));
            }
        }
        Ok(CheckedMemRange { start: address as usize, end: end as usize })
    }

    /// The start of the range.
    pub fn start(&self) -> (r: usize)
        ensures
            r == self@.start,
    {
        self.start
    }

    /// The end of the range.
    pub fn end(&self) -> (r: usize)
        ensures
            r == self@.end,
    {
        self.end
    }

    /// The length of the range.
    pub fn len(&self) -> (r: usize)
        requires
            self.wf(),
        ensures
            r == self@.end - self@.start,
    {
        self.end - self.start
    }

    /// Moves the end of the range `by` bytes towards its start; the range
    /// becomes empty at worst.
    pub fn shrink_end(&mut self, by: usize)
        requires
            old(self).wf(),
        ensures
            final(self).wf(),
            final(self)@.start == old(self)@.start,
            final(self)@.end == if by >= old(self)@.end - old(self)@.start {
                old(self)@.start
            } else {
                (old(self)@.end - by) as usize
            },
    {
        let start = self.start;
        let end = self.end;
        let new_end = if by >= end - start {
            start
        } else {
            end - by
        };
        self.end = new_end;
    }

    /// Moves the start of the range `by` bytes towards its end; the range
    /// becomes empty at worst.
    pub fn grow_start(&mut self, by: usize)
        requires
            old(self).wf(),
        ensures
            final(self).wf(),
            final(self)@.end == old(self)@.end,
            final(self)@.start == if by >= old(self)@.end - old(self)@.start {
                old(self)@.end
            } else {
                (old(self)@.start + by) as usize
            },
    {
        let start = self.start;
        let end = self.end;
        let new_start = if by >= end - start {
            end
        } else {
            start + by
        };
        self.start = new_start;
    }

    /// Copies the bytes of the range out of `memory`.
    pub fn read_to_vec(&self, memory: &VmMemory) -> (r: Vec<u8>)
        requires
            self.wf(),
            memory@.len() == MEM_SIZE,
        ensures
            r@ == memory@.subrange(self@.start as int, self@.end as int),
    {
        memory.read_unchecked(self.start(), self.len())
    }

    /// Sets the bytes of the range in `memory` to zero, without any check of
    /// ownership.
    pub fn clear(&self, memory: &mut VmMemory)
        requires
            self.wf(),
            old(memory)@.len() == MEM_SIZE,
        ensures
            final(memory)@.len() == MEM_SIZE,
            forall|i: int|
                0 <= i < MEM_SIZE ==> #[trigger] final(memory)@[i] == if self@.start <= i
                    < self@.end {
                    0u8
                } else {
                    old(memory)@[i]
                },
    {
        memory.clear_unchecked(self.start(), self.len());
    }
}

/// A checked memory range of the fixed length `LEN`.
#[derive(Clone, Copy)]
pub struct CheckedMemConstLen<const LEN: usize>(CheckedMemRange);

impl<const LEN: usize> View for CheckedMemConstLen<LEN> {
    type V = Range<usize>;

    closed spec fn view(&self) -> Range<usize> {
        self.0@
    }
}

impl<const LEN: usize> CheckedMemConstLen<LEN> {
    /// The range lies inside the memory and is `LEN` bytes long.
    pub open spec fn wf(&self) -> bool {
        &&& self@.start <= self@.end <= MEM_SIZE
        &&& self@.end - self@.start == LEN
    }

    /// Creates a range of `LEN` bytes at `address`.
    pub fn new(address: Word) -> (r: Result<Self, RuntimeError>)
        ensures
            r.is_ok() <==> range_fits(address as int, LEN as int, 0, VM_MAX_RAM as int),
            r matches Ok(m) ==> m.wf() && m@.start == address,
            r matches Err(e) ==> e == RuntimeError::Recoverable(PanicReason::MemoryOverflow),
    {
        let range = CheckedMemRange::new_const::<LEN>(address)?;
        Ok(CheckedMemConstLen(range))
    }

    /// Creates a range of `LEN` bytes at `address` that must lie in
    /// `constraint`, which itself must end inside the memory.
    pub fn new_with_constraint(address: Word, constraint: Range<Word>) -> (r: Result<
        Self,
        RuntimeError,
    >)
        requires
            constraint.end <= VM_MAX_RAM,
        ensures
            r.is_ok() <==> range_fits(
                address as int,
                LEN as int,
                constraint.start as int,
                constraint.end as int,
            ),
            r matches Ok(m) ==> m.wf() && m@.start == address,
            r matches Err(e) ==> e == RuntimeError::Recoverable(PanicReason::MemoryOverflow),
    {
        let range = CheckedMemRange::new_inner(address, LEN, constraint)?;
        Ok(CheckedMemConstLen(range))
    }

    /// The underlying range.
    pub fn range(&self) -> (r: &CheckedMemRange)
        ensures
            r@ == self@,
    {
        &self.0
    }

    /// The start of the range.
    pub fn start(&self) -> (r: usize)
        ensures
            r == self@.start,
    {
        self.0.start()
    }

    /// Reads the `LEN` bytes of the range.
    pub fn read(&self, memory: &VmMemory) -> (r: [u8; LEN])
        requires
            self.wf(),
            memory@.len() == MEM_SIZE,
        ensures
            r@ == memory@.subrange(self@.start as int, self@.end as int),
    {
        memory.read_array::<LEN>(self.start())
    }
}

/// A checked memory range from which a value of type `T` can be read.
pub struct CheckedMemValue<T>(CheckedMemRange, core::marker::PhantomData<T>);

impl<T> View for CheckedMemValue<T> {
    type V = Range<usize>;

    closed spec fn view(&self) -> Range<usize> {
        self.0@
    }
}

impl<T> CheckedMemValue<T> {
    /// The range lies inside the memory.
    pub open spec fn wf(&self) -> bool {
        self@.start <= self@.end <= MEM_SIZE
    }

    /// Creates a range of `SIZE` bytes at `address`.
    pub fn new<const SIZE: usize>(address: Word) -> (r: Result<Self, RuntimeError>)
        ensures
            r.is_ok() <==> range_fits(address as int, SIZE as int, 0, VM_MAX_RAM as int),
            r matches Ok(m) ==> m.wf() && m@.start == address && m@.end == address + SIZE,
            r matches Err(e) ==> e == RuntimeError::Recoverable(PanicReason::MemoryOverflow),
    {
        let range = CheckedMemRange::new_const::<SIZE>(address)?;
        Ok(CheckedMemValue(range, core::marker::PhantomData))
    }

    /// Reads the `SIZE` bytes at the start of the range.
    pub fn read_array<const SIZE: usize>(self, memory: &VmMemory) -> (r: Result<
        [u8; SIZE],
        RuntimeError,
    >)
        requires
            self.wf(),
            memory@.len() == MEM_SIZE,
        ensures
            r.is_ok() <==> self@.start + SIZE <= MEM_SIZE,
            r matches Ok(a) ==> a@ == memory@.subrange(self@.start as int, self@.start + SIZE),
            r matches Err(e) ==> e == RuntimeError::Recoverable(PanicReason::MemoryOverflow),
    {
        memory.read_bytes::<SIZE>(self.0.start())
    }

    /// Reads a value of type `T` from the `SIZE` bytes at the start of the
    /// range.
    pub fn from<const SIZE: usize>(self, memory: &VmMemory) -> (r: Result<T, RuntimeError>) where
        T: From<[u8; SIZE]>,

        requires
            self.wf(),
            memory@.len() == MEM_SIZE,
        ensures
            r.is_ok() <==> self@.start + SIZE <= MEM_SIZE,
            r matches Err(e) ==> e == RuntimeError::Recoverable(PanicReason::MemoryOverflow),
    {
        let bytes = memory.read_bytes::<SIZE>(self.0.start())?;
        Ok(T::from(bytes))
    }

    /// The start of the range.
    pub fn start(&self) -> (r: usize)
        ensures
            r == self@.start,
    {
        self.0.start()
    }

    /// The end of the range.
    pub fn end(&self) -> (r: usize)
        ensures
            r == self@.end,
    {
        self.0.end()
    }
}

} // verus!
