//! A snapshot of the traced machine's memory: allocations at fixed addresses,
//! each byte written or not.

use crate::fault::Fault;
use vstd::prelude::*;

verus! {

/// One allocation of the traced machine.
#[derive(Debug, Clone)]
pub struct Allocation {
    /// Address of the first byte.
    pub base: u64,
    /// The bytes, `None` where nothing was written yet.
    pub cells: Vec<Option<u8>>,
    /// Cleared once the allocation has been freed.
    pub live: bool,
}

/// The memory of the traced machine at one moment.
#[derive(Debug, Clone)]
pub struct Memory {
    pub allocations: Vec<Allocation>,
}

/// A typed place in memory.
#[derive(Debug, Clone, Copy, PartialEq, Eq)]
pub struct Operand {
    /// Index of the operand's type in the type table.
    pub ty: usize,
    /// Address of its first byte.
    pub addr: u64,
    /// Length in bytes where the type is a text slice; not read otherwise.
    pub len: u64,
}

impl Allocation {
    /// Whether the `size` bytes from `addr` on all lie in this allocation
    /// and the allocation is live.
    pub open spec fn covers(&self, addr: u64, size: nat) -> bool {
        &&& self.live
        &&& self.base <= addr
        &&& addr + size <= self.base + self.cells.len()
    }

    /// Whether the `size` bytes from `addr` on all lie in this allocation
    /// and the allocation is live.
    pub fn covers_range(&self, addr: u64, size: u64) -> (inside: bool)
        ensures
            inside == self.covers(addr, size as nat),
    {
        if !self.live || addr < self.base {
            return false;
        }
        let skip: u64 = addr - self.base;
        let len: usize = self.cells.len();
        if skip > len as u64 {
            return false;
        }
        size <= len as u64 - skip
    }
}

/// Index of the first allocation at or after `from` that covers the range.
pub open spec fn first_covering(
    allocations: Seq<Allocation>,
    addr: u64,
    size: nat,
    from: int,
) -> Option<int>
    decreases allocations.len() - from,
{
    if from < 0 || from >= allocations.len() {
        None
    } else if allocations[from].covers(addr, size) {
        Some(from)
    } else {
        first_covering(allocations, addr, size, from + 1)
    }
}

/// What `first_covering` finds is a live allocation that covers the range,
/// and nothing before it does.
pub proof fn lemma_first_covering(allocations: Seq<Allocation>, addr: u64, size: nat, from: int)
    requires
        0 <= from,
    ensures
        match first_covering(allocations, addr, size, from) {
            Some(i) => {
                &&& from <= i < allocations.len()
                &&& allocations[i].covers(addr, size)
                &&& forall|j: int| from <= j < i ==> !(#[trigger] allocations[j]).covers(addr, size)
            },
            None => forall|j: int|
                from <= j < allocations.len() ==> !(#[trigger] allocations[j]).covers(addr, size),
        },
    decreases allocations.len() - from,
{
    if from < allocations.len() && !allocations[from].covers(addr, size) {
        lemma_first_covering(allocations, addr, size, from + 1);
    }
}

/// Whether every one of the cells has been written.
pub open spec fn all_written(cells: Seq<Option<u8>>) -> bool {
    forall|i: int| 0 <= i < cells.len() ==> (#[trigger] cells[i]) is Some
}

/// The bytes in cells that have all been written.
pub open spec fn written_bytes(cells: Seq<Option<u8>>) -> Seq<u8> {
    Seq::new(cells.len(), |i: int| cells[i]->0)
}

impl Memory {
    /// Index of the first live allocation that holds the whole range.
    pub open spec fn locate_spec(&self, addr: u64, size: nat) -> Option<int> {
        first_covering(self.allocations@, addr, size, 0)
    }

    /// Whether the range lies in a live allocation.
    pub open spec fn accessible(&self, addr: u64, size: nat) -> bool {
        self.locate_spec(addr, size) is Some
    }

    /// The cells of an accessible range.
    pub open spec fn cells_at(&self, addr: u64, size: nat) -> Seq<Option<u8>>
        recommends
            self.accessible(addr, size),
    {
        let allocation = self.allocations@[self.locate_spec(addr, size)->0];
        allocation.cells@.subrange(addr - allocation.base, addr - allocation.base + size)
    }

    /// What reading `size` bytes at `addr` gives: the bytes, or the fault
    /// that an unreachable or unwritten range raises.
    pub open spec fn read_spec(&self, addr: u64, size: nat) -> Result<Seq<u8>, Fault> {
        if !self.accessible(addr, size) {
            Err(Fault::OutOfBounds)
        } else if !all_written(self.cells_at(addr, size)) {
            Err(Fault::Uninitialized)
        } else {
            Ok(written_bytes(self.cells_at(addr, size)))
        }
    }

    /// Finds the first live allocation that holds the whole range.
    pub fn locate(&self, addr: u64, size: u64) -> (found: Option<usize>)
        ensures
            match found {
                Some(i) => self.locate_spec(addr, size as nat) == Some(i as int),
                None => self.locate_spec(addr, size as nat) is None,
            },
    {
        let mut i: usize = 0;
        while i < self.allocations.len()
            invariant
                i <= self.allocations.len(),
                self.locate_spec(addr, size as nat) == first_covering(
                    self.allocations@,
                    addr,
                    size as nat,
                    i as int,
                ),
            decreases self.allocations.len() - i,
        {
            if self.allocations[i].covers_range(addr, size) {
                return Some(i);
            }
            i = i + 1;
        }
        None
    }

    /// Reads `size` bytes at `addr`.
    pub fn read(&self, addr: u64, size: u64) -> (bytes: Result<Vec<u8>, Fault>)
        ensures
            match bytes {
                Ok(b) => self.read_spec(addr, size as nat) == Ok::<Seq<u8>, Fault>(b@) && b@.len()
                    == size,
                Err(e) => self.read_spec(addr, size as nat) == Err::<Seq<u8>, Fault>(e),
            },
    {
        let index = match self.locate(addr, size) {
            Some(i) => i,
            None => {
                return Err(Fault::OutOfBounds);
            },
        };
        proof {
            lemma_first_covering(self.allocations@, addr, size as nat, 0);
        }
        let allocation = &self.allocations[index];
        let start: usize = (addr - allocation.base) as usize;
        let count: usize = size as usize;
        let ghost cells = self.cells_at(addr, size as nat);
        let mut bytes: Vec<u8> = Vec::new();
        let mut i: usize = 0;
        while i < count
            invariant
                i <= count,
                count == size,
                start + count <= allocation.cells.len(),
                cells == allocation.cells@.subrange(start as int, start + count),
                cells == self.cells_at(addr, size as nat),
                self.accessible(addr, size as nat),
                bytes.len() == i,
                forall|k: int| 0 <= k < i ==> (#[trigger] cells[k]) == Some(bytes@[k]),
            decreases count - i,
        {
            match allocation.cells[start + i] {
                Some(b) => {
                    bytes.push(b);
                },
                None => {
                    assert(cells[i as int] is None);
                    return Err(Fault::Uninitialized);
                },
            }
            i = i + 1;
        }
        proof {
            assert(all_written(cells));
            assert(bytes@ =~= written_bytes(cells));
        }
        Ok(bytes)
    }
}

} // verus!
