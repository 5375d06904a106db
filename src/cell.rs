//! The memory cell: a growable byte buffer held by an allocator actor, which
//! other actors read and write by message, and which the runtime reads
//! synchronously (`len_sync`, `read_sync`) to spawn an actor from its bytes.
use vstd::prelude::*;
use vstd::arithmetic::div_mod::lemma_div_denominator;
use crate::runtime::Address;
use crate::value::{le_byte, le_nat, lemma_pow256_pos, pow256, read_le};

verus! {

/// The contents of a memory cell and the address allowed to change them.
pub struct MemoryCell {
    val: Vec<u8>,
    owner: Option<Address>,
}

impl View for MemoryCell {
    type V = Seq<u8>;

    closed spec fn view(&self) -> Seq<u8> {
        self.val@
    }
}

impl MemoryCell {
    /// An empty cell. A cell created by the allocator manager has no owner.
    pub fn new(owner: Option<Address>) -> (r: MemoryCell)
        ensures
            r@ == Seq::<u8>::empty(),
            r.owner() == owner,
    {
        MemoryCell { val: Vec::new(), owner }
    }

    /// The address allowed to change the cell.
    pub closed spec fn owner(&self) -> Option<Address> {
        self.owner
    }

    /// Whether `from` owns the cell.
    pub fn is_owner(&self, from: Address) -> (r: bool)
        ensures
            r == (self.owner() == Some(from)),
    {
        match self.owner {
            Some(o) => o == from,
            None => false,
        }
    }

    /// Hands the cell over to `new_owner`.
    pub fn reassign(&mut self, new_owner: Address)
        ensures
            final(self).owner() == Some(new_owner),
            final(self)@ == old(self)@,
    {
        self.owner = Some(new_owner);
    }

    /// Number of bytes in the cell (`len_sync`).
    pub fn len_sync(&self) -> (r: usize)
        ensures
            r == self@.len(),
    {
        self.val.len()
    }

    /// The byte at `offset` (`read_sync`).
    pub fn read_sync(&self, offset: u32) -> (r: u8)
        requires
            (offset as int) < self@.len(),
        ensures
            r == self@[offset as int],
    {
        self.val[offset as usize]
    }

    /// Appends one byte to the cell.
    pub fn append(&mut self, val: u8)
        ensures
            final(self)@ == old(self)@.push(val),
            final(self).owner() == old(self).owner(),
    {
        self.val.push(val);
    }
}

/// The byte at `offset` of the cell.
pub fn do_read(cell: &MemoryCell, offset: u32) -> (r: u8)
    requires
        (offset as int) < cell@.len(),
    ensures
        r == cell@[offset as int],
{
    cell.val[offset as usize]
}

/// Overwrites the byte at `offset` of the cell.
pub fn do_write(cell: &mut MemoryCell, offset: u32, val: u8)
    requires
        (offset as int) < old(cell)@.len(),
    ensures
        final(cell)@ == old(cell)@.update(offset as int, val),
        final(cell).owner() == old(cell).owner(),
{
    cell.val.set(offset as usize, val);
}

/// Adds `size` zero bytes at the end of the cell.
pub fn do_grow(cell: &mut MemoryCell, size: u32)
    requires
        old(cell)@.len() + size <= usize::MAX,
    ensures
        final(cell)@ == old(cell)@ + Seq::new(size as nat, |i: int| 0u8),
        final(cell).owner() == old(cell).owner(),
{
    let ghost s = cell@;
    let mut i: u32 = 0;
    while i < size
        invariant
            i <= size,
            s.len() + size <= usize::MAX,
            cell@ == s + Seq::new(i as nat, |k: int| 0u8),
            cell.owner() == old(cell).owner(),
        decreases size - i,
    {
        cell.val.push(0);
        i = i + 1;
        proof {
            assert(cell@ =~= s + Seq::new(i as nat, |k: int| 0u8));
        }
    }
}

/// The `size` bytes from `offset`, read as a little-endian number.
pub fn do_read_chunk(cell: &MemoryCell, offset: u32, size: u32) -> (r: u128)
    requires
        size <= 16,
        offset + size <= cell@.len(),
    ensures
        r as nat == le_nat(cell@.subrange(offset as int, offset + size)),
{
    let len = cell.val.len();
    proof {
        assert(cell@.len() == len);
    }
    read_le(cell.val.as_slice(), offset as usize, size as usize)
}

/// Writes the low `size` bytes of `val`, little-endian, at `offset`. The
/// write is accepted, with status 0, only when `size` is at most 16 and the
/// chunk ends exactly at the end of the cell; otherwise the cell is left as
/// it was and the status is 1.
pub fn do_write_chunk(cell: &mut MemoryCell, offset: u32, val: u128, size: u32) -> (r: u8)
    ensures
        r == if size <= 16 && offset + size == old(cell)@.len() {
            0u8
        } else {
            1u8
        },
        r == 1 ==> final(cell)@ == old(cell)@,
        r == 0 ==> final(cell)@ == old(cell)@.take(offset as int) + Seq::new(
            size as nat,
            |i: int| le_byte(val as nat, i as nat),
        ),
        final(cell).owner() == old(cell).owner(),
{
    if size > 16 || offset as u64 + size as u64 != cell.val.len() as u64 {
        return 1;
    }
    let ghost s = cell@;
    let mut v: u128 = val;
    let mut i: u32 = 0;
    let len = cell.val.len();
    proof {
        assert(pow256(0) == 1);
        assert(val as nat / pow256(0) == val as nat);
    }
    while i < size
        invariant
            i <= size,
            size <= 16,
            offset + size == s.len(),
            s.len() == len,
            cell@.len() == s.len(),
            cell.owner() == old(cell).owner(),
            v as nat == val as nat / pow256(i as nat),
            forall|k: int| 0 <= k < offset ==> cell@[k] == s[k],
            forall|k: int| 0 <= k < i ==> cell@[offset + k] == #[trigger] le_byte(val as nat, k as nat),
        decreases size - i,
    {
        let b = (v % 256) as u8;
        cell.val.set(offset as usize + i as usize, b);
        proof {
            lemma_pow256_pos(i as nat);
            lemma_div_denominator(val as int, pow256(i as nat) as int, 256);
            assert(pow256((i + 1) as nat) == pow256(i as nat) * 256);
        }
        v = v / 256;
        i = i + 1;
    }
    proof {
        assert(cell@ =~= s.take(offset as int) + Seq::new(
            size as nat,
            |k: int| le_byte(val as nat, k as nat),
        ));
    }
    0
}

} // verus!
