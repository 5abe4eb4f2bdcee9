use vstd::prelude::*;

verus! {

/// The size of a block in bytes, also the alignment asked of the allocator.
pub type BlockSize = usize;

#[derive(PartialEq, Eq, Structural, Clone, Copy, Debug)]
pub enum BlockError {
    /// The requested size, and so the alignment, is not a power of two.
    BadRequest,
    /// The allocator had no memory for the block.
    OOM,
}

pub open spec fn is_power_of_two(n: nat) -> bool
    decreases n,
{
    if n == 0 {
        false
    } else if n == 1 {
        true
    } else if n % 2 == 1 {
        false
    } else {
        is_power_of_two(n / 2)
    }
}

/// A block of memory: its start address and its size.
pub struct Block {
    addr: usize,
    size: BlockSize,
}

impl Block {
    pub closed spec fn addr_spec(&self) -> usize {
        self.addr
    }

    pub closed spec fn size_spec(&self) -> usize {
        self.size
    }

    /// A block covers a non-null address range whose size is a power of two.
    pub open spec fn wf(&self) -> bool {
        self.addr_spec() != 0 && is_power_of_two(self.size_spec() as nat)
    }

    /// The start address of the block.
    pub fn as_ptr(&self) -> (r: usize)
        ensures
            r == self.addr_spec(),
    {
        self.addr
    }

    /// The size of the block in bytes.
    pub fn size(&self) -> (r: BlockSize)
        ensures
            r == self.size_spec(),
    {
        self.size
    }
}

/// Whether `size` can be requested as a block: a power of two.
pub fn is_valid_size(size: BlockSize) -> (r: bool)
    ensures
        r == is_power_of_two(size as nat),
{
    if size == 0 {
        return false;
    }
    let mut n: usize = size;
    while n % 2 == 0
        invariant
            n > 0,
            is_power_of_two(size as nat) == is_power_of_two(n as nat),
        decreases n,
    {
        n = n / 2;
    }
    n == 1
}

/// A block of `size` bytes at `addr`, the address that the system allocator
/// returned for a request of that size and alignment (0 when it failed).
/// A size that is not a power of two is refused before the address is read.
pub fn new(size: BlockSize, addr: usize) -> (r: Result<Block, BlockError>)
    ensures
        !is_power_of_two(size as nat) ==> r == Err::<Block, BlockError>(BlockError::BadRequest),
        is_power_of_two(size as nat) && addr == 0 ==> r == Err::<Block, BlockError>(BlockError::OOM),
        is_power_of_two(size as nat) && addr != 0 ==> (r matches Ok(b) && b.wf() && b.addr_spec()
            == addr && b.size_spec() == size),
{
    if !is_valid_size(size) {
        return Err(BlockError::BadRequest);
    }
    if addr == 0 {
        return Err(BlockError::OOM);
    }
    Ok(Block { addr, size })
}

} // verus!
