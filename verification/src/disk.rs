//! The block device: a byte image addressed in blocks of a fixed size.

use vstd::prelude::*;

verus! {

/// Failures of the block device.
#[derive(Debug, Clone, Copy, PartialEq, Eq)]
pub enum DiskError {
    /// The request reaches outside what the backing store holds or can hold.
    IoError,
    /// The size asked for is no multiple of the block size.
    InvalidSize { block_size: usize },
}

/// What the block device returns.
pub type DiskResult<T> = Result<T, DiskError>;

/// Whether `image` holds all of block `num`, for blocks of `bs` bytes.
pub open spec fn has_block(image: Seq<u8>, num: int, bs: int) -> bool {
    0 <= num && (num + 1) * bs <= image.len()
}

/// The bytes of block `num` of `image`.
pub open spec fn block_of(image: Seq<u8>, num: int, bs: int) -> Seq<u8> {
    image.subrange(num * bs, (num + 1) * bs)
}

/// `image` after `data` is stored as block `num`. An image that ends before
/// the block is first extended with zero bytes.
pub open spec fn store_block(image: Seq<u8>, num: int, bs: int, data: Seq<u8>) -> Seq<u8> {
    Seq::new(
        if image.len() >= (num + 1) * bs {
            image.len()
        } else {
            ((num + 1) * bs) as nat
        },
        |i: int|
            if num * bs <= i < (num + 1) * bs {
                data[i - num * bs]
            } else if i < image.len() {
                image[i]
            } else {
                0u8
            },
    )
}

/// A freshly stored block reads back as written.
pub proof fn lemma_store_then_read(image: Seq<u8>, num: int, bs: int, data: Seq<u8>)
    requires
        0 <= num,
        0 <= bs,
        data.len() == bs,
    ensures
        has_block(store_block(image, num, bs, data), num, bs),
        block_of(store_block(image, num, bs, data), num, bs) == data,
{
    assert((num + 1) * bs == num * bs + bs) by (nonlinear_arith);
}

/// Storing one block leaves every other block that was present as it was.
pub proof fn lemma_store_keeps_others(
    image: Seq<u8>,
    num: int,
    bs: int,
    data: Seq<u8>,
    other: int,
)
    requires
        0 <= num,
        0 <= bs,
        other != num,
        has_block(image, other, bs),
    ensures
        has_block(store_block(image, num, bs, data), other, bs),
        block_of(store_block(image, num, bs, data), other, bs) == block_of(image, other, bs),
{
    assert((other + 1) * bs == other * bs + bs) by (nonlinear_arith);
    if other < num {
        assert((other + 1) * bs <= num * bs) by (nonlinear_arith)
            requires
                other < num,
                0 <= bs,
        ;
    } else {
        assert((num + 1) * bs <= other * bs) by (nonlinear_arith)
            requires
                num < other,
                0 <= bs,
        ;
    }
}

/// A block device over a byte image held in memory.
#[derive(Debug)]
pub struct Disk<const BLOCK_SIZE: usize> {
    image: Vec<u8>,
}

impl<const BLOCK_SIZE: usize> View for Disk<BLOCK_SIZE> {
    type V = Seq<u8>;

    closed spec fn view(&self) -> Seq<u8> {
        self.image@
    }
}

impl<const BLOCK_SIZE: usize> Disk<BLOCK_SIZE> {
    /// Opens a device of `size` bytes over `image`, the bytes that the
    /// backing store holds so far. The image is taken as it is: `size` is
    /// only held against the block size.
    pub fn open(image: Vec<u8>, size: usize) -> (r: DiskResult<Disk<BLOCK_SIZE>>)
        requires
            BLOCK_SIZE > 0,
        ensures
            size % BLOCK_SIZE != 0 ==> r == Err::<Disk<BLOCK_SIZE>, DiskError>(
                DiskError::InvalidSize { block_size: BLOCK_SIZE },
            ),
            size % BLOCK_SIZE == 0 ==> r is Ok && r->Ok_0@ == image@,
    {
        if size % BLOCK_SIZE != 0 {
            return Err(DiskError::InvalidSize { block_size: BLOCK_SIZE });
        }
        Ok(Disk { image })
    }

    /// Reads block `num`. Fails with `IoError` exactly when the image ends
    /// before the end of that block.
    pub fn read_block(&self, num: usize) -> (r: DiskResult<[u8; BLOCK_SIZE]>)
        ensures
            has_block(self@, num as int, BLOCK_SIZE as int) ==> r is Ok && r->Ok_0@ == block_of(
                self@,
                num as int,
                BLOCK_SIZE as int,
            ),
            !has_block(self@, num as int, BLOCK_SIZE as int) ==> r == Err::<
                [u8; BLOCK_SIZE],
                DiskError,
            >(DiskError::IoError),
    {
        let len = self.image.len();
        proof {
            assert((num + 1) * BLOCK_SIZE == num * BLOCK_SIZE + BLOCK_SIZE) by (nonlinear_arith);
        }
        let start = match num.checked_mul(BLOCK_SIZE) {
            Some(s) => s,
            None => { return Err(DiskError::IoError); },
        };
        let end = match start.checked_add(BLOCK_SIZE) {
            Some(e) => e,
            None => { return Err(DiskError::IoError); },
        };
        if end > len {
            return Err(DiskError::IoError);
        }
        let mut block = [0u8; BLOCK_SIZE];
        let mut i: usize = 0;
        while i < BLOCK_SIZE
            invariant
                i <= BLOCK_SIZE,
                start + BLOCK_SIZE == end,
                end <= self.image@.len(),
                forall|j: int| 0 <= j < i ==> block@[j] == self.image@[start + j],
            decreases BLOCK_SIZE - i,
        {
            block[i] = self.image[start + i];
            i += 1;
        }
        Ok(block)
    }

    /// Stores `data` as block `num`, extending the image with zero bytes
    /// where it ends before the block. Fails with `IoError`, changing
    /// nothing, exactly when the end of the block lies beyond what an image
    /// can hold.
    pub fn write_block(&mut self, num: usize, data: [u8; BLOCK_SIZE]) -> (r: DiskResult<()>)
        ensures
            (num + 1) * BLOCK_SIZE <= isize::MAX ==> r is Ok && final(self)@ == store_block(
                old(self)@,
                num as int,
                BLOCK_SIZE as int,
                data@,
            ),
            (num + 1) * BLOCK_SIZE > isize::MAX ==> r == Err::<(), DiskError>(DiskError::IoError)
                && final(self)@ == old(self)@,
    {
        proof {
            assert((num + 1) * BLOCK_SIZE == num * BLOCK_SIZE + BLOCK_SIZE) by (nonlinear_arith);
        }
        let start = match num.checked_mul(BLOCK_SIZE) {
            Some(s) => s,
            None => { return Err(DiskError::IoError); },
        };
        let end = match start.checked_add(BLOCK_SIZE) {
            Some(e) => e,
            None => { return Err(DiskError::IoError); },
        };
        if end > isize::MAX as usize {
            return Err(DiskError::IoError);
        }
        if self.image.len() < end {
            self.image.resize(end, 0u8);
            proof {
                let before = old(self).image@;
            }
        }
        let ghost before = old(self).image@;
        let ghost grown = self.image@;
        let mut i: usize = 0;
        while i < BLOCK_SIZE
            invariant
                i <= BLOCK_SIZE,
                start == num * BLOCK_SIZE,
                start + BLOCK_SIZE == end,
                end <= self.image@.len(),
                self.image@.len() == grown.len(),
                grown.len() == if before.len() >= end {
                    before.len()
                } else {
                    end as nat
                },
                forall|j: int|
                    0 <= j < grown.len() ==> grown[j] == (if j < before.len() {
                        before[j]
                    } else {
                        0u8
                    }),
                forall|j: int| 0 <= j < i ==> self.image@[start + j] == data@[j],
                forall|j: int|
                    0 <= j < grown.len() && !(start <= j < start + i) ==> self.image@[j]
                        == grown[j],
            decreases BLOCK_SIZE - i,
        {
            self.image[start + i] = data[i];
            i += 1;
        }
        proof {
            let target = store_block(old(self)@, num as int, BLOCK_SIZE as int, data@);
            assert forall|j: int| 0 <= j < target.len() implies self.image@[j] == target[j] by {
                if !(start <= j < start + BLOCK_SIZE) {
                    assert(self.image@[j] == grown[j]);
                }
            }
        }
        Ok(())
    }

    /// The bytes of the whole image.
    pub fn image(&self) -> (bytes: &Vec<u8>)
        ensures
            bytes@ == self@,
    {
        &self.image
    }

    /// Gives up the device and hands back its image.
    pub fn into_image(self) -> (bytes: Vec<u8>)
        ensures
            bytes@ == self@,
    {
        self.image
    }
}

} // verus!
