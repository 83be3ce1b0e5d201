//! The directory: the files of the filesystem, in the order of their
//! creation.

use vstd::prelude::*;
use vstd::utf8::encode_utf8;

use crate::clock::unix_now;
use crate::disk::{block_of, has_block, lemma_store_keeps_others, store_block, Disk};
use crate::error::{view_of, TfsError, TfsResult};
use crate::inode::{lemma_inode_sync_frame, same_file, INode, INodeModel};
use crate::structures::{RootData, RootRecord, ROOT_INODES};
use crate::superblock::ROOT_BLOCK;
use crate::BLOCK_SIZE;

verus! {

/// The entries of a directory record for the inode blocks `blocks`: the
/// blocks in order, padded with zeros.
pub open spec fn entry_field(blocks: Seq<u16>) -> Seq<u16> {
    Seq::new(
        ROOT_INODES as nat,
        |i: int|
            if i < blocks.len() {
                blocks[i]
            } else {
                0u16
            },
    )
}

/// `inodes` and `disk` after the first `n` inodes are written, one after
/// the other, and how that ended: the first inode that cannot be written
/// stops the rest.
pub open spec fn sync_inodes(inodes: Seq<INodeModel>, disk: Seq<u8>, n: int) -> (
    Seq<INodeModel>,
    Seq<u8>,
    Result<(), TfsError>,
)
    decreases n,
{
    if n <= 0 {
        (inodes, disk, Ok(()))
    } else {
        let (synced, written, r) = sync_inodes(inodes, disk, n - 1);
        if r is Err {
            (synced, written, r)
        } else {
            let (inode, written, r) = synced[n - 1].sync(written);
            (synced.update(n - 1, inode), written, r)
        }
    }
}

/// The inodes that the first `n` of `entries` name, read from `disk` in
/// order. Zero entries are empty slots. The first inode that cannot be read
/// fails the whole.
pub open spec fn load_inodes(entries: Seq<u16>, disk: Seq<u8>, n: int) -> Result<
    Seq<INodeModel>,
    TfsError,
>
    decreases n,
{
    if n <= 0 {
        Ok(Seq::empty())
    } else {
        match load_inodes(entries, disk, n - 1) {
            Err(e) => Err(e),
            Ok(loaded) => if entries[n - 1] == 0 {
                Ok(loaded)
            } else {
                match INodeModel::load(entries[n - 1], disk) {
                    Err(e) => Err(e),
                    Ok(inode) => Ok(loaded.push(inode)),
                }
            },
        }
    }
}

/// What a `Root` holds: the inodes in directory order, and whether the list
/// of them has changed since it was last written.
pub struct RootModel {
    pub dirty: bool,
    pub inodes: Seq<INodeModel>,
}

impl RootModel {
    /// An empty directory, not yet written.
    pub open spec fn fresh() -> RootModel {
        RootModel { dirty: true, inodes: Seq::empty() }
    }

    /// The names of the files, in directory order.
    pub open spec fn names(self) -> Seq<Seq<u8>> {
        Seq::new(self.inodes.len(), |i: int| self.inodes[i].filename)
    }

    /// The blocks of the inodes, in directory order.
    pub open spec fn inode_blocks(self) -> Seq<u16> {
        Seq::new(self.inodes.len(), |i: int| self.inodes[i].block)
    }

    /// The index of the first file named `name`.
    pub open spec fn find(self, name: Seq<u8>) -> Option<int> {
        self.names().index_of_first(name)
    }

    /// The directory with `inode` in place of the inode at `idx`.
    pub open spec fn with_inode(self, idx: int, inode: INodeModel) -> RootModel {
        RootModel { inodes: self.inodes.update(idx, inode), ..self }
    }

    /// The directory with a new empty file appended, and the file's index.
    pub open spec fn create_inode(self, block: u16, filename: Seq<u8>, now: u32) -> (
        RootModel,
        usize,
    ) {
        (
            RootModel {
                dirty: true,
                inodes: self.inodes.push(INodeModel::fresh(block, filename, now)),
            },
            self.inodes.len() as usize,
        )
    }

    /// The record that the directory is stored as. A directory of more than
    /// `ROOT_INODES` files cannot be stored.
    pub open spec fn record(self) -> Result<RootRecord, TfsError> {
        if self.inodes.len() > ROOT_INODES {
            Err(TfsError::SizeError { size: self.inodes.len() as usize })
        } else {
            Ok(RootRecord { inodes: entry_field(self.inode_blocks()) })
        }
    }

    /// The clean directory that `record` describes, its inodes read from
    /// `disk`.
    pub open spec fn load(record: RootRecord, disk: Seq<u8>) -> Result<RootModel, TfsError> {
        match load_inodes(record.inodes, disk, record.inodes.len() as int) {
            Err(e) => Err(e),
            Ok(inodes) => Ok(RootModel { dirty: false, inodes }),
        }
    }

    /// Writes the list of files to block 1 of `disk` if it is dirty, and
    /// marks it clean. A list that cannot be stored is left dirty, and the
    /// disk as it is.
    pub open spec fn sync_entries(self, disk: Seq<u8>) -> (
        RootModel,
        Seq<u8>,
        Result<(), TfsError>,
    ) {
        if !self.dirty {
            (self, disk, Ok(()))
        } else {
            match self.record() {
                Err(e) => (self, disk, Err(e)),
                Ok(record) => (
                    RootModel { dirty: false, ..self },
                    store_block(disk, ROOT_BLOCK as int, BLOCK_SIZE as int, record.layout()),
                    Ok(()),
                ),
            }
        }
    }

    /// Writes every dirty inode, in directory order, and then the list of
    /// files if it is dirty. The first failure stops the rest, and leaves
    /// what it did not write dirty.
    pub open spec fn sync(self, disk: Seq<u8>) -> (RootModel, Seq<u8>, Result<(), TfsError>) {
        let (inodes, written, r) = sync_inodes(self.inodes, disk, self.inodes.len() as int);
        let synced = RootModel { inodes, ..self };
        if r is Err {
            (synced, written, r)
        } else {
            synced.sync_entries(written)
        }
    }
}

/// The models of `inodes`, in order.
pub open spec fn models(inodes: Seq<INode>) -> Seq<INodeModel> {
    Seq::new(inodes.len(), |i: int| inodes[i]@)
}

proof fn lemma_models_push(inodes: Seq<INode>, inode: INode)
    ensures
        #[trigger] models(inodes.push(inode)) == models(inodes).push(inode@),
{
}

/// The directory that lives in block 1.
#[derive(Debug, Clone)]
pub struct Root {
    dirty: bool,
    inodes: Vec<INode>,
}

impl View for Root {
    type V = RootModel;

    closed spec fn view(&self) -> RootModel {
        RootModel { dirty: self.dirty, inodes: models(self.inodes@) }
    }
}

impl Root {
    /// An empty directory.
    pub fn new() -> (r: Self)
        ensures
            r@ == RootModel::fresh(),
    {
        let r = Root { dirty: true, inodes: Vec::new() };
        assert(r@.inodes =~= RootModel::fresh().inodes);
        r
    }

    /// The number of files.
    pub fn len(&self) -> (n: usize)
        ensures
            n == self@.inodes.len(),
    {
        self.inodes.len()
    }

    /// Whether the list of files has changed since it was last written.
    pub fn is_dirty(&self) -> (r: bool)
        ensures
            r == self@.dirty,
    {
        self.dirty
    }

    /// The inode at `idx`.
    pub fn inode(&self, idx: usize) -> (inode: &INode)
        requires
            idx < self@.inodes.len(),
        ensures
            inode@ == self@.inodes[idx as int],
    {
        &self.inodes[idx]
    }

    /// The inode at `idx`, to be changed in place.
    pub fn inode_mut(&mut self, idx: usize) -> (inode: &mut INode)
        requires
            idx < old(self)@.inodes.len(),
        ensures
            inode@ == old(self)@.inodes[idx as int],
            final(self)@ == old(self)@.with_inode(idx as int, final(inode)@),
    {
        proof {
            assert forall|inode: INode| #[trigger]
                models(self.inodes@.update(idx as int, inode)) == models(self.inodes@).update(
                    idx as int,
                    inode@,
                ) by {
            }
        }
        &mut self.inodes[idx]
    }

    /// The index of the first file named `name`.
    pub fn find(&self, name: &str) -> (r: Option<usize>)
        ensures
            match r {
                Some(idx) => idx < self@.inodes.len() && self@.find(encode_utf8(name@)) == Some(
                    idx as int,
                ),
                None => self@.find(encode_utf8(name@)) is None,
            },
    {
        let ghost names = self@.names();
        let ghost wanted = encode_utf8(name@);
        let mut i: usize = 0;
        while i < self.inodes.len()
            invariant
                i <= self.inodes@.len(),
                names == self@.names(),
                wanted == encode_utf8(name@),
                forall|j: int| 0 <= j < i ==> names[j] != wanted,
            decreases self.inodes@.len() - i,
        {
            if self.inodes[i].has_name(name) {
                proof {
                    names.index_of_first_ensures(wanted);
                    assert(names[i as int] == wanted);
                }
                return Some(i);
            }
            i += 1;
        }
        proof {
            names.index_of_first_ensures(wanted);
        }
        None
    }

    /// Appends the inode at `block` of a new empty file named `filename`,
    /// created at `now`, and returns the file's index.
    pub fn create_inode_at(&mut self, block: u16, filename: String, now: u32) -> (idx: usize)
        ensures
            (final(self)@, idx) == old(self)@.create_inode(block, encode_utf8(filename@), now),
    {
        self.dirty = true;
        let inode = INode::new_at(block, filename, now);
        proof {
            lemma_models_push(self.inodes@, inode);
        }
        self.inodes.push(inode);
        self.inodes.len() - 1
    }

    /// Appends the inode at `block` of a new empty file named `filename`,
    /// created at the time the clock shows, and returns the file's index.
    pub fn create_inode(&mut self, block: u16, filename: String) -> (idx: usize)
        ensures
            exists|now: u32|
                (final(self)@, idx) == old(self)@.create_inode(
                    block,
                    encode_utf8(filename@),
                    now,
                ),
    {
        let now = unix_now();
        let idx = self.create_inode_at(block, filename, now);
        idx
    }

    /// The record that the directory is stored as.
    pub fn to_data(&self) -> (r: TfsResult<RootData>)
        ensures
            view_of(r) == self@.record(),
    {
        if self.inodes.len() > ROOT_INODES {
            return Err(TfsError::SizeError { size: self.inodes.len() });
        }
        let mut inodes = [0u16;ROOT_INODES];
        let mut i: usize = 0;
        while i < self.inodes.len()
            invariant
                i <= self.inodes@.len() <= ROOT_INODES,
                forall|j: int| 0 <= j < i ==> inodes@[j] == self@.inodes[j].block,
                forall|j: int| i <= j < ROOT_INODES ==> inodes@[j] == 0,
            decreases self.inodes@.len() - i,
        {
            inodes[i] = self.inodes[i].block();
            i += 1;
        }
        let data = RootData { inodes };
        assert(data@.inodes =~= entry_field(self@.inode_blocks()));
        Ok(data)
    }

    /// Reads the directory that `data` describes, each inode from its block
    /// of `disk`.
    pub fn from_data(data: RootData, disk: &mut Disk<BLOCK_SIZE>) -> (r: TfsResult<Self>)
        ensures
            final(disk)@ == old(disk)@,
            view_of(r) == RootModel::load(data@, old(disk)@),
    {
        let mut inodes: Vec<INode> = Vec::new();
        let ghost entries = data@.inodes;
        let ghost image = disk@;
        let mut i: usize = 0;
        assert(models(inodes@) =~= Seq::empty());
        while i < ROOT_INODES
            invariant
                i <= ROOT_INODES,
                entries == data@.inodes,
                disk@ == image,
                image == old(disk)@,
                load_inodes(entries, image, i as int) == Ok::<Seq<INodeModel>, TfsError>(
                    models(inodes@),
                ),
            decreases ROOT_INODES - i,
        {
            let block = data.inodes[i];
            if block != 0 {
                match INode::from_block(block, disk) {
                    Ok(inode) => {
                        proof {
                            lemma_models_push(inodes@, inode);
                        }
                        inodes.push(inode);
                    },
                    Err(e) => {
                        proof {
                            lemma_load_inodes_fails(entries, image, i + 1, ROOT_INODES as int);
                        }
                        return Err(e);
                    },
                }
            }
            i += 1;
        }
        Ok(Root { dirty: false, inodes })
    }

    /// Writes the inode at `idx` if it is dirty.
    fn sync_inode(&mut self, idx: usize, disk: &mut Disk<BLOCK_SIZE>) -> (r: TfsResult<()>)
        requires
            idx < old(self)@.inodes.len(),
        ensures
            final(self)@ == old(self)@.with_inode(
                idx as int,
                old(self)@.inodes[idx as int].sync(old(disk)@).0,
            ),
            final(disk)@ == old(self)@.inodes[idx as int].sync(old(disk)@).1,
            r == old(self)@.inodes[idx as int].sync(old(disk)@).2,
    {
        let inode = self.inode_mut(idx);
        inode.sync(disk)
    }

    /// Writes every dirty inode and then, if it is dirty, the directory.
    pub fn sync(&mut self, disk: &mut Disk<BLOCK_SIZE>) -> (r: TfsResult<()>)
        ensures
            (final(self)@, final(disk)@, r) == old(self)@.sync(old(disk)@),
    {
        let ghost start = self@;
        let ghost image = disk@;
        let mut i: usize = 0;
        while i < self.inodes.len()
            invariant
                i <= self.inodes@.len(),
                start == old(self)@,
                image == old(disk)@,
                self@.inodes.len() == start.inodes.len(),
                self.inodes@.len() == start.inodes.len(),
                self@.dirty == start.dirty,
                sync_inodes(start.inodes, image, i as int) == (self@.inodes, disk@, Ok::<
                    (),
                    TfsError,
                >(())),
            decreases self.inodes@.len() - i,
        {
            match self.sync_inode(i, disk) {
                Ok(()) => {},
                Err(e) => {
                    proof {
                        lemma_sync_inodes_fails(
                            start.inodes,
                            image,
                            i + 1,
                            start.inodes.len() as int,
                        );
                    }
                    return Err(e);
                },
            }
            assert(self.inodes@.len() == models(self.inodes@).len());
            i += 1;
        }
        self.sync_entries(disk)
    }

    /// Writes the list of files if it is dirty.
    fn sync_entries(&mut self, disk: &mut Disk<BLOCK_SIZE>) -> (r: TfsResult<()>)
        ensures
            (final(self)@, final(disk)@, r) == old(self)@.sync_entries(old(disk)@),
    {
        if self.dirty {
            let data = match self.to_data() {
                Ok(data) => data,
                Err(e) => { return Err(e); },
            };
            match disk.write_block(ROOT_BLOCK as usize, data.serialize()) {
                Ok(()) => {},
                Err(e) => { return Err(TfsError::DiskError(e)); },
            }
            self.dirty = false;
        }
        Ok(())
    }
}

/// Once an inode has failed to load, reading further entries changes
/// nothing.
pub proof fn lemma_load_inodes_fails(entries: Seq<u16>, disk: Seq<u8>, n: int, m: int)
    requires
        0 <= n <= m,
        load_inodes(entries, disk, n) is Err,
    ensures
        load_inodes(entries, disk, m) == load_inodes(entries, disk, n),
    decreases m - n,
{
    if n < m {
        lemma_load_inodes_fails(entries, disk, n, m - 1);
    }
}

/// Once an inode has failed to sync, going on to further inodes changes
/// nothing.
pub proof fn lemma_sync_inodes_fails(inodes: Seq<INodeModel>, disk: Seq<u8>, n: int, m: int)
    requires
        0 <= n <= m,
        sync_inodes(inodes, disk, n).2 is Err,
    ensures
        sync_inodes(inodes, disk, m) == sync_inodes(inodes, disk, n),
    decreases m - n,
{
    if n < m {
        lemma_sync_inodes_fails(inodes, disk, n, m - 1);
    }
}

/// Syncing inodes changes nothing of them but their dirty marks, and
/// nothing of the disk but their own blocks.
pub proof fn lemma_sync_inodes_frame(inodes: Seq<INodeModel>, disk: Seq<u8>, n: int, other: int)
    requires
        0 <= n <= inodes.len(),
    ensures
        sync_inodes(inodes, disk, n).0.len() == inodes.len(),
        forall|i: int|
            0 <= i < inodes.len() ==> same_file(
                #[trigger] sync_inodes(inodes, disk, n).0[i],
                inodes[i],
            ),
        forall|i: int| n <= i < inodes.len() ==> sync_inodes(inodes, disk, n).0[i] == inodes[i],
        sync_inodes(inodes, disk, n).2 is Ok ==> forall|i: int|
            0 <= i < n ==> !(#[trigger] sync_inodes(inodes, disk, n).0[i]).dirty,
        has_block(disk, other, BLOCK_SIZE as int) && (forall|i: int|
            0 <= i < inodes.len() ==> (#[trigger] inodes[i]).block != other) ==> has_block(
            sync_inodes(inodes, disk, n).1,
            other,
            BLOCK_SIZE as int,
        ) && block_of(sync_inodes(inodes, disk, n).1, other, BLOCK_SIZE as int) == block_of(
            disk,
            other,
            BLOCK_SIZE as int,
        ),
    decreases n,
{
    if n > 0 {
        lemma_sync_inodes_frame(inodes, disk, n - 1, other);
        let (synced, written, r) = sync_inodes(inodes, disk, n - 1);
    }
}

/// A sync of the directory changes nothing of the inodes but their dirty
/// marks, and nothing of the disk but the inodes' blocks and block 1.
pub proof fn lemma_root_sync_frame(root: RootModel, disk: Seq<u8>, other: int)
    ensures
        root.sync(disk).0.inodes.len() == root.inodes.len(),
        forall|i: int|
            0 <= i < root.inodes.len() ==> same_file(
                #[trigger] root.sync(disk).0.inodes[i],
                root.inodes[i],
            ),
        root.sync(disk).2 is Ok ==> !root.sync(disk).0.dirty && forall|i: int|
            0 <= i < root.inodes.len() ==> !(#[trigger] root.sync(disk).0.inodes[i]).dirty,
        has_block(disk, other, BLOCK_SIZE as int) && other != ROOT_BLOCK && (forall|i: int|
            0 <= i < root.inodes.len() ==> (#[trigger] root.inodes[i]).block != other)
            ==> has_block(root.sync(disk).1, other, BLOCK_SIZE as int) && block_of(
            root.sync(disk).1,
            other,
            BLOCK_SIZE as int,
        ) == block_of(disk, other, BLOCK_SIZE as int),
{
    let n = root.inodes.len() as int;
    lemma_sync_inodes_frame(root.inodes, disk, n, other);
    let (inodes, written, r) = sync_inodes(root.inodes, disk, n);
}

} // verus!
