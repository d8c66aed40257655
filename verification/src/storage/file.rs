//! The effects that storage operations have on a file, and an in-memory image
//! of a file that records, in order, the writes that bring the file on disk to
//! that image.
use vstd::prelude::*;
use crate::bytes::push_slice;

verus! {

broadcast use vstd::seq_lib::group_seq_properties;

/// One effect on a file, to be carried out by whoever owns the file on disk.
#[derive(Debug)]
pub enum FileOp {
    /// Create the file's parent folders, then create the file empty (or truncate it).
    Create,
    /// Truncate the file to length 0.
    Truncate,
    /// Write the bytes at the offset, zero-filling any gap past the end.
    WriteAt(u64, Vec<u8>),
    /// Append the bytes at the end.
    Append(Vec<u8>),
    /// Flush the file to stable storage.
    Sync,
    /// Remove the file.
    Remove,
}

/// `file` with `bytes` written at `offset`; a gap past the end is zero-filled.
pub open spec fn write_at(file: Seq<u8>, offset: int, bytes: Seq<u8>) -> Seq<u8> {
    let base = if offset <= file.len() {
        file
    } else {
        file + Seq::new((offset - file.len()) as nat, |i: int| 0u8)
    };
    let end = offset + bytes.len();
    base.subrange(0, offset) + bytes + if end < base.len() {
        base.subrange(end, base.len() as int)
    } else {
        Seq::empty()
    }
}

/// How long a file is after a write, and which bytes the write leaves alone.
pub proof fn lemma_write_at(file: Seq<u8>, offset: int, bytes: Seq<u8>)
    requires
        0 <= offset,
    ensures
        write_at(file, offset, bytes).len() == if offset + bytes.len() > file.len() {
            offset + bytes.len()
        } else {
            file.len() as int
        },
        forall|i: int|
            0 <= i < file.len() && (i < offset || offset + bytes.len() <= i) ==> #[trigger] write_at(
                file,
                offset,
                bytes,
            )[i] == file[i],
        forall|i: int|
            offset <= i < offset + bytes.len() ==> #[trigger] write_at(file, offset, bytes)[i] == bytes[i
                - offset],
        write_at(file, offset, bytes).subrange(offset, offset + bytes.len()) == bytes,
{
    let w = write_at(file, offset, bytes);
    assert(w.subrange(offset, offset + bytes.len()) =~= bytes);
}

/// The file contents after one effect. A removed file reads as empty.
pub open spec fn apply_op(file: Seq<u8>, op: FileOp) -> Seq<u8> {
    match op {
        FileOp::Create => Seq::empty(),
        FileOp::Truncate => Seq::empty(),
        FileOp::WriteAt(offset, bytes) => write_at(file, offset as int, bytes@),
        FileOp::Append(bytes) => file + bytes@,
        FileOp::Sync => file,
        FileOp::Remove => Seq::empty(),
    }
}

/// The file contents after a series of effects, in order.
pub open spec fn apply_ops(file: Seq<u8>, ops: Seq<FileOp>) -> Seq<u8>
    decreases ops.len(),
{
    if ops.len() == 0 {
        file
    } else {
        apply_op(apply_ops(file, ops.drop_last()), ops.last())
    }
}

/// The bytes of a file as the library last left them, and the effects that
/// take the file on disk from its last synchronised state to those bytes.
pub struct FileImage {
    image: Vec<u8>,
    pending: Vec<FileOp>,
    disk: Ghost<Seq<u8>>,
}

impl FileImage {
    #[verifier::type_invariant]
    spec fn pending_reaches_image(self) -> bool {
        &&& apply_ops(self.disk@, self.pending@) == self.image@
        &&& self.image@.len() <= u64::MAX
    }

    /// The file's contents.
    pub closed spec fn contents(self) -> Seq<u8> {
        self.image@
    }

    /// The contents of the file on disk before the pending effects.
    pub closed spec fn on_disk(self) -> Seq<u8> {
        self.disk@
    }

    /// The effects not yet handed out.
    pub closed spec fn pending(self) -> Seq<FileOp> {
        self.pending@
    }

    /// An image of a file that the first effect creates (or truncates) and the
    /// second fills with `bytes`.
    pub fn created(bytes: Vec<u8>) -> (f: Self)
        requires
            bytes@.len() <= u64::MAX,
        ensures
            f.contents() == bytes@,
            f.pending().len() == 2,
            f.pending()[0] is Create,
            f.pending()[1] matches FileOp::Append(b) && b@ == bytes@,
    {
        let ghost bv = bytes@;
        let mut image: Vec<u8> = Vec::new();
        push_slice(&mut image, bytes.as_slice());
        let mut pending: Vec<FileOp> = Vec::new();
        pending.push(FileOp::Create);
        pending.push(FileOp::Append(bytes));
        proof {
            let ops = pending@;
            assert(ops.drop_last().drop_last() =~= Seq::<FileOp>::empty());
            assert(apply_ops(Seq::empty(), ops.drop_last()) == Seq::<u8>::empty());
            assert(apply_ops(Seq::empty(), ops) =~= bv);
        }
        FileImage { image, pending, disk: Ghost(Seq::empty()) }
    }

    /// An image of a file whose bytes on disk are `bytes`, with nothing pending.
    pub fn loaded(bytes: Vec<u8>) -> (f: Self)
        requires
            bytes@.len() <= u64::MAX,
        ensures
            f.contents() == bytes@,
            f.on_disk() == bytes@,
            f.pending().len() == 0,
    {
        let ghost bv = bytes@;
        FileImage { image: bytes, pending: Vec::new(), disk: Ghost(bv) }
    }

    pub fn len(&self) -> (n: u64)
        ensures
            n == self.contents().len(),
    {
        proof {
            use_type_invariant(self);
        }
        self.image.len() as u64
    }

    /// The bytes from `offset` up to `offset + len`.
    pub fn read(&self, offset: usize, len: usize) -> (bytes: Vec<u8>)
        requires
            offset + len <= self.contents().len(),
        ensures
            bytes@ == self.contents().subrange(offset as int, offset + len),
    {
        let _n = self.image.len();
        let mut bytes: Vec<u8> = Vec::new();
        push_slice(&mut bytes, &self.image.as_slice()[offset..offset + len]);
        bytes
    }

    /// The bytes from `offset` to the end.
    pub fn read_from(&self, offset: usize) -> (bytes: Vec<u8>)
        requires
            offset <= self.contents().len(),
        ensures
            bytes@ == self.contents().subrange(offset as int, self.contents().len() as int),
    {
        let n = self.image.len();
        self.read(offset, n - offset)
    }

    /// All bytes.
    pub fn as_slice(&self) -> (s: &[u8])
        ensures
            s@ == self.contents(),
    {
        self.image.as_slice()
    }

    fn push_op(&mut self, op: FileOp, image: Vec<u8>)
        requires
            apply_op(old(self).contents(), op) == image@,
            image@.len() <= u64::MAX,
        ensures
            final(self).contents() == image@,
            final(self).on_disk() == old(self).on_disk(),
            final(self).pending() == old(self).pending().push(op),
    {
        proof {
            use_type_invariant(&*self);
        }
        let mut old = FileImage::loaded(Vec::new());
        std::mem::swap(&mut old, self);
        proof {
            use_type_invariant(&old);
        }
        let FileImage { image: _, pending, disk } = old;
        let ghost old_pending = pending@;
        let mut pending = pending;
        pending.push(op);
        proof {
            assert(pending@.drop_last() =~= old_pending);
        }
        *self = FileImage { image, pending, disk };
    }

    /// Writes `bytes` at `offset`, zero-filling a gap past the end.
    pub fn write_at(&mut self, offset: u64, bytes: Vec<u8>)
        requires
            offset + bytes@.len() <= u64::MAX,
        ensures
            final(self).contents() == write_at(old(self).contents(), offset as int, bytes@),
            final(self).on_disk() == old(self).on_disk(),
            final(self).pending() == old(self).pending().push(FileOp::WriteAt(offset, bytes)),
    {
        proof {
            use_type_invariant(&*self);
        }
        let ghost file = self.image@;
        let ghost bv = bytes@;
        let cur = self.image.len() as u64;
        let mut image: Vec<u8> = Vec::new();
        if offset <= cur {
            push_slice(&mut image, &self.image.as_slice()[0..offset as usize]);
        } else {
            push_slice(&mut image, self.image.as_slice());
            let mut k: u64 = cur;
            while k < offset
                invariant
                    cur <= k <= offset,
                    cur == file.len(),
                    image@ == file + Seq::new((k - cur) as nat, |i: int| 0u8),
                decreases offset - k,
            {
                image.push(0u8);
                k = k + 1;
                assert(image@ =~= file + Seq::new((k - cur) as nat, |i: int| 0u8));
            }
        }
        let ghost base = if offset <= file.len() {
            file
        } else {
            file + Seq::new((offset - file.len()) as nat, |i: int| 0u8)
        };
        assert(image@ =~= base.subrange(0, offset as int));
        push_slice(&mut image, bytes.as_slice());
        let end = offset + bytes.len() as u64;
        if end < cur {
            push_slice(&mut image, &self.image.as_slice()[end as usize..cur as usize]);
        }
        assert(image@ =~= write_at(file, offset as int, bv));
        self.push_op(FileOp::WriteAt(offset, bytes), image);
    }

    /// Appends `bytes`.
    pub fn append(&mut self, bytes: Vec<u8>)
        requires
            old(self).contents().len() + bytes@.len() <= u64::MAX,
        ensures
            final(self).contents() == old(self).contents() + bytes@,
            final(self).on_disk() == old(self).on_disk(),
            final(self).pending() == old(self).pending().push(FileOp::Append(bytes)),
    {
        let mut image: Vec<u8> = Vec::new();
        push_slice(&mut image, self.image.as_slice());
        push_slice(&mut image, bytes.as_slice());
        self.push_op(FileOp::Append(bytes), image);
    }

    /// Truncates to length 0.
    pub fn truncate(&mut self)
        ensures
            final(self).contents() == Seq::<u8>::empty(),
            final(self).on_disk() == old(self).on_disk(),
            final(self).pending() == old(self).pending().push(FileOp::Truncate),
    {
        self.push_op(FileOp::Truncate, Vec::new());
    }

    /// Records a flush to stable storage; the contents stay.
    pub fn sync(&mut self)
        ensures
            final(self).contents() == old(self).contents(),
            final(self).on_disk() == old(self).on_disk(),
            final(self).pending() == old(self).pending().push(FileOp::Sync),
    {
        proof {
            use_type_invariant(&*self);
        }
        let mut image: Vec<u8> = Vec::new();
        push_slice(&mut image, self.image.as_slice());
        self.push_op(FileOp::Sync, image);
    }

    /// Hands out the pending effects, which take the file on disk to the
    /// image, and from then on counts the image as the file on disk.
    pub fn take_pending(&mut self) -> (ops: Vec<FileOp>)
        ensures
            ops@ == old(self).pending(),
            apply_ops(old(self).on_disk(), ops@) == old(self).contents(),
            final(self).contents() == old(self).contents(),
            final(self).on_disk() == old(self).contents(),
            final(self).pending().len() == 0,
    {
        proof {
            use_type_invariant(&*self);
        }
        let mut old = FileImage::loaded(Vec::new());
        std::mem::swap(&mut old, self);
        proof {
            use_type_invariant(&old);
        }
        let FileImage { image, pending, disk: _ } = old;
        let ghost iv = image@;
        *self = FileImage { image, pending: Vec::new(), disk: Ghost(iv) };
        pending
    }
}

} // verus!
