//! Streams that the engine keeps itself: the contents of a file opened for
//! reading, held in a byte buffer, and the bytes written to a file opened
//! for writing, held until they are flushed. Every other stream belongs to
//! the host.

use vstd::prelude::*;

verus! {

/// `bytebuffer::ByteBuffer`: a buffer of bytes with a read cursor. Nothing
/// of its inside is known here; what the contracts below say of it, they
/// say through `unread`.
#[verifier::external_type_specification]
#[verifier::external_body]
pub struct ExByteBuffer(bytebuffer::ByteBuffer);

/// The bytes of a buffer that have not been read yet: those from its read
/// cursor to the end of its data. The engine makes its buffers with
/// `from_bytes` and reads them with `read_bytes` only, so that the cursor
/// of a buffer always stands between whole bytes.
pub uninterp spec fn unread(b: bytebuffer::ByteBuffer) -> Seq<u8>;

/// `ByteBuffer::from_bytes`: a buffer that holds a copy of `bytes`, with
/// the read cursor at their start.
#[verifier::external_body]
fn buffer_from_bytes(bytes: &Vec<u8>) -> (b: bytebuffer::ByteBuffer)
    ensures
        unread(b) == bytes@,
{
    bytebuffer::ByteBuffer::from_bytes(bytes.as_slice())
}

/// `ByteBuffer::read_bytes`, for a buffer whose cursor stands between whole
/// bytes: where at least `size` bytes are unread, it hands out a copy of the
/// first `size` of them and moves the read cursor past them. Asking for
/// more than is unread is left out: the call would fail, or, for a `size`
/// near the greatest integer, overflow.
#[verifier::external_body]
fn buffer_read_bytes(b: &mut bytebuffer::ByteBuffer, size: usize) -> (r: Option<Vec<u8>>)
    requires
        size <= unread(*old(b)).len(),
    ensures
        r matches Some(v) && v@ == unread(*old(b)).take(size as int),
        unread(*final(b)) == unread(*old(b)).skip(size as int),
{
    b.read_bytes(size).ok()
}

/// The contents of a file that was opened for reading.
pub struct FileInStream {
    buffer: bytebuffer::ByteBuffer,
    left: usize,
}

impl FileInStream {
    #[verifier::type_invariant]
    spec fn counted(self) -> bool {
        self.left == unread(self.buffer).len()
    }

    /// The bytes that have not been read yet.
    pub closed spec fn remaining(self) -> Seq<u8> {
        unread(self.buffer)
    }

    /// A stream over a copy of `bytes`.
    pub fn from_bytes(bytes: &Vec<u8>) -> (r: FileInStream)
        ensures
            r.remaining() == bytes@,
    {
        FileInStream { buffer: buffer_from_bytes(bytes), left: bytes.len() }
    }

    /// The number of bytes that have not been read yet.
    pub fn len(&self) -> (r: usize)
        ensures
            r == self.remaining().len(),
    {
        proof {
            use_type_invariant(self);
        }
        self.left
    }

    /// Reads exactly `size` bytes, and returns them with the stream as it
    /// is afterwards. Where fewer are left, nothing is read.
    pub fn read_exact(self, size: usize) -> (r: (FileInStream, Option<Vec<u8>>))
        ensures
            match r.1 {
                Some(v) => size <= self.remaining().len() && v@ == self.remaining().take(
                    size as int,
                ) && r.0.remaining() == self.remaining().skip(size as int),
                None => size > self.remaining().len() && r.0.remaining() == self.remaining(),
            },
    {
        proof {
            use_type_invariant(&self);
        }
        if size > self.left {
            return (self, None);
        }
        let FileInStream { buffer, left } = self;
        let mut buffer = buffer;
        let bytes = buffer_read_bytes(&mut buffer, size);
        (FileInStream { buffer, left: left - size }, bytes)
    }

    /// Reads every byte that is left, and returns them with the stream as
    /// it is afterwards: at its end.
    pub fn read_to_end(self) -> (r: (FileInStream, Vec<u8>))
        ensures
            r.1@ == self.remaining(),
            r.0.remaining() == Seq::<u8>::empty(),
    {
        let size = self.len();
        let (rest, bytes) = self.read_exact(size);
        proof {
            assert(self.remaining().take(size as int) =~= self.remaining());
            assert(self.remaining().skip(size as int) =~= Seq::<u8>::empty());
        }
        match bytes {
            Some(v) => (rest, v),
            None => (rest, Vec::new()),
        }
    }
}

/// The bytes written to a file that was opened for writing.
///
/// `bytes` is what the file holds, `bytes_wrote` what was written since the
/// last flush.
#[derive(Debug, PartialEq)]
pub struct FileOutStream {
    pub bytes: Vec<u8>,
    pub bytes_wrote: Vec<u8>,
    pub file_path: String,
}

/// Appends the bytes of `more` to `to`.
pub fn append_bytes(to: &mut Vec<u8>, more: &Vec<u8>)
    ensures
        final(to)@ == old(to)@ + more@,
{
    let mut i: usize = 0;
    while i < more.len()
        invariant
            0 <= i <= more.len(),
            to@ == old(to)@ + more@.take(i as int),
        decreases more.len() - i,
    {
        to.push(more[i]);
        i += 1;
        assert(to@ =~= old(to)@ + more@.take(i as int));
    }
    assert(more@.take(more.len() as int) =~= more@);
}

impl FileOutStream {
    /// A stream to the file at `file_path`, which holds `bytes`.
    pub fn new(file_path: String, bytes: Vec<u8>) -> (r: FileOutStream)
        ensures
            r.file_path == file_path,
            r.bytes == bytes,
            r.bytes_wrote@ == Seq::<u8>::empty(),
    {
        FileOutStream { bytes, file_path, bytes_wrote: Vec::new() }
    }

    /// Takes `buf` into the bytes that wait for the next flush, and returns
    /// how many bytes were taken: all of them.
    pub fn write(&mut self, buf: &Vec<u8>) -> (r: usize)
        ensures
            r == buf.len(),
            final(self).bytes_wrote@ == old(self).bytes_wrote@ + buf@,
            final(self).bytes == old(self).bytes,
            final(self).file_path == old(self).file_path,
    {
        append_bytes(&mut self.bytes_wrote, buf);
        buf.len()
    }

    /// Moves the waiting bytes to the end of the file's contents and returns
    /// the contents, which the host stores at `file_path`.
    pub fn flush(&mut self) -> (r: Vec<u8>)
        ensures
            r@ == old(self).bytes@ + old(self).bytes_wrote@,
            final(self).bytes@ == r@,
            final(self).bytes_wrote@ == Seq::<u8>::empty(),
            final(self).file_path == old(self).file_path,
    {
        append_bytes(&mut self.bytes, &self.bytes_wrote);
        self.bytes_wrote = Vec::new();
        self.bytes.clone()
    }
}

/// Where the bytes of an input stream come from.
pub enum InSource {
    /// A stream of the host, which reads it on request.
    Host,
    /// The contents of a file.
    File(FileInStream),
}

/// Where the bytes of an output stream go.
pub enum OutSink {
    /// A stream of the host, which writes to it on request.
    Host,
    /// A file, written when it is flushed.
    File(FileOutStream),
}

} // verus!
