//! Compression contexts: append-only encoders of one container.

use crate::codec::{chunk_encoding, encode_chunk};
use crate::container::{container_bytes, chunk_view, Container, ContainerModel, EncodedChunk};
use crate::error::IOError;
use crate::status::{MTLIOCompressionMethod, MTLIOCompressionStatus};
use vstd::prelude::*;
use vstd::string::StringSliceAdditionalSpecFns;

verus! {

/// The chunk size used when a caller has no preference.
pub const DEFAULT_CHUNK_SIZE: u64 = 65536;

/// `data` cut into consecutive pieces of `size` bytes; the last piece may be
/// shorter, and no piece is empty.
pub open spec fn split_chunks(data: Seq<u8>, size: nat) -> Seq<Seq<u8>>
    recommends
        size > 0,
    decreases data.len(),
{
    if data.len() == 0 || size == 0 {
        Seq::empty()
    } else if data.len() <= size {
        seq![data]
    } else {
        seq![data.take(size as int)] + split_chunks(data.skip(size as int), size)
    }
}

/// The concatenation of `pieces`.
pub open spec fn concat(pieces: Seq<Seq<u8>>) -> Seq<u8>
    decreases pieces.len(),
{
    if pieces.len() == 0 {
        Seq::empty()
    } else {
        pieces[0] + concat(pieces.drop_first())
    }
}

/// The container that compressing `data` with `method` in chunks of
/// `chunk_size` bytes produces.
pub open spec fn compressed_model(
    method: MTLIOCompressionMethod,
    chunk_size: u64,
    data: Seq<u8>,
) -> ContainerModel {
    ContainerModel {
        method,
        chunk_size,
        chunks: split_chunks(data, chunk_size as nat).map_values(
            |raw: Seq<u8>| (raw.len() as u64, chunk_encoding(method, raw)),
        ),
    }
}

pub proof fn lemma_concat_push(pieces: Seq<Seq<u8>>, p: Seq<u8>)
    ensures
        concat(pieces.push(p)) == concat(pieces) + p,
    decreases pieces.len(),
{
    if pieces.len() == 0 {
        assert(pieces.push(p).drop_first() =~= Seq::<Seq<u8>>::empty());
        assert(concat(Seq::<Seq<u8>>::empty()) == Seq::<u8>::empty());
        assert(pieces.push(p)[0] == p);
        assert(concat(pieces.push(p)) =~= p);
    } else {
        assert(pieces.push(p).drop_first() =~= pieces.drop_first().push(p));
        lemma_concat_push(pieces.drop_first(), p);
        assert(concat(pieces.push(p)) =~= concat(pieces) + p);
    }
}

/// The pieces that end a cut: none for an empty remainder, else the remainder.
pub open spec fn tail_piece(rest: Seq<u8>) -> Seq<Seq<u8>> {
    if rest.len() == 0 {
        Seq::empty()
    } else {
        seq![rest]
    }
}

proof fn lemma_split_concat(pieces: Seq<Seq<u8>>, rest: Seq<u8>, size: nat)
    requires
        size > 0,
        rest.len() < size,
        forall|i: int| 0 <= i < pieces.len() ==> (#[trigger] pieces[i]).len() == size,
    ensures
        split_chunks(concat(pieces) + rest, size) == pieces + tail_piece(rest),
    decreases pieces.len(),
{
    let data = concat(pieces) + rest;
    if pieces.len() == 0 {
        assert(data =~= rest);
        assert(pieces + tail_piece(rest) =~= tail_piece(rest));
    } else {
        let tl = pieces.drop_first();
        assert forall|i: int| 0 <= i < tl.len() implies (#[trigger] tl[i]).len() == size by {
            assert(tl[i] == pieces[i + 1]);
        }
        lemma_split_concat(tl, rest, size);
        assert(data =~= pieces[0] + (concat(tl) + rest));
        if data.len() <= size {
            assert(concat(tl) + rest =~= Seq::<u8>::empty());
            assert(rest.len() == 0);
            if tl.len() > 0 {
                lemma_concat_nonempty(tl);
            }
            assert(tl.len() == 0);
            assert(pieces + tail_piece(rest) =~= seq![data]);
        } else {
            assert(data.take(size as int) =~= pieces[0]);
            assert(data.skip(size as int) =~= concat(tl) + rest);
            assert(pieces + tail_piece(rest) =~= seq![pieces[0]] + (tl + tail_piece(rest)));
        }
    }
}

proof fn lemma_concat_nonempty(pieces: Seq<Seq<u8>>)
    requires
        pieces.len() > 0,
    ensures
        concat(pieces).len() >= pieces[0].len(),
{
}

/// The pieces of a cut are non-empty, at most `size` long, fewer than
/// `data` has bytes plus one, and give `data` back when joined.
pub proof fn lemma_split_chunks(data: Seq<u8>, size: nat)
    requires
        size > 0,
    ensures
        concat(split_chunks(data, size)) == data,
        split_chunks(data, size).len() <= data.len(),
        forall|i: int|
            0 <= i < split_chunks(data, size).len() ==> 0 < (#[trigger] split_chunks(data, size)[i]).len()
                <= size,
    decreases data.len(),
{
    let s = split_chunks(data, size);
    if data.len() == 0 {
    } else if data.len() <= size {
        assert(s.drop_first() =~= Seq::<Seq<u8>>::empty());
        assert(concat(Seq::<Seq<u8>>::empty()) == Seq::<u8>::empty());
        assert(s[0] == data);
        assert(concat(s) =~= data + Seq::<u8>::empty());
    } else {
        let rest = data.skip(size as int);
        lemma_split_chunks(rest, size);
        assert(s.len() >= 1);
        assert(s.drop_first() =~= split_chunks(rest, size));
        assert(data =~= data.take(size as int) + rest);
        assert forall|i: int| 0 <= i < s.len() implies 0 < (#[trigger] s[i]).len() <= size by {
            if i > 0 {
                assert(s[i] == split_chunks(rest, size)[i - 1]);
            }
        }
    }
}

/// Whether `path` can name a file: it is not empty and holds no NUL byte.
pub open spec fn spec_path_is_valid(path: &str) -> bool {
    path.spec_bytes().len() > 0 && !path.spec_bytes().contains(0u8)
}

pub fn path_is_valid(path: &str) -> (r: bool)
    ensures
        r == spec_path_is_valid(path),
{
    let b = path.as_bytes();
    if b.len() == 0 {
        return false;
    }
    let mut i: usize = 0;
    while i < b.len()
        invariant
            i <= b@.len(),
            b@ == path.spec_bytes(),
            forall|j: int| 0 <= j < i ==> b@[j] != 0u8,
        decreases b@.len() - i,
    {
        if b[i] == 0u8 {
            assert(b@[i as int] == 0u8);
            return false;
        }
        i = i + 1;
    }
    true
}

/// A compression context bound to a destination path.
///
/// Bytes appended are cut into chunks of `chunk_size` bytes; each full chunk
/// is encoded at once and the remainder waits in `pending`. `flush` encodes
/// the remainder and yields the container.
pub struct IOCompression {
    path: String,
    method: MTLIOCompressionMethod,
    chunk_size: u64,
    pending: Vec<u8>,
    chunks: Vec<EncodedChunk>,
    failed: bool,
    raw: Ghost<Seq<Seq<u8>>>,
    appended: Ghost<Seq<u8>>,
}

impl IOCompression {
    pub closed spec fn spec_method(&self) -> MTLIOCompressionMethod {
        self.method
    }

    pub closed spec fn spec_chunk_size(&self) -> u64 {
        self.chunk_size
    }

    pub closed spec fn spec_path(&self) -> Seq<char> {
        self.path@
    }

    /// Every byte appended so far, in order.
    pub closed spec fn spec_appended(&self) -> Seq<u8> {
        self.appended@
    }

    pub closed spec fn wf(&self) -> bool {
        &&& self.chunk_size > 0
        &&& self.raw@.len() == self.chunks@.len()
        &&& self.pending@.len() < self.chunk_size
        &&& self.failed ==> self.method == MTLIOCompressionMethod::lzfse
        &&& forall|i: int|
            0 <= i < self.chunks@.len() ==> (#[trigger] self.chunks@[i]).data@.len() <= u64::MAX
        &&& self.appended@ == concat(self.raw@) + self.pending@
        &&& forall|i: int|
            0 <= i < self.raw@.len() ==> (#[trigger] self.raw@[i]).len() == self.chunk_size
        &&& forall|i: int|
            0 <= i < self.chunks@.len() ==> (#[trigger] self.chunks@[i]).raw_len == self.chunk_size
        &&& !self.failed ==> forall|i: int|
            0 <= i < self.chunks@.len() ==> (#[trigger] self.chunks@[i]).data@ == chunk_encoding(
                self.method,
                self.raw@[i],
            )
    }

    /// The chunk size used when a caller has no preference.
    pub fn default_chunk_size() -> (r: u64)
        ensures
            r == DEFAULT_CHUNK_SIZE,
    {
        DEFAULT_CHUNK_SIZE
    }

    /// Opens a context for any method. A zero chunk size is a configuration
    /// error, checked before the path.
    pub fn new(path: &str, compression_type: MTLIOCompressionMethod, chunk_size: u64) -> (r: Result<
        IOCompression,
        IOError,
    >)
        ensures
            chunk_size == 0 ==> r == Err::<
                IOCompression,
                IOError,
            >(IOError::ConfigError),
            (chunk_size > 0 && !spec_path_is_valid(path))
                ==> r == Err::<IOCompression, IOError>(IOError::PathError),
            (chunk_size > 0 && spec_path_is_valid(path))
                ==> r is Ok,
            r matches Ok(c) ==> c.wf() && c.spec_method() == compression_type
                && c.spec_chunk_size() == chunk_size && c.spec_path() == path@
                && c.spec_appended() == Seq::<u8>::empty(),
    {
        if chunk_size == 0 {
            return Err(IOError::ConfigError);
        }
        if !path_is_valid(path) {
            return Err(IOError::PathError);
        }
        let c = IOCompression {
            path: path.to_owned(),
            method: compression_type,
            chunk_size,
            pending: Vec::new(),
            chunks: Vec::new(),
            failed: false,
            raw: Ghost(Seq::empty()),
            appended: Ghost(Seq::empty()),
        };
        proof {
            assert(c.appended@ =~= concat(c.raw@) + c.pending@);
        }
        Ok(c)
    }

    /// Streams `bytes` into the context.
    pub fn append(&mut self, bytes: &[u8])
        requires
            old(self).wf(),
        ensures
            final(self).wf(),
            final(self).spec_appended() == old(self).spec_appended() + bytes@,
            final(self).spec_method() == old(self).spec_method(),
            final(self).spec_chunk_size() == old(self).spec_chunk_size(),
            final(self).spec_path() == old(self).spec_path(),
    {
        let ghost start = self.appended@;
        let ghost method = self.method;
        let ghost size = self.chunk_size;
        let ghost path = self.path@;
        let mut i: usize = 0;
        while i < bytes.len()
            invariant
                self.wf(),
                i <= bytes@.len(),
                self.appended@ == start + bytes@.subrange(0, i as int),
                self.method == method,
                self.chunk_size == size,
                self.path@ == path,
            decreases bytes@.len() - i,
        {
            self.pending.push(bytes[i]);
            self.appended = Ghost(self.appended@.push(bytes@[i as int]));
            proof {
                assert(self.appended@ =~= concat(self.raw@) + self.pending@);
                assert(start + bytes@.subrange(0, i + 1) =~= (start + bytes@.subrange(
                    0,
                    i as int,
                )).push(bytes@[i as int]));
            }
            if self.pending.len() as u64 == self.chunk_size {
                let data = match encode_chunk(self.method, self.pending.as_slice()) {
                    Some(v) => v,
                    None => {
                        self.failed = true;
                        Vec::new()
                    },
                };
                let ghost piece = self.pending@;
                let ghost prev_raw = self.raw@;
                let _len: usize = data.len();
                self.chunks.push(EncodedChunk { raw_len: self.chunk_size, data });
                self.raw = Ghost(self.raw@.push(piece));
                self.pending = Vec::new();
                proof {
                    lemma_concat_push(prev_raw, piece);
                    assert(self.raw@ == prev_raw.push(piece));
                    assert(self.appended@ =~= concat(self.raw@) + self.pending@);
                    assert forall|j: int| 0 <= j < self.raw@.len() implies (#[trigger] self.raw@[
                        j]).len() == self.chunk_size by {}
                }
            }
            i = i + 1;
        }
        assert(bytes@.subrange(0, i as int) =~= bytes@);
    }

    /// Encodes what is pending and yields the status and, on success, the
    /// bytes of the container. The context cannot be used afterwards.
    ///
    /// Only the lzfse encoder can fail, so with every other method the
    /// status is always `complete`.
    pub fn flush(self) -> (r: (MTLIOCompressionStatus, Vec<u8>))
        requires
            self.wf(),
        ensures
            r.0 == MTLIOCompressionStatus::complete ==> r.1@ == container_bytes(
                compressed_model(self.spec_method(), self.spec_chunk_size(), self.spec_appended()),
            ) && compressed_model(
                self.spec_method(),
                self.spec_chunk_size(),
                self.spec_appended(),
            ).wf(),
            r.0 == MTLIOCompressionStatus::error ==> r.1@.len() == 0,
            self.spec_method() != MTLIOCompressionMethod::lzfse ==> r.0
                == MTLIOCompressionStatus::complete,
    {
        let IOCompression { path, method, chunk_size, pending, chunks, failed, raw, appended } =
            self;
        let mut chunks = chunks;
        let mut failed = failed;
        let ghost all = raw@ + tail_piece(pending@);
        if pending.len() > 0 {
            let data = match encode_chunk(method, pending.as_slice()) {
                Some(v) => v,
                None => {
                    failed = true;
                    Vec::new()
                },
            };
            let _len: usize = data.len();
            chunks.push(EncodedChunk { raw_len: pending.len() as u64, data });
        }
        let _count: usize = chunks.len();
        if failed {
            return (MTLIOCompressionStatus::error, Vec::new());
        }
        let container = Container { method, chunk_size, chunks };
        proof {
            lemma_split_concat(raw@, pending@, chunk_size as nat);
            let model = compressed_model(method, chunk_size, appended@);
            assert(model.chunks.len() == all.len());
            assert(container@.chunks.len() == all.len());
            assert forall|i: int| 0 <= i < all.len() implies #[trigger] container@.chunks[i]
                == model.chunks[i] by {
                assert(container@.chunks[i] == chunk_view(container.chunks@[i]));
                if i < raw@.len() {
                    assert(all[i] == raw@[i]);
                } else {
                    assert(all[i] == pending@);
                }
            }
            assert(container@.chunks =~= model.chunks);
            assert(container@ == model);
            assert forall|i: int| 0 <= i < container@.chunks.len() implies #[trigger]
                container@.chunks[i].1.len() <= u64::MAX by {
                assert(container@.chunks[i] == chunk_view(container.chunks@[i]));
            }
        }
        (MTLIOCompressionStatus::complete, container.to_bytes())
    }

    /// The path that the container is meant for.
    pub fn path(&self) -> (r: &str)
        ensures
            r@ == self.spec_path(),
    {
        self.path.as_str()
    }

    pub fn method(&self) -> (r: MTLIOCompressionMethod)
        ensures
            r == self.spec_method(),
    {
        self.method
    }

    pub fn chunk_size(&self) -> (r: u64)
        ensures
            r == self.spec_chunk_size(),
    {
        self.chunk_size
    }
}

} // verus!
