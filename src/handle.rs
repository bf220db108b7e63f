//! File handles: a container bound to the compression method it is read with.

use crate::codec::{chunk_decoding, chunk_encoding, codec_inverts, decode_chunk, decodes_to_len};
use crate::compression::{
    compressed_model, concat, lemma_concat_push, lemma_split_chunks, split_chunks,
};
use crate::container::{append_bytes, chunk_view, container_bytes, Container, ContainerModel};
use crate::error::{HandleErrorKind, IOError};
use crate::status::MTLIOCompressionMethod;
use crate::transfer::{buffer_load_result, splice};
use vstd::prelude::*;

verus! {

/// Why the bytes of a source container could not be read.
#[derive(Copy, Clone, Debug, PartialEq, Eq, Hash, Structural)]
pub enum SourceReadError {
    NotFound,
    PermissionDenied,
    Other,
}

/// The bytes that the chunks of `m` decode to, one after another.
pub open spec fn decoded_content(m: ContainerModel) -> Seq<u8> {
    concat(m.chunks.map_values(|c: (u64, Seq<u8>)| option_bytes(chunk_decoding(m.method, c.1))))
}

/// A chunk of `m` declares at most the chunk size, and decodes to exactly
/// the length it declares.
pub open spec fn chunk_opens(m: ContainerModel, c: (u64, Seq<u8>)) -> bool {
    c.0 <= m.chunk_size && c.0 <= usize::MAX && decodes_to_len(m.method, c.1, c.0 as int)
}

/// Every chunk of `m` opens.
pub open spec fn chunks_open(m: ContainerModel) -> bool {
    forall|i: int| 0 <= i < m.chunks.len() ==> chunk_opens(m, #[trigger] m.chunks[i])
}

/// Whether `bytes` are a well-formed container encoded with `method`.
pub open spec fn is_container_for(bytes: Seq<u8>, method: MTLIOCompressionMethod) -> bool {
    exists|m: ContainerModel| m.wf() && container_bytes(m) == bytes && m.method == method
}

/// Whether `bytes` are a well-formed container encoded with `method` whose
/// every chunk opens.
pub open spec fn opens_as(bytes: Seq<u8>, method: MTLIOCompressionMethod) -> bool {
    exists|m: ContainerModel|
        m.wf() && container_bytes(m) == bytes && m.method == method && chunks_open(m)
}

/// The byte views of what the decoders handed back.
pub open spec fn view_decoded(decoded: Seq<Option<Vec<u8>>>) -> Seq<Option<Seq<u8>>> {
    decoded.map_values(
        |d: Option<Vec<u8>>|
            match d {
                Some(v) => Some(v@),
                None => None,
            },
    )
}

pub open spec fn option_bytes(d: Option<Seq<u8>>) -> Seq<u8> {
    match d {
        Some(v) => v,
        None => Seq::empty(),
    }
}

/// The decoded chunks, one after another.
pub open spec fn joined(decoded: Seq<Option<Seq<u8>>>) -> Seq<u8> {
    concat(decoded.map_values(|d: Option<Seq<u8>>| option_bytes(d)))
}

/// One chunk decoded to the length it declares, which is at most the chunk
/// size.
pub open spec fn accepted(c: (u64, Seq<u8>), chunk_size: u64, d: Option<Seq<u8>>) -> bool {
    c.0 <= chunk_size && (d matches Some(v) && v.len() == c.0)
}

/// Every chunk of `m` decoded acceptably.
pub open spec fn decodings_accepted(m: ContainerModel, decoded: Seq<Option<Seq<u8>>>) -> bool {
    decoded.len() == m.chunks.len() && forall|i: int|
        0 <= i < m.chunks.len() ==> accepted(#[trigger] m.chunks[i], m.chunk_size, decoded[i])
}

/// An opened source container. It is read-only and may be shared by many
/// load operations.
pub struct MTLIOFileHandle {
    method: MTLIOCompressionMethod,
    content: Vec<u8>,
    label: String,
}

impl MTLIOFileHandle {
    pub closed spec fn spec_method(&self) -> MTLIOCompressionMethod {
        self.method
    }

    /// The decoded bytes of the container.
    pub closed spec fn spec_content(&self) -> Seq<u8> {
        self.content@
    }

    pub closed spec fn spec_label(&self) -> Seq<char> {
        self.label@
    }

    /// The decoded bytes of the container.
    pub fn content(&self) -> (r: &[u8])
        ensures
            r@ == self.spec_content(),
    {
        self.content.as_slice()
    }

    pub fn method(&self) -> (r: MTLIOCompressionMethod)
        ensures
            r == self.spec_method(),
    {
        self.method
    }

    pub fn label(&self) -> (r: &str)
        ensures
            r@ == self.spec_label(),
    {
        self.label.as_str()
    }

    pub fn set_label(&mut self, label: &str)
        ensures
            final(self).spec_label() == label@,
            final(self).spec_method() == old(self).spec_method(),
            final(self).spec_content() == old(self).spec_content(),
    {
        self.label = label.to_owned();
    }

    /// Binds the outcome of reading a container to `method`.
    ///
    /// A read failure becomes the matching error. The handle opens exactly
    /// when the bytes are a container encoded with `method` whose every chunk
    /// declares at most the chunk size and decodes to the length it declares;
    /// a container without chunks opens with no content. Else it is a format
    /// error.
    pub fn open(source: Result<Vec<u8>, SourceReadError>, method: MTLIOCompressionMethod) -> (r:
        Result<MTLIOFileHandle, IOError>)
        ensures
            source == Err::<Vec<u8>, SourceReadError>(SourceReadError::NotFound) ==> r == Err::<
                MTLIOFileHandle,
                IOError,
            >(IOError::HandleError(HandleErrorKind::NotFound)),
            source == Err::<Vec<u8>, SourceReadError>(SourceReadError::PermissionDenied) ==> r
                == Err::<MTLIOFileHandle, IOError>(
                IOError::HandleError(HandleErrorKind::PermissionDenied),
            ),
            source == Err::<Vec<u8>, SourceReadError>(SourceReadError::Other) ==> r == Err::<
                MTLIOFileHandle,
                IOError,
            >(IOError::PathError),
            source matches Ok(b) ==> (r is Ok <==> opens_as(b@, method)),
            source is Ok && r is Err ==> r == Err::<MTLIOFileHandle, IOError>(
                IOError::HandleError(HandleErrorKind::Format),
            ),
            r matches Ok(h) ==> h.spec_method() == method && h.spec_label() == Seq::<char>::empty()
                && (source matches Ok(b) && forall|m: ContainerModel|
                m.wf() && #[trigger] container_bytes(m) == b@ ==> h.spec_content()
                    == decoded_content(m)),
    {
        let bytes = match source {
            Ok(b) => b,
            Err(SourceReadError::NotFound) => {
                return Err(IOError::HandleError(HandleErrorKind::NotFound));
            },
            Err(SourceReadError::PermissionDenied) => {
                return Err(IOError::HandleError(HandleErrorKind::PermissionDenied));
            },
            Err(SourceReadError::Other) => {
                return Err(IOError::PathError);
            },
        };
        let container = match Container::parse(bytes.as_slice()) {
            Some(c) => c,
            None => {
                return Err(IOError::HandleError(HandleErrorKind::Format));
            },
        };
        if container.method != method {
            return Err(IOError::HandleError(HandleErrorKind::Format));
        }
        let ghost model = container@;
        let mut decoded: Vec<Option<Vec<u8>>> = Vec::new();
        let mut i: usize = 0;
        while i < container.chunks.len()
            invariant
                model == container@,
                model.method == method,
                i <= container.chunks@.len(),
                decoded@.len() == i,
                forall|j: int|
                    0 <= j < i ==> #[trigger] view_decoded(decoded@)[j] == if chunk_opens(
                        model,
                        model.chunks[j],
                    ) {
                        chunk_decoding(method, model.chunks[j].1)
                    } else {
                        None
                    },
            decreases container.chunks@.len() - i,
        {
            let c = &container.chunks[i];
            assert(model.chunks[i as int] == chunk_view(*c));
            let d = if c.raw_len <= container.chunk_size && c.raw_len <= usize::MAX as u64 {
                decode_chunk(method, c.data.as_slice(), c.raw_len as usize)
            } else {
                None
            };
            let ghost prev = decoded@;
            decoded.push(d);
            proof {
                assert forall|j: int| 0 <= j < i + 1 implies #[trigger] view_decoded(decoded@)[j]
                    == if chunk_opens(model, model.chunks[j]) {
                    chunk_decoding(method, model.chunks[j].1)
                } else {
                    None
                } by {
                    if j < i {
                        assert(decoded@[j] == prev[j]);
                        assert(view_decoded(prev)[j] == view_decoded(decoded@)[j]);
                    }
                }
            }
            i = i + 1;
        }
        let ghost parts = view_decoded(decoded@);
        let r = MTLIOFileHandle::from_decoded(method, &container, decoded);
        proof {
            if chunks_open(model) {
                assert forall|j: int| 0 <= j < model.chunks.len() implies accepted(
                    #[trigger] model.chunks[j],
                    model.chunk_size,
                    parts[j],
                ) by {
                    assert(chunk_opens(model, model.chunks[j]));
                }
                assert(decodings_accepted(model, parts));
                let want = model.chunks.map_values(
                    |c: (u64, Seq<u8>)| option_bytes(chunk_decoding(model.method, c.1)),
                );
                let got = parts.map_values(|d: Option<Seq<u8>>| option_bytes(d));
                assert forall|j: int| 0 <= j < want.len() implies got[j] == want[j] by {
                    assert(chunk_opens(model, model.chunks[j]));
                }
                assert(got =~= want);
                assert(opens_as(bytes@, method));
            } else {
                let j = choose|j: int|
                    0 <= j < model.chunks.len() && !chunk_opens(model, #[trigger] model.chunks[j]);
                assert(!accepted(model.chunks[j], model.chunk_size, parts[j]));
                assert(!decodings_accepted(model, parts));
                assert(!opens_as(bytes@, method));
            }
        }
        r
    }

    /// Builds a handle from what each chunk of `container` decoded to.
    ///
    /// It succeeds exactly when every chunk decoded, to the length it
    /// declares, and no chunk declares more than the chunk size; the content
    /// is then the decoded chunks one after another. Else it is a format
    /// error.
    pub fn from_decoded(
        method: MTLIOCompressionMethod,
        container: &Container,
        decoded: Vec<Option<Vec<u8>>>,
    ) -> (r: Result<MTLIOFileHandle, IOError>)
        ensures
            r is Ok <==> decodings_accepted(container@, view_decoded(decoded@)),
            r matches Err(e) ==> e == IOError::HandleError(HandleErrorKind::Format),
            r matches Ok(h) ==> h.spec_method() == method && h.spec_label() == Seq::<char>::empty()
                && h.spec_content() == joined(view_decoded(decoded@)),
    {
        let ghost parts = view_decoded(decoded@);
        if decoded.len() != container.chunks.len() {
            return Err(IOError::HandleError(HandleErrorKind::Format));
        }
        let mut content: Vec<u8> = Vec::new();
        let mut i: usize = 0;
        while i < decoded.len()
            invariant
                parts == view_decoded(decoded@),
                decoded@.len() == container.chunks@.len(),
                i <= decoded@.len(),
                content@ == joined(parts.take(i as int)),
                forall|j: int| 0 <= j < i ==> accepted(#[trigger] container@.chunks[j], container.chunk_size, parts[j]),
            decreases decoded@.len() - i,
        {
            let c = &container.chunks[i];
            assert(container@.chunks[i as int] == chunk_view(*c));
            match &decoded[i] {
                Some(v) => {
                    if c.raw_len > container.chunk_size || v.len() as u64 != c.raw_len {
                        return Err(IOError::HandleError(HandleErrorKind::Format));
                    }
                    append_bytes(&mut content, v.as_slice());
                    proof {
                        let m = parts.take(i + 1).map_values(|d: Option<Seq<u8>>| option_bytes(d));
                        assert(m =~= parts.take(i as int).map_values(
                            |d: Option<Seq<u8>>| option_bytes(d),
                        ).push(v@));
                        lemma_concat_push(
                            parts.take(i as int).map_values(|d: Option<Seq<u8>>| option_bytes(d)),
                            v@,
                        );
                    }
                },
                None => {
                    return Err(IOError::HandleError(HandleErrorKind::Format));
                },
            }
            i = i + 1;
        }
        proof {
            assert(parts.take(i as int) =~= parts);
        }
        Ok(MTLIOFileHandle { method, content, label: String::new() })
    }
}


/// Round trip: with a method whose codec gives back every chunk it encodes,
/// the container that compressing `data` produces (well formed whenever a
/// flush completes) opens with that method and decodes to `data`; a load of
/// all of it into a buffer of that length leaves the buffer holding `data`.
pub proof fn lemma_round_trip(
    method: MTLIOCompressionMethod,
    chunk_size: u64,
    data: Seq<u8>,
    buffer: Seq<u8>,
)
    requires
        chunk_size > 0,
        codec_inverts(method),
        compressed_model(method, chunk_size, data).wf(),
        data.len() <= usize::MAX,
        buffer.len() == data.len(),
    ensures
        opens_as(container_bytes(compressed_model(method, chunk_size, data)), method),
        decoded_content(compressed_model(method, chunk_size, data)) == data,
        buffer_load_result(
            buffer,
            0,
            data.len() as u64,
            decoded_content(compressed_model(method, chunk_size, data)),
            0,
        ) == Some(data),
{
    let m = compressed_model(method, chunk_size, data);
    let pieces = split_chunks(data, chunk_size as nat);
    lemma_split_chunks(data, chunk_size as nat);
    assert forall|i: int| 0 <= i < m.chunks.len() implies chunk_opens(m, #[trigger] m.chunks[i]) by {
        assert(chunk_decoding(method, chunk_encoding(method, pieces[i])) == Some(pieces[i]));
        assert(pieces[i].len() <= data.len());
    }
    assert(opens_as(container_bytes(m), method));
    let decoded = m.chunks.map_values(
        |c: (u64, Seq<u8>)| option_bytes(chunk_decoding(m.method, c.1)),
    );
    assert forall|i: int| 0 <= i < pieces.len() implies #[trigger] decoded[i] == pieces[i] by {
        assert(chunk_decoding(method, chunk_encoding(method, pieces[i])) == Some(pieces[i]));
    }
    assert(decoded =~= pieces);
    assert(splice(buffer, 0, data.subrange(0, data.len() as int)) =~= data);
}

} // verus!
