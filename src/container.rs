//! The on-disk container: a header followed by length-prefixed encoded chunks.
//!
//! Layout, all integers little-endian `u64`:
//! four magic bytes, one byte of method code, the chunk size, the number of
//! chunks; then, for each chunk, its decoded length, its encoded length and
//! the encoded bytes.

use crate::status::MTLIOCompressionMethod;
use vstd::bytes::{
    lemma_auto_spec_u64_to_from_le_bytes, spec_u64_from_le_bytes, spec_u64_to_le_bytes,
    u64_from_le_bytes, u64_to_le_bytes,
};
use vstd::prelude::*;
use vstd::slice::{slice_subrange, slice_to_vec};

verus! {

pub const HEADER_LEN: usize = 21;

/// One chunk as stored: the length it decodes to and its encoded bytes.
pub struct EncodedChunk {
    pub raw_len: u64,
    pub data: Vec<u8>,
}

/// A parsed container.
pub struct Container {
    pub method: MTLIOCompressionMethod,
    pub chunk_size: u64,
    pub chunks: Vec<EncodedChunk>,
}

/// The mathematical content of a container.
pub struct ContainerModel {
    pub method: MTLIOCompressionMethod,
    pub chunk_size: u64,
    pub chunks: Seq<(u64, Seq<u8>)>,
}

impl ContainerModel {
    /// Every count and length fits the `u64` fields of the layout.
    pub open spec fn wf(self) -> bool {
        &&& self.chunks.len() <= u64::MAX
        &&& forall|i: int| 0 <= i < self.chunks.len() ==> #[trigger] self.chunks[i].1.len() <= u64::MAX
    }
}

pub open spec fn chunk_view(c: EncodedChunk) -> (u64, Seq<u8>) {
    (c.raw_len, c.data@)
}

impl View for Container {
    type V = ContainerModel;

    open spec fn view(&self) -> ContainerModel {
        ContainerModel {
            method: self.method,
            chunk_size: self.chunk_size,
            chunks: self.chunks@.map_values(|c: EncodedChunk| chunk_view(c)),
        }
    }
}

pub open spec fn magic() -> Seq<u8> {
    seq![0x4du8, 0x49u8, 0x4fu8, 0x43u8]
}

pub open spec fn header_bytes(method: MTLIOCompressionMethod, chunk_size: u64, count: u64) -> Seq<
    u8,
> {
    magic() + seq![method.spec_raw() as u8] + spec_u64_to_le_bytes(chunk_size)
        + spec_u64_to_le_bytes(count)
}

pub open spec fn chunk_bytes(c: (u64, Seq<u8>)) -> Seq<u8> {
    spec_u64_to_le_bytes(c.0) + spec_u64_to_le_bytes(c.1.len() as u64) + c.1
}

pub open spec fn chunks_bytes(cs: Seq<(u64, Seq<u8>)>) -> Seq<u8>
    decreases cs.len(),
{
    if cs.len() == 0 {
        Seq::empty()
    } else {
        chunks_bytes(cs.drop_last()) + chunk_bytes(cs.last())
    }
}

/// The bytes of a container.
pub open spec fn container_bytes(m: ContainerModel) -> Seq<u8> {
    header_bytes(m.method, m.chunk_size, m.chunks.len() as u64) + chunks_bytes(m.chunks)
}

proof fn lemma_chunks_bytes_prefix(cs: Seq<(u64, Seq<u8>)>, j: int)
    requires
        0 <= j <= cs.len(),
    ensures
        chunks_bytes(cs.take(j)).len() <= chunks_bytes(cs).len(),
        chunks_bytes(cs).subrange(0, chunks_bytes(cs.take(j)).len() as int) == chunks_bytes(
            cs.take(j),
        ),
    decreases cs.len(),
{
    if j == cs.len() {
        assert(cs.take(j) =~= cs);
    } else {
        let d = cs.drop_last();
        lemma_chunks_bytes_prefix(d, j);
        assert(d.take(j) =~= cs.take(j));
        let p = chunks_bytes(d);
        assert(chunks_bytes(cs) == p + chunk_bytes(cs.last()));
        assert((p + chunk_bytes(cs.last())).subrange(0, chunks_bytes(cs.take(j)).len() as int)
            =~= p.subrange(0, chunks_bytes(cs.take(j)).len() as int));
    }
}

proof fn lemma_chunks_bytes_step(cs: Seq<(u64, Seq<u8>)>, i: int)
    requires
        0 <= i < cs.len(),
    ensures
        chunks_bytes(cs.take(i + 1)) == chunks_bytes(cs.take(i)) + chunk_bytes(cs[i]),
{
    assert(cs.take(i + 1).drop_last() =~= cs.take(i));
}

/// Appends `src` to `dst`.
pub fn append_bytes(dst: &mut Vec<u8>, src: &[u8])
    ensures
        final(dst)@ == old(dst)@ + src@,
{
    let mut i: usize = 0;
    while i < src.len()
        invariant
            i <= src@.len(),
            dst@ == old(dst)@ + src@.subrange(0, i as int),
        decreases src@.len() - i,
    {
        dst.push(src[i]);
        i = i + 1;
        proof {
            assert(src@.subrange(0, i as int) =~= src@.subrange(0, i - 1) + seq![src@[i - 1]]);
        }
    }
    assert(src@.subrange(0, i as int) =~= src@);
}

impl Container {
    /// Serialises the container. Every container in memory is well formed.
    pub fn to_bytes(&self) -> (r: Vec<u8>)
        ensures
            self@.wf(),
            r@ == container_bytes(self@),
    {
        let mut out: Vec<u8> = Vec::new();
        out.push(0x4du8);
        out.push(0x49u8);
        out.push(0x4fu8);
        out.push(0x43u8);
        out.push(self.method.raw() as u8);
        let cs = u64_to_le_bytes(self.chunk_size);
        append_bytes(&mut out, cs.as_slice());
        let n = u64_to_le_bytes(self.chunks.len() as u64);
        append_bytes(&mut out, n.as_slice());
        assert(out@ =~= header_bytes(self.method, self.chunk_size, self.chunks.len() as u64));
        let ghost model = self@.chunks;
        let mut i: usize = 0;
        while i < self.chunks.len()
            invariant
                model == self@.chunks,
                model.len() <= u64::MAX,
                forall|j: int| 0 <= j < i ==> #[trigger] model[j].1.len() <= u64::MAX,
                i <= self.chunks.len(),
                out@ == header_bytes(self.method, self.chunk_size, self.chunks.len() as u64)
                    + chunks_bytes(model.take(i as int)),
            decreases self.chunks.len() - i,
        {
            let c = &self.chunks[i];
            assert(model[i as int] == chunk_view(*c));
            let _n: usize = c.data.len();
            let a = u64_to_le_bytes(c.raw_len);
            append_bytes(&mut out, a.as_slice());
            let b = u64_to_le_bytes(c.data.len() as u64);
            append_bytes(&mut out, b.as_slice());
            append_bytes(&mut out, c.data.as_slice());
            proof {
                lemma_chunks_bytes_step(model, i as int);
                assert(out@ =~= header_bytes(self.method, self.chunk_size, self.chunks.len() as u64)
                    + chunks_bytes(model.take(i + 1)));
            }
            i = i + 1;
        }
        assert(model.take(i as int) =~= model);
        out
    }

    /// Parses a container. The result is `Some` exactly when `bytes` are the
    /// serialisation of a well-formed container, and then it is that one.
    pub fn parse(bytes: &[u8]) -> (r: Option<Container>)
        ensures
            r matches Some(c) ==> c@.wf() && container_bytes(c@) == bytes@,
            forall|m: ContainerModel|
                m.wf() && #[trigger] container_bytes(m) == bytes@ ==> (r matches Some(c) && c@
                    == m),
    {
        proof {
            lemma_auto_spec_u64_to_from_le_bytes();
        }
        if bytes.len() < HEADER_LEN {
            return None;
        }
        if bytes[0] != 0x4du8 || bytes[1] != 0x49u8 || bytes[2] != 0x4fu8 || bytes[3] != 0x43u8 {
            proof {
                assert forall|m: ContainerModel|
                    m.wf() && #[trigger] container_bytes(m) == bytes@ implies false by {
                    assert(container_bytes(m)[0] == 0x4du8);
                    assert(container_bytes(m)[1] == 0x49u8);
                    assert(container_bytes(m)[2] == 0x4fu8);
                    assert(container_bytes(m)[3] == 0x43u8);
                }
            }
            return None;
        }
        let method = match MTLIOCompressionMethod::from_raw(bytes[4] as u64) {
            Some(m) => m,
            None => {
                proof {
                    assert forall|m: ContainerModel|
                        m.wf() && #[trigger] container_bytes(m) == bytes@ implies false by {
                        assert(container_bytes(m)[4] == m.method.spec_raw() as u8);
                    }
                }
                return None;
            },
        };
        let chunk_size = u64_from_le_bytes(slice_subrange(bytes, 5, 13));
        let count = u64_from_le_bytes(slice_subrange(bytes, 13, 21));
        proof {
            assert forall|m: ContainerModel|
                m.wf() && #[trigger] container_bytes(m) == bytes@ implies m.method == method
                && m.chunk_size == chunk_size && m.chunks.len() == count && bytes@.subrange(0, 21)
                == header_bytes(m.method, m.chunk_size, m.chunks.len() as u64) by {
                let h = header_bytes(m.method, m.chunk_size, m.chunks.len() as u64);
                assert(container_bytes(m).subrange(0, 21) =~= h);
                assert(h.subrange(5, 13) =~= spec_u64_to_le_bytes(m.chunk_size));
                assert(h.subrange(13, 21) =~= spec_u64_to_le_bytes(m.chunks.len() as u64));
                assert(bytes@.subrange(5, 13) == h.subrange(5, 13));
                assert(bytes@.subrange(13, 21) == h.subrange(13, 21));
                assert(h[4] == m.method.spec_raw() as u8);
            }
        }
        let ghost header = header_bytes(method, chunk_size, count);
        proof {
            assert(bytes@.subrange(5, 13).len() == 8);
            assert(bytes@.subrange(13, 21).len() == 8);
            assert(spec_u64_to_le_bytes(spec_u64_from_le_bytes(bytes@.subrange(5, 13)))
                == bytes@.subrange(5, 13));
            assert(spec_u64_to_le_bytes(spec_u64_from_le_bytes(bytes@.subrange(13, 21)))
                == bytes@.subrange(13, 21));
            assert(bytes@.subrange(0, 21) =~= header);
            assert(header.len() == 21);
        }
        let mut chunks: Vec<EncodedChunk> = Vec::new();
        let mut pos: usize = HEADER_LEN;
        let mut i: u64 = 0;
        while i < count
            invariant
                i <= count,
                chunks@.len() == i,
                HEADER_LEN <= pos <= bytes@.len(),
                header == header_bytes(method, chunk_size, count),
                header.len() == 21,
                forall|j: int| 0 <= j < chunks@.len() ==> (#[trigger] chunks@[j]).data@.len() <= u64::MAX,
                bytes@.subrange(0, pos as int) == header + chunks_bytes(
                    chunks@.map_values(|c: EncodedChunk| chunk_view(c)),
                ),
                forall|m: ContainerModel|
                    m.wf() && #[trigger] container_bytes(m) == bytes@ ==> m.method == method
                        && m.chunk_size == chunk_size && m.chunks.len() == count
                        && chunks@.map_values(|c: EncodedChunk| chunk_view(c)) == m.chunks.take(
                        i as int,
                    ),
            decreases count - i,
        {
            let ghost done = chunks@.map_values(|c: EncodedChunk| chunk_view(c));
            proof {
                lemma_auto_spec_u64_to_from_le_bytes();
                assert forall|m: ContainerModel|
                    m.wf() && #[trigger] container_bytes(m) == bytes@ implies pos + 16 + m.chunks[
                    i as int].1.len() <= bytes@.len() && bytes@.subrange(
                    pos as int,
                    pos + 16 + m.chunks[i as int].1.len(),
                ) == chunk_bytes(m.chunks[i as int]) by {
                    lemma_chunks_bytes_prefix(m.chunks, i + 1);
                    lemma_chunks_bytes_step(m.chunks, i as int);
                    let all = chunks_bytes(m.chunks);
                    let pre = chunks_bytes(m.chunks.take(i as int));
                    let cb = chunk_bytes(m.chunks[i as int]);
                    assert(container_bytes(m) == header + all);
                    assert(pre == chunks_bytes(done));
                    assert(pos == 21 + pre.len()) by {
                        assert(bytes@.subrange(0, pos as int).len() == pos);
                    }
                    assert(chunks_bytes(m.chunks.take(i + 1)) == pre + cb);
                    assert(all.len() >= pre.len() + cb.len());
                    assert(bytes@.len() == 21 + all.len());
                    assert(bytes@ == header + all);
                    assert(all.subrange(0, (pre.len() + cb.len()) as int) == pre + cb);
                    assert(bytes@.subrange(pos as int, pos + cb.len()) =~= (pre + cb).subrange(
                        pre.len() as int,
                        (pre.len() + cb.len()) as int,
                    ));
                }
            }
            if bytes.len() - pos < 16 {
                proof {
                    assert forall|m: ContainerModel|
                        m.wf() && #[trigger] container_bytes(m) == bytes@ implies false by {
                        assert(m.chunks[i as int].1.len() >= 0);
                    }
                }
                return None;
            }
            let raw_len = u64_from_le_bytes(slice_subrange(bytes, pos, pos + 8));
            let enc_len = u64_from_le_bytes(slice_subrange(bytes, pos + 8, pos + 16));
            if enc_len > (bytes.len() - pos - 16) as u64 {
                proof {
                    assert forall|m: ContainerModel|
                        m.wf() && #[trigger] container_bytes(m) == bytes@ implies false by {
                        let cb = chunk_bytes(m.chunks[i as int]);
                        assert(bytes@.subrange(pos + 8, pos + 16) =~= cb.subrange(8, 16));
                        assert(cb.subrange(8, 16) =~= spec_u64_to_le_bytes(
                            m.chunks[i as int].1.len() as u64,
                        ));
                    }
                }
                return None;
            }
            let e = enc_len as usize;
            let data = slice_to_vec(slice_subrange(bytes, pos + 16, pos + 16 + e));
            let ghost old_pos = pos;
            proof {
                assert(bytes@.subrange(pos as int, pos + 8).len() == 8);
                assert(bytes@.subrange(pos + 8, pos + 16).len() == 8);
                assert(spec_u64_to_le_bytes(raw_len) == bytes@.subrange(pos as int, pos + 8));
                assert(spec_u64_to_le_bytes(enc_len) == bytes@.subrange(pos + 8, pos + 16));
                assert(bytes@.subrange(pos as int, pos + 16 + e) =~= chunk_bytes((raw_len, data@)));
                assert forall|m: ContainerModel|
                    m.wf() && #[trigger] container_bytes(m) == bytes@ implies m.chunks[i as int] == (
                    raw_len,
                    data@,
                ) by {
                    let c = m.chunks[i as int];
                    let cb = chunk_bytes(c);
                    assert(bytes@.subrange(pos as int, pos + 8) =~= cb.subrange(0, 8));
                    assert(bytes@.subrange(pos + 8, pos + 16) =~= cb.subrange(8, 16));
                    assert(cb.subrange(0, 8) =~= spec_u64_to_le_bytes(c.0));
                    assert(cb.subrange(8, 16) =~= spec_u64_to_le_bytes(c.1.len() as u64));
                    assert(c.1.len() == enc_len);
                    assert(data@ =~= cb.subrange(16, 16 + e as int));
                    assert(cb.subrange(16, 16 + e as int) =~= c.1);
                }
            }
            chunks.push(EncodedChunk { raw_len, data });
            pos = pos + 16 + e;
            i = i + 1;
            proof {
                let now = chunks@.map_values(|c: EncodedChunk| chunk_view(c));
                assert(now =~= done.push((raw_len, data@)));
                assert(now.drop_last() =~= done);
                assert(bytes@.subrange(0, pos as int) =~= bytes@.subrange(0, old_pos as int)
                    + bytes@.subrange(old_pos as int, pos as int));
                assert(bytes@.subrange(0, pos as int) =~= header + chunks_bytes(now));
                assert forall|m: ContainerModel|
                    m.wf() && #[trigger] container_bytes(m) == bytes@ implies now == m.chunks.take(
                    i as int,
                ) by {
                    assert(m.chunks.take(i as int) =~= m.chunks.take(i - 1).push(m.chunks[i - 1]));
                }
            }
        }
        let ghost done = chunks@.map_values(|c: EncodedChunk| chunk_view(c));
        if pos != bytes.len() {
            proof {
                assert forall|m: ContainerModel|
                    m.wf() && #[trigger] container_bytes(m) == bytes@ implies false by {
                    assert(m.chunks.take(i as int) =~= m.chunks);
                    assert(bytes@.subrange(0, pos as int).len() == pos);
                }
            }
            return None;
        }
        let c = Container { method, chunk_size, chunks };
        proof {
            assert(bytes@.subrange(0, pos as int) =~= bytes@);
            assert(c@.chunks == done);
            assert forall|j: int| 0 <= j < c@.chunks.len() implies #[trigger] c@.chunks[j].1.len()
                <= u64::MAX by {
                assert(c@.chunks[j] == chunk_view(chunks@[j]));
            }
            assert forall|m: ContainerModel|
                m.wf() && #[trigger] container_bytes(m) == bytes@ implies c@ == m by {
                assert(m.chunks.take(i as int) =~= m.chunks);
            }
        }
        Some(c)
    }
}

} // verus!
