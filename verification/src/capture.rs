//! Output that arrives in pieces and is kept up to a limit.

use crate::curl::CurlError;
use vstd::prelude::*;
use vstd::slice::slice_subrange;

verus! {

/// The greatest size, in bytes, of a response that is returned inside a tool result. Output that
/// curl writes to a file does not count.
pub const MCP_RESPONSE_LIMIT: usize = 8 * 1024 * 1024;

/// The greatest size, in bytes, of the diagnostics that are kept.
pub const MCP_STDERR_LIMIT: usize = 256 * 1024;

/// Appends bytes to a vector.
fn extend(out: &mut Vec<u8>, bytes: &[u8])
    ensures
        final(out)@ == old(out)@ + bytes@,
{
    let ghost before = out@;
    out.extend_from_slice(bytes);
    assert(out@ =~= before + bytes@);
}

// ---------------------------------------------------------------------------------------------
// A response that has to fit

/// What a response comes to with one more piece; `None` where it no longer fits.
pub open spec fn with_piece(body: Seq<u8>, chunk: Seq<u8>) -> Option<Seq<u8>> {
    if body.len() + chunk.len() <= MCP_RESPONSE_LIMIT {
        Some(body + chunk)
    } else {
        None
    }
}

/// The body of a response so far. It never grows beyond [`MCP_RESPONSE_LIMIT`].
pub struct ResponseBody {
    bytes: Vec<u8>,
}

impl View for ResponseBody {
    type V = Seq<u8>;

    closed spec fn view(&self) -> Seq<u8> {
        self.bytes@
    }
}

impl ResponseBody {
    #[verifier::type_invariant]
    spec fn fits(self) -> bool {
        self.bytes@.len() <= MCP_RESPONSE_LIMIT
    }

    /// A body of which nothing has arrived.
    pub fn new() -> (r: Self)
        ensures
            r@ == Seq::<u8>::empty(),
    {
        ResponseBody { bytes: Vec::new() }
    }

    /// Takes the next piece in, if the body still fits with it. If it does not, the body stays as
    /// it is, and the response is to be given up.
    pub fn accept(&mut self, chunk: &[u8]) -> (r: Result<(), CurlError>)
        ensures
            match with_piece(old(self)@, chunk@) {
                Some(body) => r is Ok && final(self)@ == body,
                None => {
                    &&& r matches Err(error) && error == CurlError::ResponseTooLarge
                    &&& final(self)@ == old(self)@
                },
            },
    {
        if self.bytes.len().saturating_add(chunk.len()) > MCP_RESPONSE_LIMIT {
            return Err(CurlError::ResponseTooLarge);
        }
        let mut bytes: Vec<u8> = Vec::new();
        std::mem::swap(&mut bytes, &mut self.bytes);
        extend(&mut bytes, chunk);
        self.bytes = bytes;
        Ok(())
    }

    /// The bytes that have arrived.
    pub fn into_bytes(self) -> (r: Vec<u8>)
        ensures
            r@ == self@,
            r@.len() <= MCP_RESPONSE_LIMIT,
    {
        proof {
            use_type_invariant(&self);
        }
        self.bytes
    }
}

// ---------------------------------------------------------------------------------------------
// Diagnostics that are cut off

/// The beginning of a stream that is read to its end.
pub struct BoundedCapture {
    kept: Vec<u8>,
    truncated: bool,
    limit: usize,
}

/// What is kept of a stream.
pub ghost struct Captured {
    /// The beginning of the stream.
    pub kept: Seq<u8>,
    /// Whether something was left out.
    pub truncated: bool,
}

/// What is kept of a stream when at most `limit` bytes are.
pub open spec fn captured(stream: Seq<u8>, limit: nat) -> Captured {
    if stream.len() <= limit {
        Captured { kept: stream, truncated: false }
    } else {
        Captured { kept: stream.take(limit as int), truncated: true }
    }
}

/// What is kept after one more piece.
pub open spec fn after_chunk(so_far: Captured, limit: nat, chunk: Seq<u8>) -> Captured {
    let room = if so_far.kept.len() <= limit {
        limit - so_far.kept.len()
    } else {
        0
    };
    if chunk.len() <= room {
        Captured { kept: so_far.kept + chunk, truncated: so_far.truncated }
    } else {
        Captured { kept: so_far.kept + chunk.take(room), truncated: true }
    }
}

/// What is kept after a number of pieces.
pub open spec fn after_chunks(limit: nat, chunks: Seq<Seq<u8>>) -> Captured
    decreases chunks.len(),
{
    if chunks.len() == 0 {
        Captured { kept: Seq::empty(), truncated: false }
    } else {
        after_chunk(after_chunks(limit, chunks.drop_last()), limit, chunks.last())
    }
}

impl BoundedCapture {
    /// What is kept so far.
    pub closed spec fn state(self) -> Captured {
        Captured { kept: self.kept@, truncated: self.truncated }
    }

    /// How many bytes are kept at most.
    pub closed spec fn limit(self) -> nat {
        self.limit as nat
    }

    /// A capture of which nothing has arrived.
    pub fn new(limit: usize) -> (r: Self)
        ensures
            r.limit() == limit,
            r.state() == captured(Seq::empty(), limit as nat),
    {
        let r = BoundedCapture { kept: Vec::new(), truncated: false, limit };
        assert(r.kept@ == Seq::<u8>::empty());
        r
    }

    /// Takes the next piece in, as far as there is room for it.
    pub fn absorb(&mut self, chunk: &[u8])
        ensures
            final(self).limit() == old(self).limit(),
            final(self).state() == after_chunk(old(self).state(), old(self).limit(), chunk@),
    {
        let room: usize = self.limit.saturating_sub(self.kept.len());
        if chunk.len() <= room {
            extend(&mut self.kept, chunk);
        } else {
            extend(&mut self.kept, slice_subrange(chunk, 0, room));
            self.truncated = true;
        }
    }

    /// What was kept, and whether something was left out.
    pub fn finish(self) -> (r: (Vec<u8>, bool))
        ensures
            r.0@ == self.state().kept,
            r.1 == self.state().truncated,
    {
        (self.kept, self.truncated)
    }
}

// ---------------------------------------------------------------------------------------------
// What holds of all streams

/// What a response has come to after a number of pieces; `None` from the piece on with which it
/// no longer fits.
pub open spec fn response_after(chunks: Seq<Seq<u8>>) -> Option<Seq<u8>>
    decreases chunks.len(),
{
    if chunks.len() == 0 {
        Some(Seq::empty())
    } else {
        match response_after(chunks.drop_last()) {
            Some(body) => with_piece(body, chunks.last()),
            None => None,
        }
    }
}

/// A response is taken whole if it fits and refused if it does not, whatever the pieces in which
/// it arrives.
pub proof fn response_is_taken_whole_or_refused(chunks: Seq<Seq<u8>>)
    ensures
        response_after(chunks) == (if chunks.flatten().len() <= MCP_RESPONSE_LIMIT {
            Some(chunks.flatten())
        } else {
            None
        }),
    decreases chunks.len(),
{
    if chunks.len() == 0 {
        assert(chunks.flatten() =~= Seq::<u8>::empty());
    } else {
        let before = chunks.drop_last();
        response_is_taken_whole_or_refused(before);
        before.lemma_flatten_push(chunks.last());
        assert(before.push(chunks.last()) =~= chunks);
    }
}

/// Each piece adds to what is kept as if the stream had come in one.
pub proof fn every_piece_counts(stream: Seq<u8>, limit: nat, chunk: Seq<u8>)
    ensures
        after_chunk(captured(stream, limit), limit, chunk) == captured(stream + chunk, limit),
{
    let all = stream + chunk;
    let one = after_chunk(captured(stream, limit), limit, chunk);
    let other = captured(all, limit);
    if all.len() <= limit {
    } else if stream.len() <= limit {
        assert(stream + chunk.take(limit - stream.len()) =~= all.take(limit as int));
    } else if chunk.len() == 0 {
        assert(stream.take(limit as int) + chunk =~= all.take(limit as int));
    } else {
        assert(stream.take(limit as int) + chunk.take(0) =~= all.take(limit as int));
    }
    assert(one.kept =~= other.kept);
}

/// What is kept of a stream does not depend on the pieces in which it arrives: it is the beginning
/// of the stream up to the limit, and something was left out exactly if the stream is longer.
pub proof fn pieces_do_not_matter(limit: nat, chunks: Seq<Seq<u8>>)
    ensures
        after_chunks(limit, chunks) == captured(chunks.flatten(), limit),
    decreases chunks.len(),
{
    if chunks.len() == 0 {
        assert(chunks.flatten() =~= Seq::<u8>::empty());
    } else {
        let before = chunks.drop_last();
        pieces_do_not_matter(limit, before);
        every_piece_counts(before.flatten(), limit, chunks.last());
        before.lemma_flatten_push(chunks.last());
        assert(before.push(chunks.last()) =~= chunks);
    }
}

/// What is kept never exceeds the limit, and it is all of the stream that fits.
pub proof fn capture_is_bounded(stream: Seq<u8>, limit: nat)
    ensures
        captured(stream, limit).kept.len() <= limit,
        captured(stream, limit).kept.is_prefix_of(stream),
        captured(stream, limit).truncated <==> stream.len() > limit,
        !captured(stream, limit).truncated ==> captured(stream, limit).kept == stream,
{
}

/// A response may take 8 MiB and not a byte more, and 256 KiB of diagnostics are kept.
pub proof fn limits_are_fixed(body: Seq<u8>, chunk: Seq<u8>)
    ensures
        with_piece(body, chunk) == (if body.len() + chunk.len() <= 8388608 {
            Some(body + chunk)
        } else {
            None
        }),
        MCP_STDERR_LIMIT == 262144,
{
}

/// As much of a stream is kept as there is room for.
pub proof fn all_room_is_used(stream: Seq<u8>, limit: nat)
    ensures
        stream.len() >= limit ==> captured(stream, limit).kept.len() == limit,
        stream.len() < limit ==> captured(stream, limit).kept.len() == stream.len(),
{
}

} // verus!
