//! The streaming response state machine: raw chunk iteration, text
//! chunks, and line assembly over a not-yet-consumed body.
//!
//! A streaming response starts `Open`, becomes `Consumed` when its body
//! is exhausted or taken by `read`, and becomes `Closed` on an explicit
//! `close`, which is terminal and idempotent.  Child iterators share the
//! parent's state by borrowing it, so closing the parent halts them.

use vstd::prelude::*;

use crate::codec::{decode_chunk, spec_chunk_text};
use crate::encoding::{content_type_key, spec_stream_encoding};
use crate::headers::CaseInsensitiveHeaderMap;
use crate::maps::StringMap;
use crate::text::find_char;

verus! {

/// The lifecycle of a streaming response.
#[derive(Clone, Copy, Debug, PartialEq, Eq, Structural)]
pub enum StreamState {
    Open,
    Consumed,
    Closed,
}

/// Why an operation on a stream was rejected: the stream was closed, or
/// its body was already consumed.
#[derive(Clone, Copy, Debug, PartialEq, Eq, Structural)]
pub enum StreamError {
    Closed,
    Consumed,
}

/// What one poll of a remote body produced: a chunk, or the end of the
/// body.
pub enum BodyEvent {
    Chunk(Vec<u8>),
    End,
}

/// The views of a sequence of byte chunks.
pub open spec fn chunks_view(chunks: Seq<Vec<u8>>) -> Seq<Seq<u8>> {
    chunks.map_values(|c: Vec<u8>| c@)
}

/// All the bytes of the chunks, in order.
pub open spec fn concat_bytes(chunks: Seq<Seq<u8>>) -> Seq<u8>
    decreases chunks.len(),
{
    if chunks.len() == 0 {
        Seq::<u8>::empty()
    } else {
        chunks[0] + concat_bytes(chunks.drop_first())
    }
}

/// The text of the chunks under an encoding, each decoded on its own,
/// concatenated in order.
pub open spec fn concat_text(enc: Seq<char>, chunks: Seq<Seq<u8>>) -> Seq<char>
    decreases chunks.len(),
{
    if chunks.len() == 0 {
        Seq::<char>::empty()
    } else {
        spec_chunk_text(enc, chunks[0]) + concat_text(enc, chunks.drop_first())
    }
}

/// A chunk no larger than the decoder accepts.
pub open spec fn chunk_len_ok(c: Seq<u8>) -> bool {
    c.len() < usize::MAX / 4
}

/// An in-memory body: chunks handed out in order from a cursor.
pub struct MemoryBody {
    chunks: Vec<Vec<u8>>,
    pos: usize,
}

impl MemoryBody {
    /// The chunks not yet handed out.
    pub closed spec fn remaining(self) -> Seq<Seq<u8>> {
        chunks_view(self.chunks@).skip(self.pos as int)
    }

    pub closed spec fn wf(self) -> bool {
        &&& self.pos <= self.chunks@.len()
        &&& forall|i: int| 0 <= i < self.chunks@.len() ==> chunk_len_ok(#[trigger] self.chunks@[i]@)
    }

    pub fn new(chunks: Vec<Vec<u8>>) -> (r: Self)
        requires
            forall|i: int| 0 <= i < chunks@.len() ==> chunk_len_ok(#[trigger] chunks@[i]@),
        ensures
            r.wf(),
            r.remaining() == chunks_view(chunks@),
    {
        let r = MemoryBody { chunks, pos: 0 };
        proof {
            assert(r.remaining() =~= chunks_view(r.chunks@));
        }
        r
    }

    /// The next chunk, or `None` when the body is exhausted.
    fn next(&mut self) -> (r: Option<Vec<u8>>)
        requires
            old(self).wf(),
        ensures
            final(self).wf(),
            old(self).remaining().len() == 0 ==> r is None && final(self).remaining()
                == old(self).remaining(),
            old(self).remaining().len() > 0 ==> (r matches Some(c) && c@ == old(
                self,
            ).remaining()[0] && final(self).remaining() == old(self).remaining().drop_first()),
    {
        if self.pos < self.chunks.len() {
            let c = self.chunks[self.pos].clone();
            self.pos = self.pos + 1;
            proof {
                assert(c@ == old(self).remaining()[0]);
                assert(self.remaining() =~= old(self).remaining().drop_first());
            }
            Some(c)
        } else {
            None
        }
    }
}

/// A response whose body is still on the wire (or queued in memory), to
/// be pulled chunk by chunk.  The body handle is take-once: `read`
/// drains and removes it, `close` drops it.
pub struct StreamingResponse {
    pub status_code: u16,
    pub url: String,
    pub headers: CaseInsensitiveHeaderMap,
    pub cookies: StringMap,
    /// The charset resolved from the headers alone at construction
    /// time, `utf-8` when they name none.
    pub encoding: String,
    state: StreamState,
    body: Option<MemoryBody>,
    remote: bool,
}

impl StreamingResponse {
    pub closed spec fn spec_state(self) -> StreamState {
        self.state
    }

    pub closed spec fn spec_status(self) -> u16 {
        self.status_code
    }

    pub closed spec fn spec_url(self) -> Seq<char> {
        self.url@
    }

    pub closed spec fn spec_headers_model(self) -> Seq<(Seq<char>, Seq<char>)> {
        self.headers.model()
    }

    pub closed spec fn spec_cookies_model(self) -> Seq<(Seq<char>, Seq<char>)> {
        self.cookies.model()
    }

    pub closed spec fn spec_encoding(self) -> Seq<char> {
        self.encoding@
    }

    pub closed spec fn is_remote(self) -> bool {
        self.remote
    }

    /// The chunks the local body still holds.
    pub closed spec fn spec_remaining(self) -> Seq<Seq<u8>> {
        match self.body {
            Some(b) => b.remaining(),
            None => Seq::<Seq<u8>>::empty(),
        }
    }

    pub closed spec fn wf(self) -> bool {
        &&& (self.body matches Some(b) ==> b.wf())
        &&& (self.remote ==> self.body is None)
        &&& ((!self.remote && self.state is Open) ==> self.body is Some)
        &&& (self.state is Consumed ==> self.spec_remaining().len() == 0)
    }

    /// The fields the state machine never touches.
    pub open spec fn same_meta(self, other: Self) -> bool {
        &&& self.spec_status() == other.spec_status()
        &&& self.spec_url() == other.spec_url()
        &&& self.spec_headers_model() == other.spec_headers_model()
        &&& self.spec_cookies_model() == other.spec_cookies_model()
        &&& self.spec_encoding() == other.spec_encoding()
        &&& self.is_remote() == other.is_remote()
    }

    /// A response over an in-memory body, open and unconsumed.
    pub fn new_buffered(
        status_code: u16,
        url: String,
        headers: CaseInsensitiveHeaderMap,
        cookies: StringMap,
        chunks: Vec<Vec<u8>>,
    ) -> (r: Self)
        requires
            forall|i: int| 0 <= i < chunks@.len() ==> chunk_len_ok(#[trigger] chunks@[i]@),
        ensures
            r.wf(),
            r.spec_state() is Open,
            !r.is_remote(),
            r.spec_remaining() == chunks_view(chunks@),
            r.spec_status() == status_code,
            r.spec_url() == url@,
            r.spec_headers_model() == headers.model(),
            r.spec_cookies_model() == cookies.model(),
            r.spec_encoding() == spec_stream_encoding(headers.spec_get(content_type_key())),
    {
        let encoding = crate::encoding::resolve_stream_encoding(&headers);
        StreamingResponse {
            status_code,
            url,
            headers,
            cookies,
            encoding,
            state: StreamState::Open,
            body: Some(MemoryBody::new(chunks)),
            remote: false,
        }
    }

    /// A response whose body handle lives with the embedding loop, which
    /// mirrors the body through `chunk_gate` and `accept_event`.
    pub fn new_remote(
        status_code: u16,
        url: String,
        headers: CaseInsensitiveHeaderMap,
        cookies: StringMap,
    ) -> (r: Self)
        ensures
            r.wf(),
            r.spec_state() is Open,
            r.is_remote(),
            r.spec_status() == status_code,
            r.spec_url() == url@,
            r.spec_headers_model() == headers.model(),
            r.spec_cookies_model() == cookies.model(),
            r.spec_encoding() == spec_stream_encoding(headers.spec_get(content_type_key())),
    {
        let encoding = crate::encoding::resolve_stream_encoding(&headers);
        StreamingResponse {
            status_code,
            url,
            headers,
            cookies,
            encoding,
            state: StreamState::Open,
            body: None,
            remote: true,
        }
    }

    /// The value after `close`: closed, body handle dropped, everything
    /// else as it was.
    pub closed spec fn closed_form(self) -> Self {
        StreamingResponse { state: StreamState::Closed, body: None, ..self }
    }

    /// Releases the body and closes the stream.  Idempotent: closing a
    /// closed stream changes nothing and never fails.
    pub fn close(&mut self)
        ensures
            *final(self) == old(self).closed_form(),
            final(self).spec_state() is Closed,
            final(self).wf(),
            final(self).same_meta(*old(self)),
    {
        self.state = StreamState::Closed;
        self.body = None;
    }

    /// Whether a chunk may be pulled: `Open` streams only, with the
    /// terminal state named in the rejection.
    pub fn chunk_gate(&self) -> (r: Result<(), StreamError>)
        ensures
            (r is Ok) == (self.spec_state() is Open),
            r == Err::<(), StreamError>(StreamError::Closed) <==> self.spec_state() is Closed,
            r == Err::<(), StreamError>(StreamError::Consumed) <==> self.spec_state() is Consumed,
    {
        match self.state {
            StreamState::Open => Ok(()),
            StreamState::Consumed => Err(StreamError::Consumed),
            StreamState::Closed => Err(StreamError::Closed),
        }
    }

    /// Feeds the outcome of one poll of a remote body: a chunk passes
    /// through, the end of the body consumes the stream.
    pub fn accept_event(&mut self, ev: BodyEvent) -> (r: Option<Vec<u8>>)
        requires
            old(self).spec_state() is Open,
            old(self).is_remote(),
            old(self).wf(),
        ensures
            final(self).wf(),
            final(self).same_meta(*old(self)),
            final(self).spec_remaining() == old(self).spec_remaining(),
            ev matches BodyEvent::Chunk(c) ==> r == Some(c) && final(self).spec_state() is Open,
            ev is End ==> r is None && final(self).spec_state() is Consumed,
    {
        match ev {
            BodyEvent::Chunk(c) => Some(c),
            BodyEvent::End => {
                self.state = StreamState::Consumed;
                None
            },
        }
    }

    /// Pulls the next chunk of a local body.  Valid only while `Open`;
    /// an exhausted body consumes the stream and yields `Ok(None)`,
    /// which is not an error.
    pub fn next_chunk(&mut self) -> (r: Result<Option<Vec<u8>>, StreamError>)
        requires
            !old(self).is_remote(),
            old(self).wf(),
        ensures
            final(self).wf(),
            final(self).same_meta(*old(self)),
            old(self).spec_state() is Closed ==> r == Err::<Option<Vec<u8>>, StreamError>(
                StreamError::Closed,
            ) && *final(self) == *old(self),
            old(self).spec_state() is Consumed ==> r == Err::<Option<Vec<u8>>, StreamError>(
                StreamError::Consumed,
            ) && *final(self) == *old(self),
            (old(self).spec_state() is Open && old(self).spec_remaining().len() == 0) ==> r
                == Ok::<Option<Vec<u8>>, StreamError>(None) && final(self).spec_state() is Consumed
                && final(self).spec_remaining() == old(self).spec_remaining(),
            (old(self).spec_state() is Open && old(self).spec_remaining().len() > 0) ==> (
            r matches Ok(Some(c)) && c@ == old(self).spec_remaining()[0]
                && final(self).spec_state() is Open && final(self).spec_remaining()
                == old(self).spec_remaining().drop_first()),
    {
        match self.chunk_gate() {
            Err(e) => Err(e),
            Ok(()) => {
                let body = self.body.as_mut().unwrap();
                match body.next() {
                    Some(c) => Ok(Some(c)),
                    None => {
                        self.state = StreamState::Consumed;
                        Ok(None)
                    },
                }
            },
        }
    }

    /// Takes the remaining body at once: drains every chunk, consumes
    /// the stream, and removes the handle.  Fails with the terminal
    /// state after a prior `read`, a full iteration, or a `close`.
    pub fn read(&mut self) -> (r: Result<Vec<u8>, StreamError>)
        requires
            !old(self).is_remote(),
            old(self).wf(),
        ensures
            final(self).wf(),
            final(self).same_meta(*old(self)),
            old(self).spec_state() is Closed ==> r == Err::<Vec<u8>, StreamError>(
                StreamError::Closed,
            ) && *final(self) == *old(self),
            old(self).spec_state() is Consumed ==> r == Err::<Vec<u8>, StreamError>(
                StreamError::Consumed,
            ) && *final(self) == *old(self),
            old(self).spec_state() is Open ==> (r matches Ok(bytes) && bytes@ == concat_bytes(
                old(self).spec_remaining(),
            ) && final(self).spec_state() is Consumed && final(self).spec_remaining()
                == Seq::<Seq<u8>>::empty()),
    {
        match self.chunk_gate() {
            Err(e) => {
                return Err(e);
            },
            Ok(()) => (),
        }
        let mut body = self.body.take().unwrap();
        self.state = StreamState::Consumed;
        let mut out: Vec<u8> = Vec::new();
        proof {
            assert(out@ + concat_bytes(body.remaining()) =~= concat_bytes(
                old(self).spec_remaining(),
            ));
        }
        loop
            invariant_except_break
                body.wf(),
                out@ + concat_bytes(body.remaining()) == concat_bytes(old(self).spec_remaining()),
            ensures
                out@ == concat_bytes(old(self).spec_remaining()),
            decreases body.remaining().len(),
        {
            let ghost out0 = out@;
            let ghost rem0 = body.remaining();
            match body.next() {
                Some(c) => {
                    let mut c = c;
                    out.append(&mut c);
                    proof {
                        assert(out@ =~= out0 + rem0[0]);
                        assert(out@ + concat_bytes(body.remaining()) =~= (out0 + rem0[0])
                            + concat_bytes(rem0.drop_first()));
                        assert((out0 + rem0[0]) + concat_bytes(rem0.drop_first()) =~= out0 + (
                        rem0[0] + concat_bytes(rem0.drop_first())));
                    }
                },
                None => {
                    proof {
                        assert(concat_bytes(body.remaining()) =~= Seq::<u8>::empty());
                        assert(out@ =~= out@ + concat_bytes(body.remaining()));
                    }
                    break ;
                },
            }
        }
        Ok(out)
    }

    /// The next chunk decoded as text under the stream's charset, or
    /// `Ok(None)` on exhaustion.
    pub fn next_text(&mut self) -> (r: Result<Option<String>, StreamError>)
        requires
            !old(self).is_remote(),
            old(self).wf(),
        ensures
            final(self).wf(),
            final(self).same_meta(*old(self)),
            old(self).spec_state() is Closed ==> r == Err::<Option<String>, StreamError>(
                StreamError::Closed,
            ) && *final(self) == *old(self),
            old(self).spec_state() is Consumed ==> r == Err::<Option<String>, StreamError>(
                StreamError::Consumed,
            ) && *final(self) == *old(self),
            (old(self).spec_state() is Open && old(self).spec_remaining().len() == 0) ==> r
                == Ok::<Option<String>, StreamError>(None) && final(self).spec_state() is Consumed,
            (old(self).spec_state() is Open && old(self).spec_remaining().len() > 0) ==> (
            r matches Ok(Some(t)) && t@ == spec_chunk_text(
                old(self).spec_encoding(),
                old(self).spec_remaining()[0],
            ) && final(self).spec_state() is Open && final(self).spec_remaining()
                == old(self).spec_remaining().drop_first()),
    {
        match self.next_chunk() {
            Err(e) => Err(e),
            Ok(None) => Ok(None),
            Ok(Some(c)) => {
                let text = decode_chunk(self.encoding.as_str(), c.as_slice());
                Ok(Some(text))
            },
        }
    }
}

/// Closing is idempotent: a second `close` finds the stream already in
/// the state the first left it in, and leaves it there.
pub proof fn lemma_close_idempotent(s: StreamingResponse)
    ensures
        s.closed_form().closed_form() == s.closed_form(),
{
}

/// Index of the first newline of `s`, or its length when it has none.
pub open spec fn first_nl(s: Seq<char>) -> nat
    decreases s.len(),
{
    if s.len() == 0 {
        0
    } else if s[0] == '\n' {
        0
    } else {
        1 + first_nl(s.drop_first())
    }
}

/// The first line of a text: up to and including its first newline, or
/// all of it when it has none.
pub open spec fn first_line(t: Seq<char>) -> Seq<char> {
    if first_nl(t) < t.len() {
        t.take(first_nl(t) + 1int)
    } else {
        t
    }
}

/// What is left of a text after its first line.
pub open spec fn after_first_line(t: Seq<char>) -> Seq<char> {
    if first_nl(t) < t.len() {
        t.skip(first_nl(t) + 1int)
    } else {
        Seq::<char>::empty()
    }
}

pub proof fn lemma_first_nl_facts(s: Seq<char>)
    ensures
        first_nl(s) <= s.len(),
        first_nl(s) < s.len() ==> s[first_nl(s) as int] == '\n',
        forall|j: int| 0 <= j < first_nl(s) ==> s[j] != '\n',
    decreases s.len(),
{
    if s.len() > 0 && s[0] != '\n' {
        lemma_first_nl_facts(s.drop_first());
        assert forall|j: int| 0 <= j < first_nl(s) implies s[j] != '\n' by {
            if j > 0 {
                assert(s.drop_first()[j - 1] == s[j]);
            }
        }
    }
}

/// A scan that finds the first newline at `k` (or none at all, with
/// `k` the length) has found `first_nl`.
pub proof fn lemma_first_nl_is(s: Seq<char>, k: int)
    requires
        0 <= k <= s.len(),
        forall|j: int| 0 <= j < k ==> s[j] != '\n',
        k < s.len() ==> s[k] == '\n',
    ensures
        first_nl(s) == k,
    decreases k,
{
    if k > 0 {
        assert forall|j: int| 0 <= j < k - 1 implies s.drop_first()[j] != '\n' by {
            assert(s.drop_first()[j] == s[j + 1]);
        }
        assert(k - 1 < s.drop_first().len() ==> s.drop_first()[k - 1] == s[k]);
        lemma_first_nl_is(s.drop_first(), k - 1);
    }
}

/// A newline inside a prefix is the first newline of the whole text.
pub proof fn lemma_first_nl_concat(a: Seq<char>, b: Seq<char>)
    requires
        first_nl(a) < a.len(),
    ensures
        first_nl(a + b) == first_nl(a),
{
    lemma_first_nl_facts(a);
    assert forall|j: int| 0 <= j < first_nl(a) implies (a + b)[j] != '\n' by {
        assert((a + b)[j] == a[j]);
    }
    assert((a + b)[first_nl(a) as int] == a[first_nl(a) as int]);
    lemma_first_nl_is(a + b, first_nl(a) as int);
}

/// Lines depend on the text alone: two chunkings with the same decoded
/// text ahead of the iterator yield the same first line, wherever the
/// chunks happen to split it.
pub proof fn lemma_lines_ignore_chunk_boundaries(
    buf1: Seq<char>,
    enc1: Seq<char>,
    chunks1: Seq<Seq<u8>>,
    buf2: Seq<char>,
    enc2: Seq<char>,
    chunks2: Seq<Seq<u8>>,
)
    requires
        buf1 + concat_text(enc1, chunks1) == buf2 + concat_text(enc2, chunks2),
    ensures
        first_line(buf1 + concat_text(enc1, chunks1)) == first_line(
            buf2 + concat_text(enc2, chunks2),
        ),
{
}

/// A child iterator over decoded lines.  It owns the undelivered tail
/// of decoded text and borrows its parent per call, so the parent's
/// state and body are shared, not copied: closing the parent halts the
/// iterator.
pub struct LineIterator {
    buffer: String,
}

impl LineIterator {
    /// The undelivered decoded tail.
    pub closed spec fn spec_buffer(self) -> Seq<char> {
        self.buffer@
    }

    /// The text still ahead of the iterator: its own buffer, then the
    /// text of the parent's remaining chunks.
    pub open spec fn pending(self, parent: StreamingResponse) -> Seq<char> {
        self.spec_buffer() + concat_text(parent.spec_encoding(), parent.spec_remaining())
    }

    pub fn new() -> (r: Self)
        ensures
            r.spec_buffer() == Seq::<char>::empty(),
    {
        LineIterator { buffer: String::new() }
    }

    /// Appends decoded chunk text to the buffer: the incremental feed
    /// for a body that lives with the embedding loop.  The host decodes
    /// each pulled chunk (`decode_chunk` under the stream's charset) and
    /// feeds it here, mirroring `accept_event` on the parent.
    pub fn feed(&mut self, text: &str)
        ensures
            final(self).spec_buffer() == old(self).spec_buffer() + text@,
    {
        self.buffer.append(text);
    }

    /// Takes the next complete line of the buffer, trailing newline
    /// included; `None` while the buffer holds no newline.
    pub fn pop_line(&mut self) -> (r: Option<String>)
        ensures
            r matches Some(line) ==> first_nl(old(self).spec_buffer()) < old(
                self,
            ).spec_buffer().len() && line@ == first_line(old(self).spec_buffer())
                && final(self).spec_buffer() == after_first_line(old(self).spec_buffer()),
            r is None ==> first_nl(old(self).spec_buffer()) == old(self).spec_buffer().len()
                && *final(self) == *old(self),
    {
        let n = self.buffer.unicode_len();
        match find_char(self.buffer.as_str(), '\n', 0) {
            Some(k) => {
                let line = self.buffer.as_str().substring_char(0, k + 1).to_owned();
                let rest = self.buffer.as_str().substring_char(k + 1, n).to_owned();
                let ghost buf = self.buffer@;
                self.buffer = rest;
                proof {
                    lemma_first_nl_is(buf, k as int);
                    assert(line@ =~= first_line(buf));
                    assert(self.spec_buffer() =~= after_first_line(buf));
                }
                Some(line)
            },
            None => {
                proof {
                    lemma_first_nl_is(self.buffer@, self.buffer@.len() as int);
                }
                None
            },
        }
    }

    /// Takes what is left once the body has ended: a non-empty buffer is
    /// delivered once as a final line without a trailing newline.
    pub fn take_remainder(&mut self) -> (r: Option<String>)
        ensures
            (r is Some) == (old(self).spec_buffer().len() > 0),
            r matches Some(line) ==> line@ == old(self).spec_buffer(),
            final(self).spec_buffer().len() == 0,
    {
        let n = self.buffer.unicode_len();
        if n == 0 {
            return None;
        }
        let line = self.buffer.as_str().substring_char(0, n).to_owned();
        self.buffer = String::new();
        proof {
            assert(line@ =~= old(self).spec_buffer());
        }
        Some(line)
    }

    /// The next line of the stream.  A line is delivered with its
    /// trailing newline; on body exhaustion a non-empty remainder is
    /// delivered once without one, after which the iterator yields
    /// `Ok(None)`.  A closed parent halts the iterator at once.
    pub fn next_line(&mut self, parent: &mut StreamingResponse) -> (r: Result<
        Option<String>,
        StreamError,
    >)
        requires
            !old(parent).is_remote(),
            old(parent).wf(),
        ensures
            final(parent).wf(),
            final(parent).same_meta(*old(parent)),
            old(parent).spec_state() is Closed ==> r == Err::<Option<String>, StreamError>(
                StreamError::Closed,
            ) && *final(parent) == *old(parent) && *final(self) == *old(self),
            (old(parent).spec_state() !is Closed && old(self).pending(*old(parent)).len() == 0)
                ==> r == Ok::<Option<String>, StreamError>(None) && final(parent).spec_state()
                is Consumed && final(self).spec_buffer().len() == 0,
            (old(parent).spec_state() !is Closed && old(self).pending(*old(parent)).len() > 0)
                ==> (r matches Ok(Some(line)) && line@ == first_line(
                old(self).pending(*old(parent)),
            ) && final(self).pending(*final(parent)) == after_first_line(
                old(self).pending(*old(parent)),
            ) && final(parent).spec_state() !is Closed),
    {
        if matches!(parent.chunk_gate(), Err(StreamError::Closed)) {
            return Err(StreamError::Closed);
        }
        let ghost t0 = old(self).pending(*old(parent));
        loop
            invariant_except_break
                !parent.is_remote(),
                parent.wf(),
                old(parent).spec_state() !is Closed,
                parent.spec_state() !is Closed,
                parent.same_meta(*old(parent)),
                self.pending(*parent) == t0,
                t0 == old(self).pending(*old(parent)),
            ensures
                self.pending(*parent) == t0,
            decreases parent.spec_remaining().len() + (if parent.spec_state() is Open {
                1int
            } else {
                0int
            }),
        {
            let n = self.buffer.unicode_len();
            match find_char(self.buffer.as_str(), '\n', 0) {
                Some(k) => {
                    let line = self.buffer.as_str().substring_char(0, k + 1).to_owned();
                    let rest = self.buffer.as_str().substring_char(k + 1, n).to_owned();
                    let ghost buf = self.buffer@;
                    let ghost tail = concat_text(parent.spec_encoding(), parent.spec_remaining());
                    self.buffer = rest;
                    proof {
                        lemma_first_nl_is(buf, k as int);
                        lemma_first_nl_concat(buf, tail);
                        assert(t0 =~= buf + tail);
                        assert(first_nl(t0) == k);
                        assert(t0.take(k + 1) =~= buf.subrange(0, k + 1));
                        assert(t0.skip(k + 1) =~= buf.subrange(k + 1, n as int) + tail);
                        assert(self.pending(*parent) =~= after_first_line(t0));
                    }
                    return Ok(Some(line));
                },
                None => {
                    let still_open = matches!(parent.chunk_gate(), Ok(()));
                    if !still_open {
                        proof {
                            assert(parent.spec_state() is Consumed);
                            assert(concat_text(parent.spec_encoding(), parent.spec_remaining())
                                =~= Seq::<char>::empty());
                            assert(t0 =~= self.buffer@);
                        }
                        if n == 0 {
                            return Ok(None);
                        }
                        let line = self.buffer.as_str().substring_char(0, n).to_owned();
                        self.buffer = String::new();
                        proof {
                            lemma_first_nl_is(t0, t0.len() as int);
                            assert(line@ =~= t0);
                            assert(first_line(t0) == t0);
                            assert(self.pending(*parent) =~= after_first_line(t0));
                        }
                        return Ok(Some(line));
                    }
                    let ghost rem0 = parent.spec_remaining();
                    match parent.next_chunk() {
                        Ok(Some(c)) => {
                            proof {
                                assert(chunk_len_ok(rem0[0]));
                            }
                            let text = decode_chunk(parent.encoding.as_str(), c.as_slice());
                            let ghost buf = self.buffer@;
                            self.buffer.append(text.as_str());
                            proof {
                                assert(concat_text(parent.spec_encoding(), rem0)
                                    == spec_chunk_text(parent.spec_encoding(), rem0[0])
                                    + concat_text(
                                    parent.spec_encoding(),
                                    rem0.drop_first(),
                                ));
                                assert(self.pending(*parent) =~= buf + concat_text(
                                    parent.spec_encoding(),
                                    rem0,
                                ));
                            }
                        },
                        Ok(None) => {
                        },
                        Err(_) => {
                            proof {
                                assert(false);
                            }
                            return Err(StreamError::Consumed);
                        },
                    }
                },
            }
        }
    }
}

} // verus!
