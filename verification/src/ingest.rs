//! Input framing: fixed-size binary chunking and text line framing.
//!
//! The ingester activity itself blocks on reads and therefore lives with
//! the caller; the functions here are the framing rules it applies to the
//! bytes it has read.

use vstd::prelude::*;
use vstd::arithmetic::div_mod::{
    lemma_fundamental_div_mod_converse, lemma_mod_multiples_basic, lemma_mod_pos_bound,
    lemma_mod_sub_multiples_vanish, lemma_small_mod,
};
use crate::frame::{echo_line, spec_echo_line, FrameData, FrameKind, FrameOrigin};

verus! {

/// The payload bytes of each frame of a batch, in order.
pub open spec fn payloads_of(frames: Seq<FrameData>) -> Seq<Seq<u8>> {
    frames.map_values(|f: FrameData| f.payload@)
}

/// The contents of each buffer of a batch, in order.
pub open spec fn views_of(lines: Seq<Vec<u8>>) -> Seq<Seq<u8>> {
    lines.map_values(|l: Vec<u8>| l@)
}

/// The fixed-size chunking of a byte stream: chunks of `c` bytes in
/// stream order, only the last chunk possibly shorter.
pub open spec fn spec_chunks(bytes: Seq<u8>, c: int) -> Seq<Seq<u8>>
    recommends
        c >= 1,
    decreases bytes.len(),
    when c >= 1
{
    if bytes.len() == 0 {
        Seq::empty()
    } else if bytes.len() <= c {
        seq![bytes]
    } else {
        seq![bytes.take(c)] + spec_chunks(bytes.skip(c), c)
    }
}

/// The concatenation of a batch of payloads, in order.
pub open spec fn concat_all(chunks: Seq<Seq<u8>>) -> Seq<u8>
    decreases chunks.len(),
{
    if chunks.len() == 0 {
        Seq::empty()
    } else {
        chunks[0] + concat_all(chunks.skip(1))
    }
}

proof fn lemma_chunking_rec(bytes: Seq<u8>, c: int)
    requires
        c >= 1,
    ensures
        bytes.len() == 0 ==> spec_chunks(bytes, c).len() == 0,
        bytes.len() > 0 ==> {
            let chunks = spec_chunks(bytes, c);
            &&& chunks.len() >= 1
            &&& 1 <= chunks.last().len() <= c
            &&& bytes.len() == (chunks.len() - 1) * c + chunks.last().len()
        },
        forall|i: int|
            0 <= i < spec_chunks(bytes, c).len() - 1 ==> #[trigger] spec_chunks(
                bytes,
                c,
            )[i].len() == c,
        concat_all(spec_chunks(bytes, c)) == bytes,
    decreases bytes.len(),
{
    let chunks = spec_chunks(bytes, c);
    if bytes.len() == 0 {
    } else if bytes.len() <= c {
        assert(chunks =~= seq![bytes]);
        assert(chunks.skip(1) =~= Seq::<Seq<u8>>::empty());
        reveal_with_fuel(concat_all, 2);
        assert(concat_all(chunks) == bytes + Seq::<u8>::empty());
        assert(bytes + Seq::<u8>::empty() =~= bytes);
        assert(bytes.len() == 0 * c + bytes.len());
    } else {
        let rest = bytes.skip(c);
        lemma_chunking_rec(rest, c);
        let sub = spec_chunks(rest, c);
        assert(chunks == seq![bytes.take(c)] + sub);
        assert(chunks.len() == 1 + sub.len());
        assert(chunks.last() == sub.last());
        assert(rest.len() == bytes.len() - c);
        assert((chunks.len() - 1) * c == (sub.len() - 1) * c + c) by (nonlinear_arith)
            requires
                chunks.len() == 1 + sub.len(),
        ;
        assert(bytes.len() == (chunks.len() - 1) * c + chunks.last().len());
        assert forall|i: int| 0 <= i < chunks.len() - 1 implies #[trigger] chunks[i].len()
            == c by {
            if i == 0 {
                assert(chunks[0] == bytes.take(c));
            } else {
                assert(chunks[i] == sub[i - 1]);
            }
        }
        assert(chunks[0] == bytes.take(c));
        assert(chunks.skip(1) =~= sub);
        assert(concat_all(chunks) == bytes.take(c) + concat_all(sub));
        assert(bytes.take(c) + rest =~= bytes);
    }
}

/// Binary chunking law: a stream of `l` bytes cut at chunk size `c`
/// yields exactly `ceil(l / c)` chunks; every chunk but the last holds
/// exactly `c` bytes; the last holds `l % c` bytes (or `c` when `c`
/// divides `l`); and concatenating the chunks in order reconstructs the
/// original stream exactly.
pub proof fn lemma_chunking(bytes: Seq<u8>, c: int)
    requires
        c >= 1,
    ensures
        spec_chunks(bytes, c).len() == (bytes.len() + c - 1) / c,
        forall|i: int|
            0 <= i < spec_chunks(bytes, c).len() - 1 ==> #[trigger] spec_chunks(
                bytes,
                c,
            )[i].len() == c,
        bytes.len() > 0 ==> spec_chunks(bytes, c).last().len() == (if bytes.len() as int % c
            == 0 {
            c
        } else {
            bytes.len() as int % c
        }),
        concat_all(spec_chunks(bytes, c)) == bytes,
{
    lemma_chunking_rec(bytes, c);
    let chunks = spec_chunks(bytes, c);
    let l = bytes.len() as int;
    if l == 0 {
        lemma_fundamental_div_mod_converse(c - 1, c, 0, c - 1);
    } else {
        let k = chunks.len() as int;
        let last = chunks.last().len() as int;
        // l == (k - 1) * c + last with 1 <= last <= c, so ceil(l / c) == k
        assert(l + c - 1 == k * c + (last - 1)) by (nonlinear_arith)
            requires
                l == (k - 1) * c + last,
        ;
        lemma_fundamental_div_mod_converse(l + c - 1, c, k, last - 1);
        if last == c {
            assert(l == (k - 1) * c + c);
            assert(l == k * c) by (nonlinear_arith)
                requires
                    l == (k - 1) * c + c,
            ;
            lemma_mod_multiples_basic(k, c);
        } else {
            lemma_fundamental_div_mod_converse(l, c, k - 1, last);
        }
    }
}

proof fn lemma_chunks_snoc(e: Seq<u8>, chunk: Seq<u8>, c: int)
    requires
        c >= 1,
        e.len() as int % c == 0,
        1 <= chunk.len() <= c,
    ensures
        spec_chunks(e + chunk, c) == spec_chunks(e, c).push(chunk),
    decreases e.len(),
{
    if e.len() == 0 {
        assert(e + chunk =~= chunk);
        assert(spec_chunks(chunk, c) == seq![chunk]);
        assert(spec_chunks(e, c).push(chunk) =~= seq![chunk]);
    } else {
        if e.len() < c {
            lemma_small_mod(e.len(), c as nat);
            assert(false);
        }
        let rest = e.skip(c);
        lemma_mod_sub_multiples_vanish(e.len() as int, c);
        assert(rest.len() as int % c == 0);
        lemma_chunks_snoc(rest, chunk, c);
        assert((e + chunk).len() > c);
        assert((e + chunk).take(c) =~= e.take(c));
        assert((e + chunk).skip(c) =~= rest + chunk);
        if e.len() == c {
            assert(spec_chunks(e, c) == seq![e]);
            assert(e.take(c) =~= e);
            assert(spec_chunks(e + chunk, c) == seq![e.take(c)] + spec_chunks(rest, c).push(chunk));
            assert(seq![e.take(c)] + spec_chunks(rest, c).push(chunk) =~= seq![e].push(chunk));
        } else {
            assert(spec_chunks(e, c) == seq![e.take(c)] + spec_chunks(rest, c));
            assert(seq![e.take(c)] + spec_chunks(rest, c).push(chunk) =~= (seq![e.take(c)]
                + spec_chunks(rest, c)).push(chunk));
        }
    }
}

/// How a whole stream's chunking splits at the last full-chunk boundary:
/// the full chunks first, then the short remainder as one final chunk —
/// the shape a `Chunker` emits when the stream ends.
pub proof fn lemma_chunker_emits_chunks(total: Seq<u8>, c: int)
    requires
        c >= 1,
    ensures
        ({
            let l = total.len() as int;
            let emitted = l - l % c;
            let head = spec_chunks(total.take(emitted), c);
            let rest = total.skip(emitted);
            spec_chunks(total, c) == if rest.len() == 0 {
                head
            } else {
                head.push(rest)
            }
        }),
{
    let l = total.len() as int;
    lemma_mod_pos_bound(l, c);
    let r = l % c;
    let emitted = l - r;
    if r == 0 {
        assert(total.take(emitted) =~= total);
    } else {
        vstd::arithmetic::div_mod::lemma_fundamental_div_mod(l, c);
        let q = l / c;
        assert(emitted == c * q);
        assert(emitted == q * c) by (nonlinear_arith)
            requires
                emitted == c * q,
        ;
        lemma_mod_multiples_basic(q, c);
        assert(total.take(emitted).len() as int % c == 0);
        lemma_chunks_snoc(total.take(emitted), total.skip(emitted), c);
        assert(total.take(emitted) + total.skip(emitted) =~= total);
    }
}

/// The binary-mode accumulator: bytes are gathered as they arrive, and
/// whenever the buffer reaches the configured chunk size it is flushed as
/// one binary frame. On end of input, `finish` flushes whatever partial
/// buffer is left as a final, possibly short, frame.
pub struct Chunker {
    chunk_size: usize,
    buffer: Vec<u8>,
}

impl Chunker {
    /// The chunk size the chunker was built with.
    pub closed spec fn size(&self) -> int {
        self.chunk_size as int
    }

    /// Bytes accepted but not yet emitted in a frame, in arrival order.
    pub closed spec fn pending(&self) -> Seq<u8> {
        self.buffer@
    }

    /// A partial buffer never reaches the chunk size: reaching it flushes.
    pub closed spec fn wf(&self) -> bool {
        1 <= self.chunk_size && self.buffer@.len() < self.chunk_size
    }

    pub fn new(chunk_size: usize) -> (ck: Chunker)
        requires
            chunk_size >= 1,
        ensures
            ck.wf(),
            ck.size() == chunk_size,
            ck.pending() == Seq::<u8>::empty(),
    {
        Chunker { chunk_size, buffer: Vec::new() }
    }

    /// Accept one read's worth of bytes. Emits one binary frame for each
    /// chunk boundary the accumulated bytes cross, in order; what remains
    /// short of a boundary stays pending.
    pub fn accept(&mut self, data: &Vec<u8>) -> (frames: Vec<FrameData>)
        requires
            old(self).wf(),
        ensures
            final(self).wf(),
            final(self).size() == old(self).size(),
            ({
                let total = old(self).pending() + data@;
                let c = old(self).size();
                let l = total.len() as int;
                let emitted = l - l % c;
                &&& payloads_of(frames@) == spec_chunks(total.take(emitted), c)
                &&& final(self).pending() == total.skip(emitted)
            }),
            forall|i: int|
                0 <= i < frames@.len() ==> {
                    &&& (#[trigger] frames@[i]).kind == FrameKind::Binary
                    &&& frames@[i].origin == Some(FrameOrigin::UserInput)
                    &&& frames@[i].wf()
                },
    {
        let ghost pend0 = self.buffer@;
        let ghost c = self.chunk_size as int;
        let ghost total = pend0 + data@;
        let mut frames: Vec<FrameData> = Vec::new();
        let mut i: usize = 0;
        proof {
            assert(pend0 + data@.take(0) =~= pend0);
            assert(frames@.len() * c == 0) by (nonlinear_arith)
                requires
                    frames@.len() == 0,
            ;
            assert((pend0 + data@.take(0)).take(0) =~= Seq::<u8>::empty());
            assert(payloads_of(frames@) =~= Seq::<Seq<u8>>::empty());
            assert((pend0 + data@.take(0)).skip(0) =~= pend0);
        }
        while i < data.len()
            invariant
                i <= data.len(),
                self.chunk_size == old(self).chunk_size,
                1 <= self.chunk_size,
                self.buffer@.len() < self.chunk_size,
                c == self.chunk_size as int,
                pend0 == old(self).pending(),
                pend0.len() < c,
                total == pend0 + data@,
                (pend0 + data@.take(i as int)).len() == frames@.len() * c + self.buffer@.len(),
                payloads_of(frames@) == spec_chunks(
                    (pend0 + data@.take(i as int)).take(frames@.len() * c),
                    c,
                ),
                self.buffer@ == (pend0 + data@.take(i as int)).skip(frames@.len() * c),
                forall|j: int|
                    0 <= j < frames@.len() ==> {
                        &&& (#[trigger] frames@[j]).kind == FrameKind::Binary
                        &&& frames@[j].origin == Some(FrameOrigin::UserInput)
                        &&& frames@[j].wf()
                    },
            decreases data.len() - i,
        {
            let ghost p = pend0 + data@.take(i as int);
            let ghost k = frames@.len() as int;
            let b = data[i];
            self.buffer.push(b);
            i += 1;
            let ghost p1 = pend0 + data@.take(i as int);
            proof {
                assert(data@.take(i as int) =~= data@.take(i - 1).push(data@[i - 1]));
                assert(p1 =~= p.push(b));
                assert(k * c <= p.len());
            }
            if self.buffer.len() == self.chunk_size {
                let mut payload: Vec<u8> = Vec::new();
                core::mem::swap(&mut payload, &mut self.buffer);
                proof {
                    assert(payload@ =~= p1.skip(k * c));
                    assert(p1.take(k * c) =~= p.take(k * c));
                    lemma_mod_multiples_basic(k, c);
                    assert(p1.take(k * c).len() as int % c == 0);
                    lemma_chunks_snoc(p1.take(k * c), payload@, c);
                    assert(p1.take(k * c) + p1.skip(k * c) =~= p1);
                }
                let f = FrameData::binary(payload, FrameOrigin::UserInput);
                frames.push(f);
                proof {
                    assert(payloads_of(frames@) =~= spec_chunks(p1.take(k * c), c).push(
                        p1.skip(k * c),
                    ));
                    assert((k + 1) * c == k * c + c) by (nonlinear_arith);
                    assert(p1.len() == (k + 1) * c);
                    assert(p1.take((k + 1) * c) =~= p1);
                    assert(self.buffer@ =~= p1.skip((k + 1) * c));
                }
            } else {
                proof {
                    assert(p1.take(k * c) =~= p.take(k * c));
                    assert(self.buffer@ =~= p1.skip(k * c));
                }
            }
        }
        proof {
            assert(data@.take(data.len() as int) =~= data@);
            let l = total.len() as int;
            let k = frames@.len() as int;
            assert(l == k * c + self.buffer@.len());
            lemma_fundamental_div_mod_converse(l, c, k, self.buffer@.len() as int);
            assert(l - l % c == k * c);
        }
        frames
    }

    /// End of input: flush any partial buffer as a final short frame.
    pub fn finish(&mut self) -> (r: Option<FrameData>)
        requires
            old(self).wf(),
        ensures
            final(self).wf(),
            final(self).size() == old(self).size(),
            final(self).pending() == Seq::<u8>::empty(),
            old(self).pending().len() == 0 ==> r is None,
            old(self).pending().len() > 0 ==> {
                &&& r is Some
                &&& r.unwrap().payload@ == old(self).pending()
                &&& r.unwrap().kind == FrameKind::Binary
                &&& r.unwrap().origin == Some(FrameOrigin::UserInput)
                &&& r.unwrap().wf()
            },
    {
        if self.buffer.len() == 0 {
            proof {
                assert(self.buffer@ =~= Seq::<u8>::empty());
            }
            None
        } else {
            let mut payload: Vec<u8> = Vec::new();
            core::mem::swap(&mut payload, &mut self.buffer);
            Some(FrameData::binary(payload, FrameOrigin::UserInput))
        }
    }
}

/// The line framing of a byte stream, `cur` being the part of the
/// current line already seen: lines split at line feeds (0x0a), the line
/// feed itself dropped, a trailing line feed closing the last line
/// rather than opening an empty one.
pub open spec fn lines_acc(bytes: Seq<u8>, cur: Seq<u8>) -> Seq<Seq<u8>>
    decreases bytes.len(),
{
    if bytes.len() == 0 {
        if cur.len() == 0 {
            Seq::empty()
        } else {
            seq![cur]
        }
    } else if bytes[0] == 10u8 {
        seq![cur] + lines_acc(bytes.skip(1), Seq::empty())
    } else {
        lines_acc(bytes.skip(1), cur.push(bytes[0]))
    }
}

/// The line framing of a whole byte stream.
pub open spec fn spec_lines(bytes: Seq<u8>) -> Seq<Seq<u8>> {
    lines_acc(bytes, Seq::empty())
}

/// A stream formed of the given lines, a line feed closing each.
pub open spec fn join_lines(lines: Seq<Seq<u8>>) -> Seq<u8>
    decreases lines.len(),
{
    if lines.len() == 0 {
        Seq::empty()
    } else {
        lines[0] + seq![10u8] + join_lines(lines.skip(1))
    }
}

proof fn lemma_lines_acc_line(line: Seq<u8>, rest: Seq<u8>, cur: Seq<u8>)
    requires
        forall|j: int| 0 <= j < line.len() ==> line[j] != 10u8,
    ensures
        lines_acc(line + seq![10u8] + rest, cur) == seq![cur + line] + lines_acc(
            rest,
            Seq::empty(),
        ),
    decreases line.len(),
{
    let bytes = line + seq![10u8] + rest;
    if line.len() == 0 {
        assert(bytes[0] == 10u8);
        assert(bytes.skip(1) =~= rest);
        assert(cur + line =~= cur);
    } else {
        assert(bytes[0] == line[0]);
        assert(line[0] != 10u8);
        assert(bytes.skip(1) =~= line.skip(1) + seq![10u8] + rest);
        lemma_lines_acc_line(line.skip(1), rest, cur.push(line[0]));
        assert(cur.push(line[0]) + line.skip(1) =~= cur + line);
    }
}

/// Text line framing law: a stream formed of lines, each closed by a
/// line feed, frames into exactly one payload per line, in order, with
/// the line feeds stripped and empty lines kept as empty payloads.
pub proof fn lemma_line_framing(lines: Seq<Seq<u8>>)
    requires
        forall|i: int, j: int|
            0 <= i < lines.len() && 0 <= j < lines[i].len() ==> #[trigger] lines[i][j] != 10u8,
    ensures
        spec_lines(join_lines(lines)) == lines,
    decreases lines.len(),
{
    if lines.len() == 0 {
    } else {
        assert(forall|j: int| 0 <= j < lines[0].len() ==> lines[0][j] != 10u8);
        lemma_lines_acc_line(lines[0], join_lines(lines.skip(1)), Seq::empty());
        assert(forall|i: int, j: int|
            0 <= i < lines.skip(1).len() && 0 <= j < lines.skip(1)[i].len()
                ==> #[trigger] lines.skip(1)[i][j] != 10u8) by {
            assert(forall|i: int|
                0 <= i < lines.skip(1).len() ==> lines.skip(1)[i] == lines[i + 1]);
        }
        lemma_line_framing(lines.skip(1));
        assert(Seq::<u8>::empty() + lines[0] =~= lines[0]);
        assert(seq![lines[0]] + lines.skip(1) =~= lines);
    }
}

/// Frame a buffered text stream: one line per frame payload, in stream
/// order, line feeds stripped, empty lines preserved.
pub fn split_lines(input: &Vec<u8>) -> (lines: Vec<Vec<u8>>)
    ensures
        views_of(lines@) == spec_lines(input@),
{
    let mut out: Vec<Vec<u8>> = Vec::new();
    let mut cur: Vec<u8> = Vec::new();
    let mut i: usize = 0;
    proof {
        assert(input@.skip(0) =~= input@);
        assert(views_of(out@) =~= Seq::<Seq<u8>>::empty());
        assert(Seq::<Seq<u8>>::empty() + lines_acc(input@, cur@) =~= lines_acc(input@, cur@));
    }
    while i < input.len()
        invariant
            i <= input.len(),
            spec_lines(input@) == views_of(out@) + lines_acc(input@.skip(i as int), cur@),
        decreases input.len() - i,
    {
        let ghost rest = input@.skip(i as int);
        proof {
            assert(rest.len() > 0);
            assert(rest[0] == input@[i as int]);
            assert(rest.skip(1) =~= input@.skip(i + 1));
        }
        let b = input[i];
        if b == 10 {
            let ghost cur0 = cur@;
            let mut line: Vec<u8> = Vec::new();
            core::mem::swap(&mut line, &mut cur);
            out.push(line);
            proof {
                assert(cur@ =~= Seq::<u8>::empty());
                assert(views_of(out@) =~= views_of(out@.drop_last()).push(cur0));
                assert(views_of(out@.drop_last()) + (seq![cur0] + lines_acc(
                    input@.skip(i + 1),
                    Seq::empty(),
                )) =~= views_of(out@) + lines_acc(input@.skip(i + 1), Seq::empty()));
            }
        } else {
            cur.push(b);
        }
        i += 1;
    }
    proof {
        assert(input@.skip(input.len() as int) =~= Seq::<u8>::empty());
    }
    if cur.len() > 0 {
        out.push(cur);
        proof {
            assert(views_of(out@) =~= views_of(out@.drop_last()).push(out@.last()@));
        }
    } else {
        proof {
            assert(views_of(out@) + Seq::<Seq<u8>>::empty() =~= views_of(out@));
        }
    }
    out
}

/// Frame a buffered text stream as the ingester does: exactly one text
/// frame per line, in stream order, line feeds stripped, empty lines
/// kept as empty text frames.
pub fn text_frames(input: &Vec<u8>) -> (frames: Vec<FrameData>)
    ensures
        payloads_of(frames@) == spec_lines(input@),
        forall|i: int|
            0 <= i < frames@.len() ==> {
                &&& (#[trigger] frames@[i]).kind == FrameKind::Text
                &&& frames@[i].origin == Some(FrameOrigin::UserInput)
                &&& frames@[i].wf()
            },
{
    let lines = split_lines(input);
    let mut frames: Vec<FrameData> = Vec::new();
    let mut i: usize = 0;
    while i < lines.len()
        invariant
            i <= lines.len(),
            views_of(lines@) == spec_lines(input@),
            frames@.len() == i,
            forall|k: int|
                0 <= k < i ==> {
                    &&& (#[trigger] frames@[k]).kind == FrameKind::Text
                    &&& frames@[k].payload@ == lines@[k]@
                    &&& frames@[k].origin == Some(FrameOrigin::UserInput)
                    &&& frames@[k].wf()
                },
        decreases lines.len() - i,
    {
        let mut payload: Vec<u8> = Vec::new();
        let mut j: usize = 0;
        while j < lines[i].len()
            invariant
                i < lines.len(),
                j <= lines@[i as int]@.len(),
                payload@ == lines@[i as int]@.take(j as int),
            decreases lines@[i as int]@.len() - j,
        {
            proof {
                assert(lines@[i as int]@.take(j + 1) =~= lines@[i as int]@.take(j as int).push(
                    lines@[i as int]@[j as int],
                ));
            }
            payload.push(lines[i][j]);
            j += 1;
        }
        proof {
            assert(lines@[i as int]@.take(lines@[i as int]@.len() as int) =~= lines@[i as int]@);
        }
        frames.push(FrameData::text(payload, FrameOrigin::UserInput));
        i += 1;
    }
    proof {
        assert(payloads_of(frames@) =~= views_of(lines@));
    }
    frames
}

/// Wrap one already-read line (its line feed stripped by the reader) as
/// a text frame from operator input, together with the one echo line the
/// frame owes when echo is on.
pub fn text_line_frame(line: Vec<u8>, echo: bool) -> (r: (FrameData, Option<Vec<u8>>))
    ensures
        r.0.kind == FrameKind::Text,
        r.0.payload@ == line@,
        r.0.origin == Some(FrameOrigin::UserInput),
        r.0.wf(),
        echo ==> r.1 is Some && r.1.unwrap()@ == spec_echo_line(line@),
        !echo ==> r.1 is None,
{
    let e = if echo {
        Some(echo_line(&line))
    } else {
        None
    };
    (FrameData::text(line, FrameOrigin::UserInput), e)
}

} // verus!
