//! Receiving a frame for the e-paper display over a plain HTTP/1.0 connection.
//!
//! The display fetches its picture with `GET / HTTP/1.0` and copies the response body,
//! chunk after chunk, into its frame buffer. The first chunk carries the response header,
//! which ends at the first `\r\n\r\n` of the read buffer; everything after it is body.
//! A chunk whose body would reach the last byte of the frame buffer ends the transfer.
use vstd::prelude::*;
use vstd::utf8::valid_utf8;

verus! {

/// Number of bytes of the header terminator `\r\n\r\n`.
pub const TERMINATOR_LEN: usize = 4;

/// Whether `buf` holds the header terminator `\r\n\r\n` starting at index `i`.
pub open spec fn terminator_at(buf: Seq<u8>, i: int) -> bool {
    &&& 0 <= i
    &&& i + 4 <= buf.len()
    &&& buf[i] == 13u8
    &&& buf[i + 1] == 10u8
    &&& buf[i + 2] == 13u8
    &&& buf[i + 3] == 10u8
}

/// The first index at or after `i` where the header terminator starts, if any.
pub open spec fn terminator_from(buf: Seq<u8>, i: int) -> Option<int>
    decreases buf.len() - i,
{
    if i < 0 || i + 4 > buf.len() {
        None
    } else if terminator_at(buf, i) {
        Some(i)
    } else {
        terminator_from(buf, i + 1)
    }
}

/// The first index of `buf` where the header terminator starts, if any.
pub open spec fn first_terminator(buf: Seq<u8>) -> Option<int> {
    terminator_from(buf, 0)
}

/// The search from `i` finds the first terminator at or after `i`.
pub proof fn lemma_terminator_from(buf: Seq<u8>, i: int)
    requires
        0 <= i,
    ensures
        match terminator_from(buf, i) {
            Some(j) => {
                &&& i <= j
                &&& terminator_at(buf, j)
                &&& forall|k: int| i <= k < j ==> !terminator_at(buf, k)
            },
            None => forall|k: int| i <= k ==> !terminator_at(buf, k),
        },
    decreases buf.len() - i,
{
    if i + 4 <= buf.len() && !terminator_at(buf, i) {
        lemma_terminator_from(buf, i + 1);
    }
}

/// Where the body starts in a chunk: just past the first terminator while the header is
/// still being read, and at the chunk's start afterwards.
pub open spec fn body_start(in_header: bool, buf: Seq<u8>) -> int {
    if in_header {
        first_terminator(buf).unwrap() + 4
    } else {
        0
    }
}

/// What a read from the connection gave: `Bytes(n)` for `n` bytes placed at the start of
/// the read buffer (`Bytes(0)` is the end of the stream), or `Failed` for a read error.
#[derive(Clone, Copy, PartialEq, Eq, Structural, Debug)]
pub enum ReadEvent {
    Bytes(usize),
    Failed,
}

/// Whether the transfer goes on after a read.
#[derive(Clone, Copy, PartialEq, Eq, Structural, Debug)]
pub enum ReadStep {
    Continue,
    Stop,
}

/// Progress of one transfer: where the next body byte goes, and whether the header is
/// still to be skipped.
#[derive(Clone, Copy, PartialEq, Eq, Structural, Debug)]
pub struct Receiver {
    pub offset: usize,
    pub in_header: bool,
}

/// A receiver is well formed for a frame buffer of `frame_len` bytes when the buffer is not
/// empty and the next body byte goes at or before its last index.
pub open spec fn receiver_wf(r: Receiver, frame_len: nat) -> bool {
    frame_len >= 1 && r.offset <= frame_len - 1
}

/// The reads on which receiving goes ahead: the byte count fits the read buffer and, while
/// the header is being read, the buffer holds a terminator that ends within the bytes read
/// and the header up to it is UTF-8.
pub open spec fn read_acceptable(r: Receiver, buf: Seq<u8>, ev: ReadEvent) -> bool {
    match ev {
        ReadEvent::Bytes(n) => n <= buf.len() && (n > 0 && r.in_header ==> {
            &&& first_terminator(buf) is Some
            &&& first_terminator(buf).unwrap() + 4 <= n
            &&& valid_utf8(buf.take(first_terminator(buf).unwrap() + 4))
        }),
        ReadEvent::Failed => true,
    }
}

/// Whether the body of a chunk of `n` bytes still fits before the last byte of the frame.
pub open spec fn body_fits(r: Receiver, frame_len: nat, buf: Seq<u8>, n: int) -> bool {
    r.offset + (n - body_start(r.in_header, buf)) <= frame_len - 1
}

/// The frame after the body `body` has been written at `offset`.
pub open spec fn frame_with(frame: Seq<u8>, offset: int, body: Seq<u8>) -> Seq<u8> {
    frame.take(offset) + body + frame.skip(offset + body.len())
}

/// The receiver, the frame and the step after a read, as the display firmware does it.
pub open spec fn after_read(r: Receiver, frame: Seq<u8>, buf: Seq<u8>, ev: ReadEvent) -> (
    Receiver,
    Seq<u8>,
    ReadStep,
) {
    match ev {
        ReadEvent::Bytes(n) => if n == 0 {
            (r, frame, ReadStep::Stop)
        } else {
            let start = body_start(r.in_header, buf);
            let body = buf.subrange(start, n as int);
            if body_fits(r, frame.len(), buf, n as int) {
                (
                    Receiver { offset: (r.offset + body.len()) as usize, in_header: false },
                    frame_with(frame, r.offset as int, body),
                    ReadStep::Continue,
                )
            } else {
                (Receiver { offset: r.offset, in_header: false }, frame, ReadStep::Stop)
            }
        },
        ReadEvent::Failed => (r, frame, ReadStep::Stop),
    }
}

/// Wrapper of `core::str::from_utf8`: it succeeds exactly on the UTF-8 byte sequences,
/// as its documentation says; this claims that vstd's `valid_utf8` is that set.
#[verifier::external_body]
fn utf8_check(bytes: &[u8]) -> (ok: bool)
    ensures
        ok == valid_utf8(bytes@),
{
    core::str::from_utf8(bytes).is_ok()
}

/// Finds the first `\r\n\r\n` in `buf`.
pub fn find_terminator(buf: &[u8]) -> (res: Option<usize>)
    ensures
        match res {
            Some(i) => first_terminator(buf@) == Some(i as int),
            None => first_terminator(buf@) is None,
        },
{
    let len = buf.len();
    if len < 4 {
        return None;
    }
    let mut i: usize = 0;
    while i <= len - 4
        invariant
            len == buf@.len(),
            4 <= len,
            i <= len - 3,
            terminator_from(buf@, 0) == terminator_from(buf@, i as int),
        decreases len - i,
    {
        if buf[i] == 13u8 && buf[i + 1] == 10u8 && buf[i + 2] == 13u8 && buf[i + 3] == 10u8 {
            return Some(i);
        }
        i = i + 1;
    }
    None
}

impl Receiver {
    /// A receiver at the start of a transfer: the header comes first.
    pub fn new() -> (r: Receiver)
        ensures
            r.offset == 0,
            r.in_header,
    {
        Receiver { offset: 0, in_header: true }
    }

    /// Handles one read of the transfer: skips the header in the first chunk, copies the
    /// body into `frame` at the current offset and advances it. The transfer stops at the
    /// end of the stream, on a read error, and on a body that would reach the last byte of
    /// the frame (which is then left as it was).
    pub fn on_read(&mut self, frame: &mut Vec<u8>, buf: &[u8], ev: ReadEvent) -> (step: ReadStep)
        requires
            receiver_wf(*old(self), old(frame)@.len()),
            read_acceptable(*old(self), buf@, ev),
        ensures
            (*final(self), final(frame)@, step) == after_read(*old(self), old(frame)@, buf@, ev),
            receiver_wf(*final(self), final(frame)@.len()),
    {
        let n = match ev {
            ReadEvent::Bytes(n) => n,
            ReadEvent::Failed => {
                return ReadStep::Stop;
            },
        };
        if n == 0 {
            return ReadStep::Stop;
        }
        let start = if self.in_header {
            let found = find_terminator(buf);
            let pos = match found {
                Some(p) => p,
                None => {
                    proof {
                        assert(false);
                    }
                    0
                },
            };
            self.in_header = false;
            pos + TERMINATOR_LEN
        } else {
            0
        };
        let len = n - start;
        let last = frame.len() - 1;
        if len > last - self.offset {
            return ReadStep::Stop;
        }
        let ghost before = frame@;
        assert(before =~= frame_with(before, self.offset as int, buf@.subrange(start as int, start as int)));
        let offset = self.offset;
        let mut k: usize = 0;
        while k < len
            invariant
                k <= len,
                start + len == n,
                n <= buf@.len(),
                last == before.len() - 1,
                offset + len <= last,
                frame@.len() == before.len(),
                frame@ == frame_with(before, offset as int, buf@.subrange(start as int, start + k)),
            decreases len - k,
        {
            frame[offset + k] = buf[start + k];
            k = k + 1;
            assert(frame@ =~= frame_with(before, offset as int, buf@.subrange(start as int, start + k)));
        }
        self.offset = offset + len;
        ReadStep::Continue
    }
}

/// The reason a read cannot be received: the firmware panics on these reads.
#[derive(Clone, Copy, PartialEq, Eq, Structural, Debug)]
pub enum ReadFault {
    /// The header terminator is not in the read buffer.
    NoHeaderEnd,
    /// The header terminator ends past the bytes read.
    HeaderPastRead,
    /// The header is not UTF-8.
    HeaderNotUtf8,
}

/// Why a read is not acceptable, or `None` when it is.
pub open spec fn read_fault(r: Receiver, buf: Seq<u8>, n: nat) -> Option<ReadFault> {
    if n > 0 && r.in_header {
        if first_terminator(buf) is None {
            Some(ReadFault::NoHeaderEnd)
        } else if first_terminator(buf).unwrap() + 4 > n {
            Some(ReadFault::HeaderPastRead)
        } else if !valid_utf8(buf.take(first_terminator(buf).unwrap() + 4)) {
            Some(ReadFault::HeaderNotUtf8)
        } else {
            None
        }
    } else {
        None
    }
}

impl Receiver {
    /// Like `on_read`, for any read the socket can give: where the firmware would panic,
    /// returns the fault and changes nothing.
    pub fn try_on_read(&mut self, frame: &mut Vec<u8>, buf: &[u8], ev: ReadEvent) -> (res: Result<
        ReadStep,
        ReadFault,
    >)
        requires
            receiver_wf(*old(self), old(frame)@.len()),
            ev matches ReadEvent::Bytes(n) ==> n <= buf@.len(),
        ensures
            read_acceptable(*old(self), buf@, ev) ==> res is Ok,
            match res {
                Ok(step) => {
                    &&& read_acceptable(*old(self), buf@, ev)
                    &&& (*final(self), final(frame)@, step) == after_read(
                        *old(self),
                        old(frame)@,
                        buf@,
                        ev,
                    )
                },
                Err(fault) => {
                    &&& ev matches ReadEvent::Bytes(n) && read_fault(*old(self), buf@, n as nat)
                        == Some(fault)
                    &&& *final(self) == *old(self)
                    &&& final(frame)@ == old(frame)@
                },
            },
            receiver_wf(*final(self), final(frame)@.len()),
    {
        if let ReadEvent::Bytes(n) = ev {
            if n > 0 && self.in_header {
                match find_terminator(buf) {
                    None => {
                        return Err(ReadFault::NoHeaderEnd);
                    },
                    Some(p) => {
                        let blen = buf.len();
                        proof {
                            lemma_terminator_from(buf@, 0);
                        }
                        assert(p + 4 <= blen);
                        if p + TERMINATOR_LEN > n {
                            return Err(ReadFault::HeaderPastRead);
                        }
                        let header = &buf[0..p + TERMINATOR_LEN];
                        assert(header@ == buf@.take(p + 4));
                        if !utf8_check(header) {
                            return Err(ReadFault::HeaderNotUtf8);
                        }
                    },
                }
            }
        }
        Ok(self.on_read(frame, buf, ev))
    }
}

/// The body of a read: the bytes of the chunk after the header, if any.
pub open spec fn read_body(r: Receiver, buf: Seq<u8>, n: nat) -> Seq<u8> {
    buf.subrange(body_start(r.in_header, buf), n as int)
}

/// A read never writes the last byte of the frame, nor any byte before the receiver's
/// offset, and it writes exactly its body at the offset when the transfer goes on.
pub proof fn law_read_writes_only_its_body(r: Receiver, frame: Seq<u8>, buf: Seq<u8>, ev: ReadEvent)
    requires
        frame.len() <= usize::MAX,
        receiver_wf(r, frame.len()),
        read_acceptable(r, buf, ev),
    ensures
        ({
            let (r2, frame2, step) = after_read(r, frame, buf, ev);
            &&& frame2.len() == frame.len()
            &&& frame2[frame.len() - 1] == frame[frame.len() - 1]
            &&& frame2.take(r.offset as int) == frame.take(r.offset as int)
            &&& frame2.skip(r2.offset as int) == frame.skip(r2.offset as int)
            &&& step == ReadStep::Stop ==> frame2 == frame && r2.offset == r.offset
            &&& ev matches ReadEvent::Bytes(n) ==> (step == ReadStep::Continue ==> frame2.subrange(
                r.offset as int,
                r2.offset as int,
            ) == read_body(r, buf, n as nat))
        }),
{
    let (r2, frame2, step) = after_read(r, frame, buf, ev);
    if let ReadEvent::Bytes(n) = ev {
        if n > 0 {
            lemma_terminator_from(buf, 0);
            let body = read_body(r, buf, n as nat);
            let start = body_start(r.in_header, buf);
            assert(0 <= start <= n <= buf.len());
            assert(body.len() == n - start);
            if body_fits(r, frame.len(), buf, n as int) {
                assert(r2.offset == r.offset + body.len());
                assert(frame2.len() == frame.len());
                assert(frame2.take(r.offset as int) =~= frame.take(r.offset as int));
                assert(frame2.skip(r2.offset as int) =~= frame.skip(r2.offset as int));
                assert(frame2.subrange(r.offset as int, r2.offset as int) =~= body);
                assert(frame2[frame.len() - 1] == frame.skip(r2.offset as int)[frame.len() - 1
                    - r2.offset]);
            }
        }
    }
}

/// Two reads that both let the transfer go on leave their bodies one after the other in the
/// frame, starting at the first read's offset; the header is skipped once, by the first.
pub proof fn law_bodies_are_contiguous(
    r0: Receiver,
    frame0: Seq<u8>,
    buf1: Seq<u8>,
    n1: usize,
    buf2: Seq<u8>,
    n2: usize,
)
    requires
        frame0.len() <= usize::MAX,
        receiver_wf(r0, frame0.len()),
        read_acceptable(r0, buf1, ReadEvent::Bytes(n1)),
        after_read(r0, frame0, buf1, ReadEvent::Bytes(n1)).2 == ReadStep::Continue,
        read_acceptable(
            after_read(r0, frame0, buf1, ReadEvent::Bytes(n1)).0,
            buf2,
            ReadEvent::Bytes(n2),
        ),
        after_read(
            after_read(r0, frame0, buf1, ReadEvent::Bytes(n1)).0,
            after_read(r0, frame0, buf1, ReadEvent::Bytes(n1)).1,
            buf2,
            ReadEvent::Bytes(n2),
        ).2 == ReadStep::Continue,
    ensures
        ({
            let (r1, frame1, _s1) = after_read(r0, frame0, buf1, ReadEvent::Bytes(n1));
            let (r2, frame2, _s2) = after_read(r1, frame1, buf2, ReadEvent::Bytes(n2));
            &&& !r1.in_header
            &&& !r2.in_header
            &&& frame2.subrange(r0.offset as int, r2.offset as int) == read_body(
                r0,
                buf1,
                n1 as nat,
            ) + buf2.take(n2 as int)
            &&& frame2.take(r0.offset as int) == frame0.take(r0.offset as int)
        }),
{
    let (r1, frame1, s1) = after_read(r0, frame0, buf1, ReadEvent::Bytes(n1));
    law_read_writes_only_its_body(r0, frame0, buf1, ReadEvent::Bytes(n1));
    law_read_writes_only_its_body(r1, frame1, buf2, ReadEvent::Bytes(n2));
    let (r2, frame2, s2) = after_read(r1, frame1, buf2, ReadEvent::Bytes(n2));
    let b1 = read_body(r0, buf1, n1 as nat);
    let b2 = read_body(r1, buf2, n2 as nat);
    assert(b2 =~= buf2.take(n2 as int));
    assert(frame2.subrange(r0.offset as int, r1.offset as int) =~= frame1.take(
        r1.offset as int,
    ).subrange(r0.offset as int, r1.offset as int));
    assert(frame2.subrange(r0.offset as int, r2.offset as int) =~= frame2.subrange(
        r0.offset as int,
        r1.offset as int,
    ) + frame2.subrange(r1.offset as int, r2.offset as int));
    assert(frame2.take(r0.offset as int) =~= frame1.take(r1.offset as int).take(
        r0.offset as int,
    ));
}

/// When `p` is a terminator with none before it, the search from the start finds it.
pub proof fn lemma_first_terminator_is(buf: Seq<u8>, p: int)
    requires
        terminator_at(buf, p),
        forall|k: int| 0 <= k < p ==> !terminator_at(buf, k),
    ensures
        first_terminator(buf) == Some(p),
{
    lemma_terminator_from(buf, 0);
    match terminator_from(buf, 0) {
        Some(j) => {
            if j < p {
                assert(terminator_at(buf, j));
            } else if j > p {
                assert(!terminator_at(buf, p));
            }
        },
        None => {
            assert(!terminator_at(buf, p));
        },
    }
}

/// A read error, like the end of the stream, always ends the transfer, whatever the
/// receiver's state, and leaves the receiver and the frame as they were.
pub proof fn law_read_error_or_end_stops(r: Receiver, frame: Seq<u8>, buf: Seq<u8>)
    ensures
        after_read(r, frame, buf, ReadEvent::Failed) == (r, frame, ReadStep::Stop),
        after_read(r, frame, buf, ReadEvent::Bytes(0)) == (r, frame, ReadStep::Stop),
{
}

/// The outcome of a read of `n > 0` bytes, in terms of the bytes themselves. The body
/// starts just past the first `\r\n\r\n` of the buffer (at `p + 4`) while the header is
/// being read, and at the start of the buffer afterwards. The transfer goes on exactly when
/// the body ends before the last byte of the frame; then the body's bytes are written at the
/// offset, every other byte of the frame is kept, and the offset moves past the body.
/// Otherwise nothing is written and the offset stays. Either way the header is done.
pub proof fn law_read_outcome(r: Receiver, frame: Seq<u8>, buf: Seq<u8>, n: usize, p: int)
    requires
        frame.len() <= usize::MAX,
        receiver_wf(r, frame.len()),
        0 < n <= buf.len(),
        r.in_header ==> {
            &&& terminator_at(buf, p)
            &&& forall|k: int| 0 <= k < p ==> !terminator_at(buf, k)
            &&& p + 4 <= n
            &&& valid_utf8(buf.take(p + 4))
        },
    ensures
        read_acceptable(r, buf, ReadEvent::Bytes(n)),
        ({
            let start = if r.in_header {
                p + 4
            } else {
                0
            };
            let len = n - start;
            let (r2, f2, step) = after_read(r, frame, buf, ReadEvent::Bytes(n));
            &&& !r2.in_header
            &&& f2.len() == frame.len()
            &&& (step == ReadStep::Continue <==> r.offset + len < frame.len())
            &&& step == ReadStep::Continue ==> {
                &&& r2.offset == r.offset + len
                &&& forall|i: int|
                    0 <= i < frame.len() ==> #[trigger] f2[i] == if r.offset <= i < r.offset + len {
                        buf[start + i - r.offset]
                    } else {
                        frame[i]
                    }
            }
            &&& step == ReadStep::Stop ==> r2.offset == r.offset && f2 == frame
        }),
{
    if r.in_header {
        lemma_first_terminator_is(buf, p);
    }
    let start = if r.in_header {
        p + 4
    } else {
        0
    };
    assert(body_start(r.in_header, buf) == start);
    let (r2, f2, step) = after_read(r, frame, buf, ReadEvent::Bytes(n));
    let body = buf.subrange(start, n as int);
    assert(body.len() == n - start);
    if body_fits(r, frame.len(), buf, n as int) {
        assert(f2 == frame_with(frame, r.offset as int, body));
        assert forall|i: int| 0 <= i < frame.len() implies #[trigger] f2[i] == if r.offset <= i
            < r.offset + (n - start) {
            buf[start + i - r.offset]
        } else {
            frame[i]
        } by {
            if i < r.offset {
            } else if i < r.offset + (n - start) {
                assert(f2[i] == body[i - r.offset]);
            } else {
                assert(f2[i] == frame.skip(r.offset + body.len())[i - r.offset - body.len()]);
            }
        }
    }
}

/// A read is refused exactly when the header is being read and the buffer has no
/// `\r\n\r\n` whose first occurrence ends within the bytes read and follows a UTF-8
/// header; a read whose terminator ends exactly at the last byte read is accepted.
pub proof fn law_read_fault_exact(r: Receiver, buf: Seq<u8>, n: nat)
    ensures
        read_fault(r, buf, n) is None <==> (n == 0 || !r.in_header || exists|p: int|
            {
                &&& #[trigger] terminator_at(buf, p)
                &&& forall|k: int| 0 <= k < p ==> !terminator_at(buf, k)
                &&& p + 4 <= n
                &&& valid_utf8(buf.take(p + 4))
            }),
        n <= buf.len() ==> (read_fault(r, buf, n) is None <==> read_acceptable(
            r,
            buf,
            ReadEvent::Bytes(n as usize),
        )) || n > usize::MAX,
{
    lemma_terminator_from(buf, 0);
    if n > 0 && r.in_header {
        if exists|p: int|
            {
                &&& #[trigger] terminator_at(buf, p)
                &&& forall|k: int| 0 <= k < p ==> !terminator_at(buf, k)
                &&& p + 4 <= n
                &&& valid_utf8(buf.take(p + 4))
            } {
            let p = choose|p: int|
                {
                    &&& #[trigger] terminator_at(buf, p)
                    &&& forall|k: int| 0 <= k < p ==> !terminator_at(buf, k)
                    &&& p + 4 <= n
                    &&& valid_utf8(buf.take(p + 4))
                };
            lemma_first_terminator_is(buf, p);
        }
        if read_fault(r, buf, n) is None {
            let p = first_terminator(buf).unwrap();
            assert(terminator_at(buf, p));
        }
    }
}

} // verus!
