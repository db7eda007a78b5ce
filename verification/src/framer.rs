//! Per-connection byte-to-line framing.
//!
//! A `Framer` accumulates raw bytes read from one connection and cuts them
//! into complete, newline-terminated frames. The accumulator is seeded with
//! the display label, so every emitted frame starts with the label and ends
//! with the terminator; bytes after the last terminator stay buffered until
//! more input arrives.

use vstd::prelude::*;

verus! {

/// The line terminator: `\n`.
pub const TERMINATOR: u8 = 10;

/// The display label `"Message: "` that seeds the accumulator, as bytes.
pub open spec fn label() -> Seq<u8> {
    seq![77u8, 101u8, 115u8, 115u8, 97u8, 103u8, 101u8, 58u8, 32u8]
}

/// The frames emitted when `input` is appended byte by byte to the
/// accumulator `acc`: each byte is pushed, and at every terminator the
/// accumulator (terminator included) is emitted and reseeded with the label.
pub open spec fn feed_frames(acc: Seq<u8>, input: Seq<u8>) -> Seq<Seq<u8>>
    decreases input.len(),
{
    if input.len() == 0 {
        Seq::empty()
    } else if input[0] == TERMINATOR {
        seq![acc.push(input[0])] + feed_frames(label(), input.skip(1))
    } else {
        feed_frames(acc.push(input[0]), input.skip(1))
    }
}

/// The accumulator left over after feeding `input` on top of `acc`:
/// the bytes after the last terminator, on top of the label.
pub open spec fn feed_acc(acc: Seq<u8>, input: Seq<u8>) -> Seq<u8>
    decreases input.len(),
{
    if input.len() == 0 {
        acc
    } else if input[0] == TERMINATOR {
        feed_acc(label(), input.skip(1))
    } else {
        feed_acc(acc.push(input[0]), input.skip(1))
    }
}

/// Builds the display label as a byte vector.
pub fn label_bytes() -> (v: Vec<u8>)
    ensures
        v@ == label(),
{
    let mut v: Vec<u8> = Vec::new();
    v.push(77);
    v.push(101);
    v.push(115);
    v.push(115);
    v.push(97);
    v.push(103);
    v.push(101);
    v.push(58);
    v.push(32);
    proof {
        assert(v@ =~= label());
    }
    v
}

/// Stateful byte-to-line accumulator for one connection.
pub struct Framer {
    acc: Vec<u8>,
}

impl Framer {
    /// The bytes currently buffered (label plus any partial line).
    pub closed spec fn acc(&self) -> Seq<u8> {
        self.acc@
    }

    /// A fresh framer holds just the label.
    pub fn new() -> (f: Framer)
        ensures
            f.acc() == label(),
    {
        Framer { acc: label_bytes() }
    }

    /// Feeds one read's worth of bytes and returns the complete frames they
    /// finish, in order. A partial tail stays buffered and is not emitted.
    pub fn feed(&mut self, input: &[u8]) -> (frames: Vec<Vec<u8>>)
        ensures
            frames.deep_view() == feed_frames(old(self).acc(), input@),
            final(self).acc() == feed_acc(old(self).acc(), input@),
    {
        let ghost acc0 = self.acc@;
        let mut frames: Vec<Vec<u8>> = Vec::new();
        let mut i: usize = 0;
        proof {
            assert(input@.take(0) =~= Seq::<u8>::empty());
            assert(frames.deep_view() =~~= Seq::<Seq<u8>>::empty());
        }
        while i < input.len()
            invariant
                0 <= i <= input.len(),
                frames.deep_view() == feed_frames(acc0, input@.take(i as int)),
                self.acc@ == feed_acc(acc0, input@.take(i as int)),
            decreases input.len() - i,
        {
            let ghost frames_before = frames.deep_view();
            let ghost acc_before = self.acc@;
            let b = input[i];
            self.acc.push(b);
            if b == TERMINATOR {
                let mut emitted = label_bytes();
                core::mem::swap(&mut self.acc, &mut emitted);
                frames.push(emitted);
                proof {
                    assert(frames.deep_view() =~~= frames_before.push(acc_before.push(b)));
                }
            }
            proof {
                lemma_feed_step(acc0, input@, i as int);
                assert(input@.take(i as int).push(input@[i as int]) =~= input@.take(i + 1 as int));
            }
            i = i + 1;
        }
        proof {
            assert(input@.take(input@.len() as int) =~= input@);
        }
        frames
    }
}

/// Feeding one more byte extends the emitted frames and accumulator exactly
/// as the framing algorithm says.
proof fn lemma_feed_step(acc: Seq<u8>, input: Seq<u8>, i: int)
    requires
        0 <= i < input.len(),
    ensures
        feed_frames(acc, input.take(i + 1)) == if input[i] == TERMINATOR {
            feed_frames(acc, input.take(i)).push(feed_acc(acc, input.take(i)).push(input[i]))
        } else {
            feed_frames(acc, input.take(i))
        },
        feed_acc(acc, input.take(i + 1)) == if input[i] == TERMINATOR {
            label()
        } else {
            feed_acc(acc, input.take(i)).push(input[i])
        },
{
    lemma_feed_split(acc, input.take(i), seq![input[i]]);
    assert(input.take(i) + seq![input[i]] =~= input.take(i + 1));
    lemma_feed_single(feed_acc(acc, input.take(i)), input[i]);
    if input[i] == TERMINATOR {
        assert(feed_frames(acc, input.take(i)) + seq![
            feed_acc(acc, input.take(i)).push(input[i]),
        ] =~= feed_frames(acc, input.take(i)).push(feed_acc(acc, input.take(i)).push(input[i])));
    } else {
        assert(feed_frames(acc, input.take(i)) + Seq::<Seq<u8>>::empty() =~= feed_frames(
            acc,
            input.take(i),
        ));
    }
}

/// Feeding a single byte emits one frame exactly when it is the terminator.
proof fn lemma_feed_single(acc: Seq<u8>, b: u8)
    ensures
        feed_frames(acc, seq![b]) == if b == TERMINATOR {
            seq![acc.push(b)]
        } else {
            Seq::<Seq<u8>>::empty()
        },
        feed_acc(acc, seq![b]) == if b == TERMINATOR {
            label()
        } else {
            acc.push(b)
        },
{
    reveal_with_fuel(feed_frames, 2);
    reveal_with_fuel(feed_acc, 2);
    assert(seq![b].skip(1) =~= Seq::<u8>::empty());
    if b == TERMINATOR {
        assert(feed_frames(acc, seq![b]) =~= seq![acc.push(b)]);
    } else {
        assert(feed_frames(acc, seq![b]) =~= Seq::<Seq<u8>>::empty());
    }
}

/// Splitting the input at any byte boundary changes neither the frames
/// emitted nor the accumulator left over: feeding `a + b` equals feeding
/// `a`, then feeding `b` into the state `a` left behind.
pub proof fn lemma_feed_split(acc: Seq<u8>, a: Seq<u8>, b: Seq<u8>)
    ensures
        feed_frames(acc, a + b) == feed_frames(acc, a) + feed_frames(feed_acc(acc, a), b),
        feed_acc(acc, a + b) == feed_acc(feed_acc(acc, a), b),
    decreases a.len(),
{
    if a.len() == 0 {
        assert(a + b =~= b);
        assert(feed_frames(acc, a) + feed_frames(feed_acc(acc, a), b) =~= feed_frames(acc, b));
    } else {
        assert((a + b).skip(1) =~= a.skip(1) + b);
        if a[0] == TERMINATOR {
            lemma_feed_split(label(), a.skip(1), b);
            assert(feed_frames(acc, a + b) =~= seq![acc.push(a[0])] + (feed_frames(
                label(),
                a.skip(1),
            ) + feed_frames(feed_acc(label(), a.skip(1)), b)));
            assert(seq![acc.push(a[0])] + (feed_frames(label(), a.skip(1)) + feed_frames(
                feed_acc(label(), a.skip(1)),
                b,
            )) =~= feed_frames(acc, a) + feed_frames(feed_acc(acc, a), b));
        } else {
            lemma_feed_split(acc.push(a[0]), a.skip(1), b);
        }
    }
}

/// An accumulator (or a frame) carrying the display label at its front.
pub open spec fn labeled(bytes: Seq<u8>) -> bool {
    bytes.len() >= label().len() && bytes.take(label().len() as int) == label()
}

/// A well-formed frame: it carries the display label at its front and the
/// terminator at its end.
pub open spec fn wf_frame(f: Seq<u8>) -> bool {
    labeled(f) && f.last() == TERMINATOR
}

/// Bytes are only ever emitted once a terminator has been observed, and
/// always behind the display label: out of a labeled accumulator, every
/// emitted frame is well-formed, and the leftover accumulator is labeled
/// again. A partial tail is never part of any frame.
pub proof fn lemma_frames_well_formed(acc: Seq<u8>, input: Seq<u8>)
    requires
        labeled(acc),
    ensures
        forall|i: int|
            0 <= i < feed_frames(acc, input).len() ==> wf_frame(
                #[trigger] feed_frames(acc, input)[i],
            ),
        labeled(feed_acc(acc, input)),
    decreases input.len(),
{
    if input.len() > 0 {
        let b = input[0];
        assert(acc.push(b).take(label().len() as int) =~= acc.take(label().len() as int));
        if b == TERMINATOR {
            assert(labeled(label())) by {
                assert(label().take(label().len() as int) =~= label());
            }
            lemma_frames_well_formed(label(), input.skip(1));
            let first = acc.push(b);
            assert(wf_frame(first));
            assert forall|i: int|
                0 <= i < feed_frames(acc, input).len() implies wf_frame(
                #[trigger] feed_frames(acc, input)[i],
            ) by {
                if i > 0 {
                    assert(feed_frames(acc, input)[i] == feed_frames(label(), input.skip(1))[i
                        - 1]);
                }
            }
        } else {
            lemma_frames_well_formed(acc.push(b), input.skip(1));
            assert(feed_frames(acc, input) == feed_frames(acc.push(b), input.skip(1)));
            assert forall|i: int|
                0 <= i < feed_frames(acc, input).len() implies wf_frame(
                #[trigger] feed_frames(acc, input)[i],
            ) by {
                assert(wf_frame(feed_frames(acc.push(b), input.skip(1))[i]));
            }
        }
    }
}

/// The frames emitted when the chunks are fed one after another, each into
/// the accumulator state the previous chunk left behind.
pub open spec fn feed_all_frames(acc: Seq<u8>, chunks: Seq<Seq<u8>>) -> Seq<Seq<u8>>
    decreases chunks.len(),
{
    if chunks.len() == 0 {
        Seq::empty()
    } else {
        feed_frames(acc, chunks[0]) + feed_all_frames(feed_acc(acc, chunks[0]), chunks.skip(1))
    }
}

/// The accumulator left over after feeding the chunks one after another.
pub open spec fn feed_all_acc(acc: Seq<u8>, chunks: Seq<Seq<u8>>) -> Seq<u8>
    decreases chunks.len(),
{
    if chunks.len() == 0 {
        acc
    } else {
        feed_all_acc(feed_acc(acc, chunks[0]), chunks.skip(1))
    }
}

/// Framing is insensitive to read-chunk boundaries: feeding a byte stream
/// split across arbitrarily many chunks, at arbitrary boundaries, emits
/// exactly the frames (and leaves exactly the accumulator) that feeding the
/// whole stream in one chunk does.
pub proof fn lemma_chunking_irrelevant(acc: Seq<u8>, chunks: Seq<Seq<u8>>)
    ensures
        feed_all_frames(acc, chunks) == feed_frames(acc, chunks.flatten()),
        feed_all_acc(acc, chunks) == feed_acc(acc, chunks.flatten()),
    decreases chunks.len(),
{
    if chunks.len() == 0 {
        assert(chunks.flatten() =~= Seq::<u8>::empty());
    } else {
        lemma_chunking_irrelevant(feed_acc(acc, chunks[0]), chunks.skip(1));
        assert(chunks.flatten() =~= chunks[0] + chunks.skip(1).flatten());
        lemma_feed_split(acc, chunks[0], chunks.skip(1).flatten());
    }
}

} // verus!
