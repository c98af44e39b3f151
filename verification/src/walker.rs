use vstd::prelude::*;
use crate::errors::Error;

verus! {

/// The located stack frame: its index, the address it starts at (the stack
/// pointer at that depth), and its byte length. The length is kept wide
/// because it is a pointer difference plus a word, which can exceed the
/// machine word when the frame spans the whole address range.
#[derive(Clone, Copy, Debug, PartialEq, Eq, Structural)]
pub struct Frame {
    pub index: u64,
    pub start: u64,
    pub len: u128,
}

/// Walks the chain of saved base pointers one dereference at a time.
///
/// At depth k the base pointer is found by reading one word at the base
/// pointer of depth k-1, and the stack pointer of depth k sits one word
/// above that base pointer. The walker holds the pointers of the depth
/// reached so far; the caller performs the memory reads it asks for through
/// `next_read` and hands the value back through `feed`, so the walk itself
/// stays independent of how memory is fetched.
#[derive(Clone, Copy, Debug)]
pub struct FrameWalker {
    /// Bytes per machine word of the target.
    pub width: u64,
    /// The requested frame index.
    pub target: u64,
    /// How many chain steps have been taken.
    pub depth: u64,
    /// The stack pointer the walk started from, the frame-zero answer.
    pub sp0: u64,
    /// The base pointer at the current depth.
    pub bp: u64,
    /// The base pointer of the previous depth, once a step has been taken:
    /// the current stack pointer is one word above it.
    pub prev_bp: Option<u64>,
}

impl FrameWalker {
    /// The state is consistent: never past the target, and exactly the
    /// starting depth has no previous base pointer.
    pub open spec fn wf(self) -> bool {
        &&& self.depth <= self.target
        &&& (self.depth == 0 <==> self.prev_bp is None)
    }

    /// The stack pointer at the current depth, in unbounded arithmetic: the
    /// starting stack pointer at depth zero, one word above the previous
    /// base pointer afterwards. It can exceed the machine word by one word.
    pub open spec fn spec_sp(self) -> int {
        match self.prev_bp {
            None => self.sp0 as int,
            Some(p) => p + self.width,
        }
    }

    /// Begin a walk at the given pointers, aiming at frame `target`.
    pub fn new(width: u64, sp: u64, bp: u64, target: u64) -> (w: FrameWalker)
        ensures
            w.wf(),
            w.width == width,
            w.target == target,
            w.depth == 0,
            w.sp0 == sp,
            w.bp == bp,
            w.prev_bp is None,
    {
        FrameWalker { width, target, depth: 0, sp0: sp, bp, prev_bp: None }
    }

    /// The address the walk needs read next — the current base pointer,
    /// where the caller's saved base pointer lies — or nothing once the
    /// target depth is reached. A walk aimed at frame zero never asks.
    pub fn next_read(&self) -> (r: Option<u64>)
        ensures
            r == (if self.depth < self.target {
                Some(self.bp)
            } else {
                None::<u64>
            }),
    {
        if self.depth < self.target {
            Some(self.bp)
        } else {
            None
        }
    }

    /// Take one chain step with the word read at the current base pointer.
    ///
    /// A null saved base pointer marks the outermost frame, so the walk
    /// stops there and reports how many frames the chain actually holds:
    /// the depths walked through plus the frame the walk stands in.
    pub fn feed(&mut self, value: u64) -> (r: Result<(), Error>)
        requires
            old(self).wf(),
            old(self).depth < old(self).target,
        ensures
            final(self).wf(),
            value == 0 ==> r == Err::<(), Error>((Error::FrameOutOfBounds {
                available: (old(self).depth + 1) as u64,
            })) && *final(self) == *old(self),
            value != 0 ==> {
                &&& r is Ok
                &&& final(self).width == old(self).width
                &&& final(self).target == old(self).target
                &&& final(self).sp0 == old(self).sp0
                &&& final(self).depth == old(self).depth + 1
                &&& final(self).bp == value
                &&& final(self).prev_bp == Some(old(self).bp)
            },
    {
        if value == 0 {
            Err(Error::FrameOutOfBounds { available: self.depth + 1 })
        } else {
            self.prev_bp = Some(self.bp);
            self.bp = value;
            self.depth = self.depth + 1;
            Ok(())
        }
    }

    /// Size the frame once the target depth is reached.
    ///
    /// The frame runs from the stack pointer up to one word past the base
    /// pointer, so its length is exactly base pointer minus stack pointer
    /// plus one word. If the stack pointer lies above the base pointer the
    /// two are out of their expected order and the frame cannot be sized:
    /// that is reported, never a wrapped or negative length.
    pub fn finish(&self) -> (r: Result<Frame, Error>)
        requires
            self.wf(),
            self.depth == self.target,
        ensures
            self.spec_sp() <= self.bp ==> r == Ok::<Frame, Error>((Frame {
                index: self.target,
                start: self.spec_sp() as u64,
                len: (self.bp - self.spec_sp() + self.width) as u128,
            })),
            self.spec_sp() > self.bp ==> r == Err::<Frame, Error>((Error::PointerOrder {
                sp: self.spec_sp() as u128,
                bp: self.bp as u128,
            })),
    {
        let sp_wide: u128 = match self.prev_bp {
            None => self.sp0 as u128,
            Some(p) => p as u128 + self.width as u128,
        };
        let bp_wide: u128 = self.bp as u128;
        if sp_wide > bp_wide {
            Err(Error::PointerOrder { sp: sp_wide, bp: bp_wide })
        } else {
            Ok(Frame {
                index: self.target,
                start: sp_wide as u64,
                len: bp_wide - sp_wide + self.width as u128,
            })
        }
    }
}

/// What a full walk comes to.
pub enum ChainOutcome {
    /// Every requested step was taken; the frame's stack pointer (in
    /// unbounded arithmetic) and base pointer.
    Reached { sp: int, bp: u64 },
    /// A null saved base pointer stopped the walk; the chain holds
    /// `available` frames.
    OutOfBounds { available: nat },
    /// The read log ran out before the walk did.
    Exhausted,
}

/// Shift an out-of-bounds count by the steps already taken; any other
/// outcome passes through.
pub open spec fn lift_oob(o: ChainOutcome, k: nat) -> ChainOutcome {
    match o {
        ChainOutcome::OutOfBounds { available } => ChainOutcome::OutOfBounds {
            available: available + k,
        },
        _ => o,
    }
}

/// The whole walk in one stroke: from (sp, bp), take `target` steps, where
/// `reads[k]` is the word memory held at the base pointer dereferenced at
/// step k. Each step moves the stack pointer one word above the old base
/// pointer and adopts the read word as the new base pointer; a null word
/// ends the walk with the number of frames seen.
pub open spec fn chain_walk(width: u64, sp: int, bp: u64, target: nat, reads: Seq<u64>) -> ChainOutcome
    decreases target,
{
    if target == 0 {
        ChainOutcome::Reached { sp, bp }
    } else if reads.len() == 0 {
        ChainOutcome::Exhausted
    } else if reads[0] == 0 {
        ChainOutcome::OutOfBounds { available: 1 }
    } else {
        lift_oob(chain_walk(width, bp + width, reads[0], (target - 1) as nat, reads.skip(1)), 1)
    }
}

/// Asking for frame zero is answered from the starting pointers alone:
/// whatever the read log holds, none of it is consumed and the outcome is
/// the inputs unchanged.
pub proof fn lemma_frame_zero_is_input(width: u64, sp: u64, bp: u64, reads: Seq<u64>)
    ensures
        chain_walk(width, sp as int, bp, 0, reads) == (ChainOutcome::Reached {
            sp: sp as int,
            bp,
        }),
{
}

/// On a chain holding exactly `avail` frames — the saved base pointers read
/// before depth `avail` all non-null, the one read at depth `avail` null —
/// a request below `avail` reaches its frame, and a request at or beyond
/// `avail` reports out of bounds with exactly `avail` frames available.
pub proof fn lemma_chain_depth(
    width: u64,
    sp: int,
    bp: u64,
    target: nat,
    reads: Seq<u64>,
    avail: nat,
)
    requires
        1 <= avail <= reads.len(),
        forall|k: int| 0 <= k < avail - 1 ==> reads[k] != 0,
        reads[avail - 1] == 0,
    ensures
        target < avail ==> chain_walk(width, sp, bp, target, reads) is Reached,
        target >= avail ==> chain_walk(width, sp, bp, target, reads) == (ChainOutcome::OutOfBounds {
            available: avail,
        }),
    decreases target,
{
    if target == 0 {
    } else if avail == 1 {
        assert(reads[0] == 0);
    } else {
        assert(reads[0] != 0);
        assert(reads.skip(1)[avail - 2] == reads[avail - 1]);
        assert(forall|k: int| 0 <= k < avail - 2 ==> reads.skip(1)[k] == #[trigger] reads[k + 1]);
        lemma_chain_depth(
            width,
            bp + width,
            reads[0],
            (target - 1) as nat,
            reads.skip(1),
            (avail - 1) as nat,
        );
    }
}

/// Resolve a frame against a pre-fetched read log: `reads[k]` is the word
/// memory held at the base pointer the walk dereferences at step k. The
/// walk consumes one entry per step, so the log must cover the requested
/// index. This is the one-stroke form of the step-by-step walker, and it
/// answers exactly as `chain_walk` says.
pub fn resolve_chain(width: u64, sp: u64, bp: u64, target: u64, reads: &[u64]) -> (r: Result<
    Frame,
    Error,
>)
    requires
        reads@.len() >= target,
    ensures
        (match chain_walk(width, sp as int, bp, target as nat, reads@.take(target as int)) {
            ChainOutcome::Reached { sp: fsp, bp: fbp } => if fsp <= fbp {
                r == Ok::<Frame, Error>((Frame {
                    index: target,
                    start: fsp as u64,
                    len: (fbp - fsp + width) as u128,
                }))
            } else {
                r == Err::<Frame, Error>((Error::PointerOrder {
                    sp: fsp as u128,
                    bp: fbp as u128,
                }))
            },
            ChainOutcome::OutOfBounds { available } => r == Err::<Frame, Error>(
                (Error::FrameOutOfBounds { available: available as u64 }),
            ),
            ChainOutcome::Exhausted => false,
        }),
{
    let ghost full = chain_walk(width, sp as int, bp, target as nat, reads@.take(target as int));
    let mut w = FrameWalker::new(width, sp, bp, target);
    let mut i: usize = 0;
    proof {
        assert(reads@.take(target as int) =~= reads@.subrange(0, target as int));
        assert(lift_oob(
            chain_walk(width, w.spec_sp(), w.bp, (target - 0) as nat, reads@.subrange(0, target as int)),
            0,
        ) == chain_walk(width, w.spec_sp(), w.bp, (target - 0) as nat, reads@.subrange(0, target as int)));
    }
    while (i as u64) < target
        invariant
            w.wf(),
            w.width == width,
            w.target == target,
            w.depth == i,
            i as u64 <= target,
            reads@.len() >= target,
            full == chain_walk(width, sp as int, bp, target as nat, reads@.take(target as int)),
            full == lift_oob(
                chain_walk(
                    width,
                    w.spec_sp(),
                    w.bp,
                    (target - i) as nat,
                    reads@.subrange(i as int, target as int),
                ),
                i as nat,
            ),
        decreases target - i,
    {
        let ghost pre = w;
        let ghost rest = reads@.subrange(i as int, target as int);
        let value = reads[i];
        proof {
            assert(rest.len() == target - i >= 1);
            assert(rest[0] == reads@[i as int]);
        }
        match w.feed(value) {
            Err(e) => {
                proof {
                    assert(chain_walk(width, pre.spec_sp(), pre.bp, (target - i) as nat, rest)
                        == (ChainOutcome::OutOfBounds { available: 1 }));
                    assert(full == (ChainOutcome::OutOfBounds { available: (i + 1) as nat }));
                }
                return Err(e);
            },
            Ok(_) => {
                proof {
                    assert(rest.skip(1) =~= reads@.subrange(i as int + 1, target as int));
                    assert(chain_walk(width, pre.spec_sp(), pre.bp, (target - i) as nat, rest)
                        == lift_oob(
                        chain_walk(
                            width,
                            pre.bp + width,
                            value,
                            (target - i - 1) as nat,
                            rest.skip(1),
                        ),
                        1,
                    ));
                    assert(lift_oob(
                        lift_oob(
                            chain_walk(
                                width,
                                pre.bp + width,
                                value,
                                (target - i - 1) as nat,
                                rest.skip(1),
                            ),
                            1,
                        ),
                        i as nat,
                    ) == lift_oob(
                        chain_walk(
                            width,
                            pre.bp + width,
                            value,
                            (target - i - 1) as nat,
                            rest.skip(1),
                        ),
                        (i + 1) as nat,
                    ));
                }
                i = i + 1;
            },
        }
    }
    proof {
        assert(reads@.subrange(i as int, target as int).len() == 0);
        assert(full == (ChainOutcome::Reached { sp: w.spec_sp(), bp: w.bp }));
    }
    w.finish()
}

} // verus!
