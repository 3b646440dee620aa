//! Lock-step byte comparison: fixed-size chunks from two sources are
//! compared in sequence; the first differing byte is reported with its
//! one-based offset and line number, and a source that ends first is
//! reported as shorter.
use vstd::prelude::*;

verus! {

/// The number of line breaks in the bytes.
pub open spec fn spec_count_lines(b: Seq<u8>) -> int
    decreases b.len(),
{
    if b.len() == 0 {
        0
    } else {
        spec_count_lines(b.drop_last()) + if b.last() == 10 {
            1int
        } else {
            0int
        }
    }
}

/// Counts the line breaks in the first `k` bytes.
pub fn count_lines_to(buf: &[u8], k: usize) -> (r: u64)
    requires
        k <= buf@.len(),
    ensures
        r == spec_count_lines(buf@.take(k as int)),
{
    let mut r: u64 = 0;
    let mut i: usize = 0;
    while i < k
        invariant
            i <= k <= buf@.len(),
            r <= i,
            r == spec_count_lines(buf@.take(i as int)),
        decreases k - i,
    {
        proof {
            assert(buf@.take(i + 1).drop_last() =~= buf@.take(i as int));
            assert(buf@.take(i + 1).last() == buf@[i as int]);
        }
        if buf[i] == 10 {
            r = r + 1;
        }
        i = i + 1;
    }
    r
}

/// Counts the line breaks in the bytes.
pub fn count_lines(buf: &[u8]) -> (r: u64)
    ensures
        r == spec_count_lines(buf@),
{
    let r = count_lines_to(buf, buf.len());
    proof {
        assert(buf@.take(buf@.len() as int) =~= buf@);
    }
    r
}

/// The position of the first differing byte within the common prefix of
/// the two sequences, if any.
pub open spec fn spec_first_mismatch(a: Seq<u8>, b: Seq<u8>) -> Option<int>
    decreases a.len(),
{
    if a.len() == 0 || b.len() == 0 {
        None
    } else if a[0] != b[0] {
        Some(0int)
    } else {
        match spec_first_mismatch(a.drop_first(), b.drop_first()) {
            Some(i) => Some(i + 1),
            None => None,
        }
    }
}

proof fn lemma_first_mismatch_at(a: Seq<u8>, b: Seq<u8>, i: int)
    requires
        0 <= i,
        i <= a.len(),
        i <= b.len(),
        forall|j: int| 0 <= j < i ==> a[j] == b[j],
        (i < a.len() && i < b.len()) ==> a[i] != b[i],
    ensures
        spec_first_mismatch(a, b) == (if i < a.len() && i < b.len() {
            Some(i)
        } else {
            None::<int>
        }),
    decreases i,
{
    if i > 0 {
        assert(a[0] == b[0]);
        lemma_first_mismatch_at(a.drop_first(), b.drop_first(), i - 1);
    }
}

/// Finds the first differing byte within the common prefix of the two
/// buffers.
pub fn first_mismatch(a: &[u8], b: &[u8]) -> (r: Option<usize>)
    ensures
        match r {
            Some(i) => spec_first_mismatch(a@, b@) == Some(i as int),
            None => spec_first_mismatch(a@, b@) is None,
        },
{
    let n = if a.len() < b.len() {
        a.len()
    } else {
        b.len()
    };
    let mut i: usize = 0;
    while i < n
        invariant
            i <= n,
            n == (if a@.len() < b@.len() {
                a@.len()
            } else {
                b@.len()
            }),
            forall|j: int| 0 <= j < i ==> a@[j] == b@[j],
        decreases n - i,
    {
        if a[i] != b[i] {
            proof {
                lemma_first_mismatch_at(a@, b@, i as int);
            }
            return Some(i);
        }
        i = i + 1;
    }
    proof {
        lemma_first_mismatch_at(a@, b@, n as int);
    }
    None
}

/// Where a comparison stands: bytes consumed so far, and line breaks seen
/// in the left source so far.
#[derive(Debug, Clone, Copy, PartialEq, Eq, Structural)]
pub struct CmpState {
    pub pos: u64,
    pub lines: u64,
}

/// What one lock-step chunk yields: more to read, a difference with its
/// one-based offset and line, one side ending early, or both done.
#[derive(Debug, Clone, Copy, PartialEq, Eq, Structural)]
pub enum CmpStep {
    Continue(CmpState),
    Differ { offset: u64, line: u64 },
    ShorterLeft,
    ShorterRight,
    Done,
}

/// What comparing one pair of chunks yields: the first differing byte at
/// its one-based absolute offset and one-based cumulative line; with the
/// common prefix equal, the shorter side is reported, empty chunks end
/// the comparison, and otherwise the state advances.
pub open spec fn spec_cmp_step(st: CmpState, c1: Seq<u8>, c2: Seq<u8>) -> CmpStep {
    let n1 = c1.len() as int;
    let n2 = c2.len() as int;
    let n = if n1 < n2 {
        n1
    } else {
        n2
    };
    match spec_first_mismatch(c1, c2) {
        Some(i) => CmpStep::Differ {
            offset: (st.pos + i + 1) as u64,
            line: (st.lines + spec_count_lines(c1.take(i)) + 1) as u64,
        },
        None => if n1 != n2 {
            if n1 < n2 {
                CmpStep::ShorterLeft
            } else {
                CmpStep::ShorterRight
            }
        } else if n1 == 0 {
            CmpStep::Done
        } else {
            CmpStep::Continue(
                CmpState {
                    pos: (st.pos + n) as u64,
                    lines: (st.lines + spec_count_lines(c1.take(n))) as u64,
                },
            )
        },
    }
}

proof fn lemma_first_mismatch_bounds(a: Seq<u8>, b: Seq<u8>)
    ensures
        spec_first_mismatch(a, b) matches Some(i) ==> 0 <= i && i < a.len() && i < b.len(),
    decreases a.len(),
{
    if a.len() > 0 && b.len() > 0 && a[0] == b[0] {
        lemma_first_mismatch_bounds(a.drop_first(), b.drop_first());
    }
}

proof fn lemma_count_lines_bound(b: Seq<u8>)
    ensures
        0 <= spec_count_lines(b) <= b.len(),
    decreases b.len(),
{
    if b.len() > 0 {
        lemma_count_lines_bound(b.drop_last());
    }
}

/// Compares one pair of lock-step chunks and advances the comparison.
pub fn cmp_chunk_step(st: CmpState, chunk1: &[u8], chunk2: &[u8]) -> (r: CmpStep)
    requires
        st.pos + chunk1@.len() <= u64::MAX,
        st.lines + chunk1@.len() <= u64::MAX,
    ensures
        r == spec_cmp_step(st, chunk1@, chunk2@),
{
    proof {
        lemma_first_mismatch_bounds(chunk1@, chunk2@);
    }
    match first_mismatch(chunk1, chunk2) {
        Some(i) => {
            proof {
                lemma_count_lines_bound(chunk1@.take(i as int));
            }
            let line_breaks = count_lines_to(chunk1, i);
            CmpStep::Differ { offset: st.pos + (i as u64) + 1, line: st.lines + line_breaks + 1 }
        },
        None => {
            let n1 = chunk1.len();
            let n2 = chunk2.len();
            if n1 != n2 {
                if n1 < n2 {
                    CmpStep::ShorterLeft
                } else {
                    CmpStep::ShorterRight
                }
            } else if n1 == 0 {
                CmpStep::Done
            } else {
                proof {
                    lemma_count_lines_bound(chunk1@.take(n1 as int));
                }
                let line_breaks = count_lines_to(chunk1, n1);
                CmpStep::Continue(
                    CmpState { pos: st.pos + (n1 as u64), lines: st.lines + line_breaks },
                )
            }
        },
    }
}

/// One lock-step comparison in progress. A verdict other than
/// `Continue` ends it: a finished session admits no further chunk, so a
/// difference or an early end stops the comparison where it stands.
pub struct CmpSession {
    state: CmpState,
    finished: bool,
}

impl CmpSession {
    /// The running position and line count.
    pub closed spec fn cur(&self) -> CmpState {
        self.state
    }

    /// Whether a verdict has been reached.
    pub closed spec fn is_finished(&self) -> bool {
        self.finished
    }

    /// Starts a comparison at the resolved start position.
    pub fn new(start: u64) -> (s: Self)
        ensures
            s.cur() == (CmpState { pos: start, lines: 0 }),
            !s.is_finished(),
    {
        CmpSession { state: CmpState { pos: start, lines: 0 }, finished: false }
    }

    /// Compares the next pair of lock-step chunks. Only `Continue` leaves
    /// the session open for another chunk.
    pub fn step(&mut self, chunk1: &[u8], chunk2: &[u8]) -> (r: CmpStep)
        requires
            !old(self).is_finished(),
            old(self).cur().pos + chunk1@.len() <= u64::MAX,
            old(self).cur().lines + chunk1@.len() <= u64::MAX,
        ensures
            r == spec_cmp_step(old(self).cur(), chunk1@, chunk2@),
            final(self).is_finished() == !(r is Continue),
            r matches CmpStep::Continue(next) ==> final(self).cur() == next,
            !(r is Continue) ==> final(self).cur() == old(self).cur(),
    {
        let r = cmp_chunk_step(self.state, chunk1, chunk2);
        match r {
            CmpStep::Continue(next) => {
                self.state = next;
            },
            _ => {
                self.finished = true;
            },
        }
        r
    }

    /// How many bytes the comparison has consumed beyond its start.
    pub fn position(&self) -> (r: u64)
        ensures
            r == self.cur().pos,
    {
        self.state.pos
    }

    /// How many line breaks the left source has shown so far.
    pub fn line_count(&self) -> (r: u64)
        ensures
            r == self.cur().lines,
    {
        self.state.lines
    }
}

/// The verdict after the compared bytes matched: when no range option
/// was requested at all, differing whole-object sizes still make the
/// shorter side the lesser input; when an explicit range was requested,
/// or the sizes agree, the inputs are identical within the compared
/// range.
pub fn cmp_final(range_requested: bool, size1: u64, size2: u64) -> (r: CmpStep)
    ensures
        r == (if !range_requested && size1 != size2 {
            if size1 < size2 {
                CmpStep::ShorterLeft
            } else {
                CmpStep::ShorterRight
            }
        } else {
            CmpStep::Done
        }),
{
    if !range_requested && size1 != size2 {
        if size1 < size2 {
            CmpStep::ShorterLeft
        } else {
            CmpStep::ShorterRight
        }
    } else {
        CmpStep::Done
    }
}

} // verus!
