//! Multipart upload planning and session state: a large object is cut
//! into fixed-size parts read in strict sequence, numbered from one, and
//! completed by listing every `(number, identifier)` pair in that order.
use vstd::prelude::*;

verus! {

/// How many parts a multipart upload of `n` bytes takes with part size
/// `c`: the quotient rounded up.
pub open spec fn part_count(n: int, c: int) -> int {
    (n + c - 1) / c
}

/// The size of part `i` (counted from zero): the full part size, except
/// that the last part takes what remains.
pub open spec fn spec_part_size(n: int, c: int, i: int) -> int {
    if n < (i + 1) * c {
        n - i * c
    } else {
        c
    }
}

/// One planned part: its one-based number, byte offset, and size.
#[derive(Debug, Clone, Copy, PartialEq, Eq, Structural)]
pub struct PartPlan {
    pub number: u64,
    pub offset: u64,
    pub size: u64,
}

proof fn lemma_ceil_count(n: int, c: int, k: int)
    requires
        1 <= c,
        0 <= k,
        (k - 1) * c < n,
        n <= k * c,
    ensures
        k == part_count(n, c),
{
    let x = n + c - 1;
    let r = x - k * c;
    assert((k - 1) * c == k * c - c) by (nonlinear_arith);
    assert(0 <= r < c);
    vstd::arithmetic::div_mod::lemma_fundamental_div_mod_converse(x, c, k, r);
}

/// Plans the parts of a multipart upload: `ceil(n/c)` parts numbered
/// `1..` in read order, each of the full part size except the last.
pub fn plan_parts(file_size: u64, chunk_size: u64) -> (parts: Vec<PartPlan>)
    requires
        1 <= chunk_size,
    ensures
        parts@.len() == part_count(file_size as int, chunk_size as int),
        forall|i: int|
            0 <= i < parts@.len() ==> {
                &&& (#[trigger] parts@[i]).number == i + 1
                &&& parts@[i].offset == i * (chunk_size as int)
                &&& parts@[i].size == spec_part_size(file_size as int, chunk_size as int, i)
            },
{
    let n = file_size;
    let c = chunk_size;
    let ghost ni = n as int;
    let ghost ci = c as int;
    let mut parts: Vec<PartPlan> = Vec::new();
    let mut offset: u64 = 0;
    proof {
        assert(parts@.len() == 0);
        assert(parts@.len() * ci == 0) by (nonlinear_arith)
            requires
                parts@.len() == 0,
        ;
    }
    while offset < n
        invariant
            1 <= c,
            ni == n as int,
            ci == c as int,
            offset <= n,
            parts@.len() <= offset,
            offset as int == (if parts@.len() * ci <= ni {
                parts@.len() * ci
            } else {
                ni
            }),
            forall|i: int|
                0 <= i < parts@.len() ==> {
                    &&& (#[trigger] parts@[i]).number == i + 1
                    &&& parts@[i].offset == i * ci
                    &&& parts@[i].size == spec_part_size(ni, ci, i)
                    &&& 1 <= parts@[i].size
                },
        decreases n - offset,
    {
        let ghost k = parts@.len() as int;
        proof {
            assert((k + 1) * ci == k * ci + ci) by (nonlinear_arith);
        }
        let size = if n - offset < c {
            n - offset
        } else {
            c
        };
        let number = (parts.len() as u64) + 1;
        parts.push(PartPlan { number, offset, size });
        proof {
            assert(parts@[k].size == spec_part_size(ni, ci, k));
        }
        offset = offset + size;
    }
    proof {
        let k = parts@.len() as int;
        if n == 0 {
            if k > 0 {
                assert(parts@[0].size == spec_part_size(ni, ci, 0));
                assert((0 + 1) * ci == ci) by (nonlinear_arith);
                assert(0 * ci == 0) by (nonlinear_arith);
                assert(false);
            }
            vstd::arithmetic::div_mod::lemma_basic_div(ci - 1, ci);
        } else {
            assert(offset as int == ni);
            assert(k * ci >= ni);
            assert(k >= 1) by {
                if k == 0 {
                    assert(k * ci == 0) by (nonlinear_arith)
                        requires
                            k == 0,
                    ;
                }
            }
            assert(parts@[k - 1].size == spec_part_size(ni, ci, k - 1));
            assert((k - 1) * ci < ni) by {
                if ni < k * ci {
                    assert(1 <= ni - (k - 1) * ci);
                } else {
                    assert((k - 1) * ci == k * ci - ci) by (nonlinear_arith);
                }
            }
            lemma_ceil_count(ni, ci, k);
        }
    }
    parts
}

/// The shape every multipart plan of `n` bytes with part size `c` has:
/// `ceil(n/c)` parts; every part but the last is of size `c`, and the
/// last is of size `n % c`, or `c` when `c` divides `n` exactly.
pub proof fn lemma_multipart_shape(n: int, c: int)
    requires
        1 <= c,
        1 <= n,
    ensures
        1 <= part_count(n, c),
        forall|i: int| 0 <= i < part_count(n, c) - 1 ==> spec_part_size(n, c, i) == c,
        spec_part_size(n, c, part_count(n, c) - 1) == (if n % c == 0 {
            c
        } else {
            n % c
        }),
{
    vstd::arithmetic::div_mod::lemma_fundamental_div_mod(n, c);
    let q = n / c;
    let r = n % c;
    assert(n == q * c + r) by (nonlinear_arith)
        requires
            n == c * q + r,
    ;
    if r == 0 {
        assert(q * c + (c - 1) == n + c - 1);
        vstd::arithmetic::div_mod::lemma_fundamental_div_mod_converse(n + c - 1, c, q, c - 1);
        assert(part_count(n, c) == q);
        assert(q >= 1) by (nonlinear_arith)
            requires
                n == q * c,
                n >= 1,
                c >= 1,
        ;
        assert((q - 1 + 1) * c == q * c);
        assert(!(n < q * c));
        assert(spec_part_size(n, c, q - 1) == c);
    } else {
        assert((q + 1) * c + (r - 1) == n + c - 1) by (nonlinear_arith)
            requires
                n == q * c + r,
        ;
        vstd::arithmetic::div_mod::lemma_fundamental_div_mod_converse(n + c - 1, c, q + 1, r - 1);
        assert(part_count(n, c) == q + 1);
        assert(n < (q + 1) * c && n - q * c == r) by (nonlinear_arith)
            requires
                n == q * c + r,
                r < c,
        ;
        assert((q + 1) * c == q * c + c) by (nonlinear_arith);
        assert(spec_part_size(n, c, q) == r);
    }
    assert forall|i: int| 0 <= i < part_count(n, c) - 1 implies spec_part_size(n, c, i) == c by {
        assert((i + 1) * c <= (part_count(n, c) - 1) * c) by (nonlinear_arith)
            requires
                i + 1 <= part_count(n, c) - 1,
                c >= 1,
        ;
        assert((part_count(n, c) - 1) * c < n) by {
            let k = part_count(n, c);
            if r == 0 {
                assert((k - 1) * c == n - c) by (nonlinear_arith)
                    requires
                        n == k * c,
                ;
            } else {
                assert((k - 1) * c == n - r) by (nonlinear_arith)
                    requires
                        n == (k - 1) * c + r,
                ;
            }
        }
    }
}

/// One open multipart upload: the fixed part size, the parts recorded so
/// far in read order, and whether another part may still follow.
pub struct MultipartSession {
    chunk_size: u64,
    parts: Vec<(u64, String)>,
    uploaded_bytes: u64,
    open: bool,
}

impl MultipartSession {
    /// The fixed part size.
    pub closed spec fn chunk(&self) -> u64 {
        self.chunk_size
    }

    /// The `(number, identifier)` pairs recorded so far, in read order.
    pub closed spec fn parts_view(&self) -> Seq<(u64, Seq<char>)> {
        self.parts.deep_view()
    }

    /// The bytes recorded so far.
    pub closed spec fn bytes(&self) -> u64 {
        self.uploaded_bytes
    }

    /// Whether another part may still follow.
    pub closed spec fn is_open(&self) -> bool {
        self.open
    }

    /// Parts are numbered `1..` in recording order, each took at least
    /// one byte, and the part size is positive.
    pub closed spec fn wf(&self) -> bool {
        &&& 1 <= self.chunk_size
        &&& forall|i: int|
            0 <= i < self.parts@.len() ==> (#[trigger] self.parts@[i]).0 == i + 1
        &&& self.parts@.len() <= self.uploaded_bytes
    }

    /// Opens a session with the given part size.
    pub fn new(chunk_size: u64) -> (s: Self)
        requires
            1 <= chunk_size,
        ensures
            s.wf(),
            s.chunk() == chunk_size,
            s.parts_view() == Seq::<(u64, Seq<char>)>::empty(),
            s.bytes() == 0,
            s.is_open(),
    {
        let s = MultipartSession { chunk_size, parts: Vec::new(), uploaded_bytes: 0, open: true };
        proof {
            assert(s.parts_view() =~= Seq::<(u64, Seq<char>)>::empty());
        }
        s
    }

    /// The number the next part carries.
    pub fn next_part_number(&self) -> (r: u64)
        requires
            self.wf(),
            self.bytes() < u64::MAX,
        ensures
            r == self.parts_view().len() + 1,
    {
        (self.parts.len() as u64) + 1
    }

    /// Records one part read in sequence: it is appended with the next
    /// number, and a short read closes the session.
    pub fn record_part(&mut self, bytes_read: u64, etag: String)
        requires
            old(self).wf(),
            old(self).is_open(),
            1 <= bytes_read <= old(self).chunk(),
            old(self).bytes() + bytes_read <= u64::MAX,
        ensures
            final(self).wf(),
            final(self).chunk() == old(self).chunk(),
            final(self).parts_view() == old(self).parts_view().push(
                ((old(self).parts_view().len() + 1) as u64, etag@),
            ),
            final(self).bytes() == old(self).bytes() + bytes_read,
            final(self).is_open() == (bytes_read == old(self).chunk()),
    {
        let number = (self.parts.len() as u64) + 1;
        self.parts.push((number, etag));
        self.uploaded_bytes = self.uploaded_bytes + bytes_read;
        self.open = bytes_read == self.chunk_size;
        proof {
            assert(self.parts_view() =~= old(self).parts_view().push(
                ((old(self).parts_view().len() + 1) as u64, etag@),
            ));
        }
    }

    /// Whether another part may still follow.
    pub fn still_open(&self) -> (r: bool)
        ensures
            r == self.is_open(),
    {
        self.open
    }

    /// The cumulative bytes recorded, for progress reporting.
    pub fn bytes_recorded(&self) -> (r: u64)
        ensures
            r == self.bytes(),
    {
        self.uploaded_bytes
    }

    /// Hands out the completion list: every recorded `(number,
    /// identifier)` pair, numbered `1..` in recording order.
    pub fn into_parts(self) -> (r: Vec<(u64, String)>)
        ensures
            r.deep_view() == self.parts_view(),
    {
        let MultipartSession { parts, .. } = self;
        parts
    }
}

} // verus!
