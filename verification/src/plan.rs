//! The transmission plan: the payload, the pacing parameters, and the
//! arithmetic that cuts one pass over the payload into chunks.

use vstd::prelude::*;
use vstd::arithmetic::div_mod::{
    lemma_fundamental_div_mod, lemma_fundamental_div_mod_converse, lemma_mod_bound,
};
use crate::error::ConfigError;

verus! {

/// The mathematical content of a [`Plan`].
pub struct PlanView {
    /// The full content to transmit.
    pub payload: Seq<u8>,
    /// Bytes written per pacing step.
    pub chunk_size: nat,
    /// Milliseconds between two successive chunks.
    pub interval: nat,
    /// Whether the payload is sent again after each pass.
    pub repeat: bool,
    /// The cap on the bytes of one pass, if any.
    pub max_bytes: Option<nat>,
}

impl PlanView {
    /// A plan is well formed when its chunk size and its cap, if it has one,
    /// are positive.
    pub open spec fn wf(self) -> bool {
        &&& self.chunk_size >= 1
        &&& self.max_bytes matches Some(m) ==> m >= 1
    }

    /// The number of bytes of one pass: the cap where it is set and smaller
    /// than the payload, the payload's length otherwise.
    pub open spec fn limit(self) -> nat {
        match self.max_bytes {
            Some(m) if m < self.payload.len() => m,
            _ => self.payload.len(),
        }
    }

    /// The bytes of one pass.
    pub open spec fn pass(self) -> Seq<u8> {
        self.payload.subrange(0, self.limit() as int)
    }

    /// Whether the chunk that starts at `pos` is the last of its pass: what
    /// remains from `pos` fits in one chunk.
    pub open spec fn is_last(self, pos: nat) -> bool {
        pos + self.chunk_size >= self.limit()
    }

    /// Where the chunk that starts at `pos` ends.
    pub open spec fn chunk_end(self, pos: nat) -> nat {
        if self.is_last(pos) {
            self.limit()
        } else {
            pos + self.chunk_size
        }
    }

    /// The bytes of the chunk that starts at `pos`.
    pub open spec fn chunk(self, pos: nat) -> Seq<u8> {
        self.payload.subrange(pos as int, self.chunk_end(pos) as int)
    }

    /// Where chunk number `i` of a pass starts, the first chunk being number 0.
    pub open spec fn chunk_start(self, i: nat) -> nat {
        i * self.chunk_size
    }

    /// Whether a chunk of the pass starts at `pos`: `pos` is a multiple of
    /// the chunk size and lies inside the pass, or the pass is empty and `pos`
    /// is its start.
    pub open spec fn is_chunk_start(self, pos: nat) -> bool {
        &&& pos % self.chunk_size == 0
        &&& pos < self.limit() || pos == 0
    }

    /// The number of chunks of one pass. An empty pass still has one chunk,
    /// which is empty.
    pub open spec fn chunk_count(self) -> nat {
        if self.limit() == 0 {
            1
        } else {
            ((self.limit() - 1) / (self.chunk_size as int) + 1) as nat
        }
    }
}

impl PlanView {
    /// The places where a chunk starts are the starts of the numbered
    /// chunks, and no others.
    pub proof fn lemma_is_chunk_start(self, pos: nat)
        requires
            self.wf(),
        ensures
            self.is_chunk_start(pos) <==> exists|i: nat|
                i < self.chunk_count() && pos == #[trigger] self.chunk_start(i),
    {
        let c = self.chunk_size as int;
        if self.is_chunk_start(pos) {
            let i = pos / self.chunk_size;
            lemma_fundamental_div_mod(pos as int, c);
            assert(c * (pos as int / c) == (pos as int / c) * c) by (nonlinear_arith);
            assert(pos == self.chunk_start(i));
            if self.limit() > 0 {
                assert(pos as int / c <= (self.limit() - 1) / c) by (nonlinear_arith)
                    requires
                        0 <= pos <= self.limit() - 1,
                        c >= 1,
                ;
            }
            assert(i < self.chunk_count());
        }
        if exists|i: nat| i < self.chunk_count() && pos == #[trigger] self.chunk_start(i) {
            let i = choose|i: nat| i < self.chunk_count() && pos == #[trigger] self.chunk_start(i);
            self.lemma_chunk_start(i);
            lemma_fundamental_div_mod_converse(pos as int, c, i as int, 0);
        }
    }

    /// The chunks of a pass lie one after the other inside the pass, and the
    /// one with the highest number is the last.
    pub proof fn lemma_chunk_start(self, i: nat)
        requires
            self.wf(),
            i < self.chunk_count(),
        ensures
            self.chunk_start(0) == 0,
            self.chunk_start(i) <= self.limit(),
            self.limit() > 0 ==> self.chunk_start(i) < self.limit(),
            self.chunk_start(i + 1) == self.chunk_start(i) + self.chunk_size,
            self.is_last(self.chunk_start(i)) <==> i + 1 == self.chunk_count(),
    {
        let c = self.chunk_size as int;
        let l = self.limit() as int;
        assert(0 * c == 0) by (nonlinear_arith);
        assert((i + 1) * c == i * c + c) by (nonlinear_arith);
        if l > 0 {
            let q = (l - 1) / c;
            let r = (l - 1) % c;
            lemma_fundamental_div_mod(l - 1, c);
            lemma_mod_bound(l - 1, c);
            assert(c * q == q * c) by (nonlinear_arith);
            assert(i * c <= q * c) by (nonlinear_arith)
                requires
                    0 <= i <= q,
                    c >= 1,
            ;
            if i < q {
                assert((i + 1) * c <= q * c) by (nonlinear_arith)
                    requires
                        0 <= i + 1 <= q,
                        c >= 1,
                ;
            }
        }
    }

    /// Every chunk of a pass but the last holds `chunk_size` bytes. The last
    /// holds the remainder of the pass's length by the chunk size or, where
    /// that is zero and the pass is not empty, a full chunk.
    pub proof fn lemma_chunk_len(self, i: nat)
        requires
            self.wf(),
            i < self.chunk_count(),
        ensures
            self.chunk(self.chunk_start(i)).len() == if i + 1 < self.chunk_count() {
                self.chunk_size
            } else if self.limit() == 0 {
                0
            } else if self.limit() % self.chunk_size == 0 {
                self.chunk_size
            } else {
                self.limit() % self.chunk_size
            },
    {
        self.lemma_chunk_start(i);
        let c = self.chunk_size as int;
        let l = self.limit() as int;
        if i + 1 == self.chunk_count() && l > 0 {
            let q = (l - 1) / c;
            let r = (l - 1) % c;
            lemma_fundamental_div_mod(l - 1, c);
            lemma_mod_bound(l - 1, c);
            assert(c * q == q * c) by (nonlinear_arith);
            if r + 1 == c {
                assert(l == (q + 1) * c + 0) by (nonlinear_arith)
                    requires
                        l - 1 == q * c + r,
                        r + 1 == c,
                ;
                lemma_fundamental_div_mod_converse(l, c, q + 1, 0);
            } else {
                lemma_fundamental_div_mod_converse(l, c, q, r + 1);
            }
        }
    }
}

/// A cap as a natural number.
pub open spec fn cap_view(max_bytes: Option<usize>) -> Option<nat> {
    match max_bytes {
        Some(m) => Some(m as nat),
        None => None,
    }
}

/// The plan that the given values make, or why they make none: a chunk size
/// of zero is refused first, then a cap of zero. A plan that is made is well
/// formed.
pub open spec fn planned(
    payload: Seq<u8>,
    chunk_size: usize,
    interval: u64,
    repeat: bool,
    max_bytes: Option<usize>,
) -> Result<PlanView, ConfigError> {
    if chunk_size == 0 {
        Err(ConfigError::ZeroChunkSize)
    } else if max_bytes == Some(0usize) {
        Err(ConfigError::ZeroMaxBytes)
    } else {
        Ok(
            PlanView {
                payload,
                chunk_size: chunk_size as nat,
                interval: interval as nat,
                repeat,
                max_bytes: cap_view(max_bytes),
            },
        )
    }
}

/// What drives every connection: the payload and the pacing parameters.
/// A plan never changes once built, so any number of connections may read
/// one plan at the same time.
pub struct Plan {
    payload: Vec<u8>,
    chunk_size: usize,
    interval: u64,
    repeat: bool,
    max_bytes: Option<usize>,
}

impl View for Plan {
    type V = PlanView;

    closed spec fn view(&self) -> PlanView {
        PlanView {
            payload: self.payload@,
            chunk_size: self.chunk_size as nat,
            interval: self.interval as nat,
            repeat: self.repeat,
            max_bytes: cap_view(self.max_bytes),
        }
    }
}

impl Plan {
    #[verifier::type_invariant]
    pub(crate) open spec fn inv(&self) -> bool {
        self@.wf()
    }

    /// Builds a plan, or says why the values make none.
    pub fn new(
        payload: Vec<u8>,
        chunk_size: usize,
        interval: u64,
        repeat: bool,
        max_bytes: Option<usize>,
    ) -> (r: Result<Plan, ConfigError>)
        ensures
            match r {
                Ok(plan) => planned(payload@, chunk_size, interval, repeat, max_bytes) == Ok::<
                    PlanView,
                    ConfigError,
                >(plan@),
                Err(e) => planned(payload@, chunk_size, interval, repeat, max_bytes) == Err::<
                    PlanView,
                    ConfigError,
                >(e),
            },
    {
        if chunk_size == 0 {
            return Err(ConfigError::ZeroChunkSize);
        }
        if let Some(m) = max_bytes {
            if m == 0 {
                return Err(ConfigError::ZeroMaxBytes);
            }
        }
        Ok(Plan { payload, chunk_size, interval, repeat, max_bytes })
    }

    /// The number of bytes of one pass.
    pub fn limit(&self) -> (r: usize)
        ensures
            r == self@.limit(),
    {
        match self.max_bytes {
            Some(m) if m < self.payload.len() => m,
            _ => self.payload.len(),
        }
    }

    /// Where the chunk that starts at `pos` ends.
    pub fn chunk_end(&self, pos: usize) -> (r: usize)
        ensures
            r == self@.chunk_end(pos as nat),
    {
        let limit: usize = self.limit();
        if pos < limit && self.chunk_size < limit - pos {
            pos + self.chunk_size
        } else {
            limit
        }
    }

    /// Bytes written per pacing step: at least one.
    pub fn chunk_size(&self) -> (r: usize)
        ensures
            r == self@.chunk_size,
            r >= 1,
            self@.wf(),
    {
        proof {
            use_type_invariant(self);
        }
        self.chunk_size
    }

    /// Milliseconds between two successive chunks.
    pub fn interval(&self) -> (r: u64)
        ensures
            r == self@.interval,
    {
        self.interval
    }

    /// Whether the payload is sent again after each pass.
    pub fn repeat(&self) -> (r: bool)
        ensures
            r == self@.repeat,
    {
        self.repeat
    }

    /// The cap on the bytes of one pass, if any.
    pub fn max_bytes(&self) -> (r: Option<usize>)
        ensures
            self@.max_bytes == cap_view(r),
    {
        self.max_bytes
    }

    /// The full content to transmit.
    pub fn payload(&self) -> (r: &[u8])
        ensures
            r@ == self@.payload,
    {
        self.payload.as_slice()
    }

    /// The number of chunks of one pass.
    pub fn chunk_count(&self) -> (r: usize)
        ensures
            r == self@.chunk_count(),
    {
        proof {
            use_type_invariant(self);
        }
        let limit: usize = self.limit();
        if limit == 0 {
            1
        } else {
            assert((limit - 1) / (self.chunk_size as int) <= limit - 1) by (nonlinear_arith)
                requires
                    limit >= 1,
                    self.chunk_size >= 1,
            ;
            (limit - 1) / self.chunk_size + 1
        }
    }
}

} // verus!
