//! Chunking: accumulating an unbounded sample stream into fixed-size chunks.
//!
//! Incoming batches of arbitrary length are appended to an internal buffer;
//! whole chunks of exactly `samples_per_chunk` samples are cut off its front
//! and handed downstream, and the residue stays buffered for the next batch.
//! The buffer is deliberately unbounded between calls: the chunk duration
//! must be short against the delivery cadence, so that in practice the
//! buffer never outgrows a few chunks. That trade-off buys simplicity and
//! low latency on the delivery path.
use vstd::prelude::*;
use vstd::arithmetic::div_mod::lemma_fundamental_div_mod_converse;
use vstd::arithmetic::mul::lemma_mul_by_zero_is_zero;

verus! {

/// Cuts a continuous sample stream into chunks of a fixed number of
/// samples.
pub struct Chunker {
    /// Samples not yet handed out as part of a whole chunk.
    pub buffer: Vec<i32>,
    /// The fixed chunk length, in samples.
    pub samples_per_chunk: usize,
}

impl Chunker {
    /// Chunks are non-empty and the residue is always shorter than one
    /// chunk.
    pub open spec fn wf(&self) -> bool {
        &&& self.samples_per_chunk >= 1
        &&& self.buffer@.len() < self.samples_per_chunk
    }

    /// A chunker with an empty buffer.
    pub fn new(samples_per_chunk: usize) -> (r: Self)
        requires
            samples_per_chunk >= 1,
        ensures
            r.samples_per_chunk == samples_per_chunk,
            r.buffer@ == Seq::<i32>::empty(),
            r.wf(),
    {
        Chunker { buffer: Vec::new(), samples_per_chunk }
    }

    /// Feeds one incoming batch and returns every whole chunk that is now
    /// available, oldest first; the remainder stays buffered.
    ///
    /// Writing `all` for the previously buffered samples followed by the
    /// batch, exactly `all.len() / samples_per_chunk` chunks come out, the
    /// `i`-th chunk is the `i`-th run of `samples_per_chunk` consecutive
    /// samples of `all`, and the new buffer holds the tail of `all` that did
    /// not fill a chunk.
    pub fn feed(&mut self, batch: &Vec<i32>) -> (chunks: Vec<Vec<i32>>)
        requires
            old(self).wf(),
        ensures
            final(self).samples_per_chunk == old(self).samples_per_chunk,
            final(self).wf(),
            ({
                let all = old(self).buffer@ + batch@;
                let n = old(self).samples_per_chunk as int;
                let k = all.len() as int / n;
                &&& chunks@.len() == k
                &&& forall|i: int|
                    0 <= i < k ==> (#[trigger] chunks@[i])@ == all.subrange(i * n, (i + 1) * n)
                &&& final(self).buffer@ == all.subrange(k * n, all.len() as int)
            }),
    {
        let ghost all = old(self).buffer@ + batch@;
        let n = self.samples_per_chunk;
        let mut j: usize = 0;
        while j < batch.len()
            invariant
                j <= batch@.len(),
                self.samples_per_chunk == old(self).samples_per_chunk,
                self.buffer@ == old(self).buffer@ + batch@.subrange(0, j as int),
            decreases batch@.len() - j,
        {
            self.buffer.push(batch[j]);
            proof {
                assert(self.buffer@ =~= old(self).buffer@ + batch@.subrange(0, j as int + 1));
            }
            j = j + 1;
        }
        proof {
            assert(batch@.subrange(0, batch@.len() as int) =~= batch@);
            assert(all.subrange(0, all.len() as int) =~= all);
        }
        let mut chunks: Vec<Vec<i32>> = Vec::new();
        proof {
            lemma_mul_by_zero_is_zero(n as int);
            assert(chunks@.len() * (n as int) == 0);
        }
        while self.buffer.len() >= n
            invariant
                n == old(self).samples_per_chunk,
                n >= 1,
                self.samples_per_chunk == n,
                all == old(self).buffer@ + batch@,
                chunks@.len() * (n as int) <= all.len(),
                self.buffer@ == all.subrange(chunks@.len() * (n as int), all.len() as int),
                forall|i: int|
                    0 <= i < chunks@.len() ==> (#[trigger] chunks@[i])@ == all.subrange(
                        i * (n as int),
                        (i + 1) * (n as int),
                    ),
            decreases self.buffer@.len(),
        {
            let ghost c = chunks@.len() as int;
            let ghost old_buf = self.buffer@;
            let mut chunk: Vec<i32> = Vec::new();
            let mut i: usize = 0;
            proof {
                assert(chunk@ =~= self.buffer@.subrange(0, 0));
            }
            while i < n
                invariant
                    i <= n,
                    n <= self.buffer@.len(),
                    chunk@ == self.buffer@.subrange(0, i as int),
                decreases n - i,
            {
                chunk.push(self.buffer[i]);
                proof {
                    assert(chunk@ =~= self.buffer@.subrange(0, i as int + 1));
                }
                i = i + 1;
            }
            let mut rest: Vec<i32> = Vec::new();
            let mut i2: usize = n;
            proof {
                assert(rest@ =~= self.buffer@.subrange(n as int, n as int));
            }
            while i2 < self.buffer.len()
                invariant
                    n as int <= i2 as int <= self.buffer@.len(),
                    rest@ == self.buffer@.subrange(n as int, i2 as int),
                decreases self.buffer@.len() - i2,
            {
                rest.push(self.buffer[i2]);
                proof {
                    assert(rest@ =~= self.buffer@.subrange(n as int, i2 as int + 1));
                }
                i2 = i2 + 1;
            }
            self.buffer = rest;
            chunks.push(chunk);
            proof {
                assert((c + 1) * (n as int) == c * (n as int) + (n as int)) by (nonlinear_arith);
                assert(chunk@ =~= all.subrange(c * (n as int), (c + 1) * (n as int)));
                assert(self.buffer@ =~= all.subrange((c + 1) * (n as int), all.len() as int));
            }
        }
        proof {
            let k = chunks@.len() as int;
            let ni = n as int;
            lemma_fundamental_div_mod_converse(
                all.len() as int,
                ni,
                k,
                all.len() - k * ni,
            );
        }
        chunks
    }
}

} // verus!
