//! A simple moving average over the most recent loudness values.
//!
//! The window is a FIFO queue bounded by the size fixed at construction:
//! pushing onto a full window evicts the oldest value. The running mean of
//! the window is the noise-resistant baseline that the brightness mapper
//! compares each chunk's loudness against. The smoother is never reset; it
//! advances continuously for the life of the process.
use vstd::prelude::*;
use vstd::arithmetic::div_mod::lemma_multiply_divide_le;

verus! {

/// One window step: append the new value, then evict the oldest value if the
/// window has outgrown `size`.
pub open spec fn window_push(w: Seq<u32>, size: nat, v: u32) -> Seq<u32> {
    let grown = w.push(v);
    if grown.len() > size {
        grown.drop_first()
    } else {
        grown
    }
}

/// The window that results from feeding every value of `history`, in order,
/// into an empty smoother of the given size.
pub open spec fn feed_all(size: nat, history: Seq<u32>) -> Seq<u32>
    decreases history.len(),
{
    if history.len() == 0 {
        Seq::empty()
    } else {
        window_push(feed_all(size, history.drop_last()), size, history.last())
    }
}

/// Sum of the values in a window.
pub open spec fn sum_seq(s: Seq<u32>) -> int
    decreases s.len(),
{
    if s.len() == 0 {
        0
    } else {
        sum_seq(s.drop_last()) + s.last()
    }
}

/// The arithmetic mean of a window, rounded down, and 0 for an empty window.
pub open spec fn mean_spec(s: Seq<u32>) -> int {
    if s.len() == 0 {
        0
    } else {
        sum_seq(s) / (s.len() as int)
    }
}

/// A simple moving average calculator for real-time data.
pub struct MovingAverage {
    /// The number of items to average over.
    pub size: usize,
    /// The recent values used to compute the average.
    pub window: Vec<u32>,
}

impl View for MovingAverage {
    type V = Seq<u32>;

    open spec fn view(&self) -> Seq<u32> {
        self.window@
    }
}

impl MovingAverage {
    /// The window never outgrows the size fixed at construction.
    pub open spec fn wf(&self) -> bool {
        self@.len() <= self.size
    }

    /// Makes an empty smoother that averages over at most `size` values.
    pub fn new(size: usize) -> (r: Self)
        ensures
            r.size == size,
            r@ == Seq::<u32>::empty(),
            r.wf(),
    {
        MovingAverage { size, window: Vec::new() }
    }

    /// Pushes one value, evicting the oldest if the window is full.
    pub fn update(&mut self, data: u32)
        requires
            old(self).wf(),
        ensures
            final(self).size == old(self).size,
            final(self)@ == window_push(old(self)@, old(self).size as nat, data),
            final(self).wf(),
    {
        self.window.push(data);
        if self.window.len() > self.size {
            self.window.remove(0);
            proof {
                assert(self@ =~= window_push(old(self)@, old(self).size as nat, data));
            }
        }
    }

    /// The arithmetic mean of the window, rounded down, or 0 while the
    /// window is still empty.
    pub fn value(&self) -> (r: u32)
        ensures
            r as int == mean_spec(self@),
    {
        let ghost s = self@;
        let n = self.window.len();
        if n == 0 {
            return 0;
        }
        let mut sum: u128 = 0;
        let mut i: usize = 0;
        while i < n
            invariant
                i <= n,
                n == s.len(),
                s == self@,
                sum as int == sum_seq(s.subrange(0, i as int)),
                sum as int <= (i as int) * 0xFFFF_FFFF,
            decreases n - i,
        {
            let x: u32 = self.window[i];
            proof {
                let pre = s.subrange(0, i as int);
                let post = s.subrange(0, i as int + 1);
                assert(post.drop_last() =~= pre);
                assert(post.last() == s[i as int]);
            }
            sum = sum + x as u128;
            i = i + 1;
        }
        proof {
            assert(s.subrange(0, s.len() as int) =~= s);
            lemma_multiply_divide_le(sum as int, n as int, 0xFFFF_FFFF);
        }
        (sum / n as u128) as u32
    }
}

/// While no more values than the window size have been fed, the window holds
/// the whole history.
pub proof fn lemma_feed_all_short(size: nat, history: Seq<u32>)
    requires
        history.len() <= size,
    ensures
        feed_all(size, history) == history,
    decreases history.len(),
{
    if history.len() == 0 {
        assert(feed_all(size, history) =~= history);
    } else {
        lemma_feed_all_short(size, history.drop_last());
        assert(feed_all(size, history) =~= history);
    }
}

/// Once more values than the window size have been fed, the window holds
/// exactly the last `size` values of the history, so the mean the smoother
/// reports is the mean of exactly those values.
pub proof fn lemma_feed_all_suffix(size: nat, history: Seq<u32>)
    requires
        history.len() >= size,
    ensures
        feed_all(size, history) == history.subrange(
            history.len() - size,
            history.len() as int,
        ),
        feed_all(size, history).len() == size,
    decreases history.len(),
{
    let l = history.len() as int;
    let target = history.subrange(l - size, l);
    if history.len() == size {
        lemma_feed_all_short(size, history);
        assert(target =~= history);
    } else {
        let t = history.drop_last();
        lemma_feed_all_suffix(size, t);
        assert(feed_all(size, history) =~= target);
    }
}

} // verus!
