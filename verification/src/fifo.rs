//! The sample FIFO between the USB receive path and the I2S playback path.
//!
//! The FIFO is a ring of `N` 16-bit words. Its contents, oldest first, are
//! its view. When more samples arrive than fit, the oldest are dropped so
//! that the playback latency cannot grow without bound.

use vstd::prelude::*;

verus! {

/// The slot `offset` places after `start` in a ring of `n` slots, for
/// `start < n` and `offset <= n`.
pub open spec fn ring_slot(start: int, offset: int, n: int) -> int {
    if start + offset < n {
        start + offset
    } else {
        start + offset - n
    }
}

/// Position `i` of a ring of `n` slots, counted from slot 0 and wrapping
/// around (0 in a ring without slots).
pub open spec fn wrap(i: int, n: int) -> int {
    if n <= 0 {
        0
    } else {
        i % n
    }
}

proof fn lemma_ring_slot_is_wrap(start: int, offset: int, n: int)
    requires
        0 <= start < n,
        0 <= offset <= n,
    ensures
        ring_slot(start, offset, n) == wrap(start + offset, n),
{
    if start + offset < n {
        vstd::arithmetic::div_mod::lemma_small_mod((start + offset) as nat, n as nat);
    } else {
        vstd::arithmetic::div_mod::lemma_mod_sub_multiples_vanish(start + offset, n);
        vstd::arithmetic::div_mod::lemma_small_mod((start + offset - n) as nat, n as nat);
    }
}

/// `storage` after `words` were written one by one into a ring of `n`
/// slots, the first at position `start` (wrapped), each next one slot further.
pub open spec fn write_run(storage: Seq<u16>, start: int, words: Seq<u16>, n: int) -> Seq<u16>
    decreases words.len(),
{
    if words.len() == 0 {
        storage
    } else {
        write_run(storage, start, words.drop_last(), n).update(
            wrap(start + words.len() - 1, n),
            words.last(),
        )
    }
}

/// How many of the `queued` samples a push of `pushed` more into a FIFO of
/// `n` slots drops: the excess over `n`, if any.
pub open spec fn dropped_on_push(queued: int, pushed: int, n: int) -> int {
    if queued + pushed > n {
        queued + pushed - n
    } else {
        0
    }
}

/// The smaller of two integers.
pub open spec fn min_int(a: int, b: int) -> int {
    if a < b {
        a
    } else {
        b
    }
}

/// `min_int` is the smaller of its arguments: no larger than either, and
/// equal to one of them.
pub proof fn lemma_min_int(a: int, b: int)
    ensures
        min_int(a, b) <= a,
        min_int(a, b) <= b,
        min_int(a, b) == a || min_int(a, b) == b,
{
}

/// The newest `n` samples of `s` (all of `s` when it holds no more than `n`).
pub open spec fn keep_newest(s: Seq<u16>, n: nat) -> Seq<u16> {
    if s.len() <= n {
        s
    } else {
        s.subrange(s.len() - n, s.len() as int)
    }
}

/// However the samples arrive, the FIFO then holds as many as it can: all of
/// them up to `n`.
pub proof fn lemma_push_len(s: Seq<u16>, w: Seq<u16>, n: nat)
    ensures
        keep_newest(s + w, n).len() == min_int((s.len() + w.len()) as int, n as int),
{
}

/// Samples that fit are all kept, in the order they came.
pub proof fn lemma_push_without_overflow_loses_nothing(s: Seq<u16>, w: Seq<u16>, n: nat)
    requires
        s.len() + w.len() <= n,
    ensures
        keep_newest(s + w, n) == s + w,
{
}

/// On overflow only old samples are lost: the newest `min(w.len(), n)`
/// samples just pushed end the FIFO's contents.
pub proof fn lemma_push_keeps_newest(s: Seq<u16>, w: Seq<u16>, n: nat)
    ensures
        ({
            let r = keep_newest(s + w, n);
            let k = min_int(w.len() as int, n as int);
            r.subrange(r.len() - k, r.len() as int) == w.subrange(w.len() - k, w.len() as int)
        }),
{
    let t = s + w;
    let r = keep_newest(t, n);
    let k = min_int(w.len() as int, n as int);
    assert(r.subrange(r.len() - k, r.len() as int) =~= w.subrange(w.len() - k, w.len() as int));
}

/// Pushing two packets one after the other leaves the FIFO as pushing them
/// joined in one slice would.
pub proof fn lemma_push_in_pieces(s: Seq<u16>, a: Seq<u16>, b: Seq<u16>, n: nat)
    ensures
        keep_newest(keep_newest(s + a, n) + b, n) == keep_newest(s + a + b, n),
{
    let t = s + a;
    let u = keep_newest(t, n) + b;
    let v = t + b;
    if v.len() <= n {
        assert(u =~= v);
    } else if t.len() <= n {
        assert(u =~= v);
    } else {
        assert(keep_newest(u, n) =~= keep_newest(v, n));
    }
}

/// Samples pushed into an empty FIFO that can hold them all come out again,
/// in order, and leave it empty.
pub proof fn lemma_push_then_pop_round_trip(w: Seq<u16>, n: nat)
    requires
        w.len() <= n,
    ensures
        keep_newest(Seq::<u16>::empty() + w, n).take(w.len() as int) == w,
        keep_newest(Seq::<u16>::empty() + w, n).skip(w.len() as int) == Seq::<u16>::empty(),
{
    assert(Seq::<u16>::empty() + w =~= w);
    assert(w.take(w.len() as int) =~= w);
    assert(w.skip(w.len() as int) =~= Seq::<u16>::empty());
}

/// Discarding `a` and then `b` samples from a FIFO whose read index is
/// `read` and which holds `len` samples moves it as discarding `a + b` at
/// once would: the same number of samples go, and the read index ends in the
/// same slot (the storage is untouched either way).
pub proof fn lemma_discards_compose(read: int, len: int, a: int, b: int, n: int)
    requires
        0 <= read < n,
        0 <= len <= n,
        0 <= a,
        0 <= b,
    ensures
        ({
            let d1 = min_int(a, len);
            let d2 = min_int(b, len - d1);
            &&& d1 + d2 == min_int(a + b, len)
            &&& wrap(wrap(read + d1, n) + d2, n) == wrap(read + min_int(a + b, len), n)
        }),
{
    let d1 = min_int(a, len);
    let d2 = min_int(b, len - d1);
    vstd::arithmetic::div_mod::lemma_add_mod_noop_right(d2, read + d1, n);
    assert(d2 + read + d1 == read + (d1 + d2));
}

/// A FIFO of at most `N` samples, stored in a ring buffer.
pub struct AudioSampleFifo<const N: usize> {
    data: Vec<u16>,
    read: usize,
    len: usize,
}

impl<const N: usize> View for AudioSampleFifo<N> {
    type V = Seq<u16>;

    /// The queued samples, oldest first.
    closed spec fn view(&self) -> Seq<u16> {
        Seq::new(self.len as nat, |i: int| self.data@[ring_slot(self.read as int, i, N as int)])
    }
}

impl<const N: usize> AudioSampleFifo<N> {
    /// The ring holds `N` slots, the read position lies inside it, and no
    /// more than `N` samples are queued.
    pub closed spec fn wf(&self) -> bool {
        &&& self.data@.len() == N
        &&& self.len <= N
        &&& (self.read < N || self.read == 0)
    }

    /// Index of the slot that holds the oldest sample.
    pub closed spec fn read_index(&self) -> int {
        self.read as int
    }

    /// The ring's slots, queued or not.
    pub closed spec fn storage(&self) -> Seq<u16> {
        self.data@
    }

    /// The queued samples are the `len` slots from the read index on,
    /// wrapping around the ring.
    pub proof fn lemma_view_is_ring_window(&self)
        requires
            self.wf(),
        ensures
            self.storage().len() == N,
            0 <= self.read_index() < N || (N == 0 && self.read_index() == 0),
            forall|i: int|
                0 <= i < self@.len() ==> #[trigger] self@[i] == self.storage()[wrap(
                    self.read_index() + i,
                    N as int,
                )],
    {
        assert forall|i: int| 0 <= i < self@.len() implies #[trigger] self@[i] == self.storage()[wrap(
            self.read_index() + i,
            N as int,
        )] by {
            lemma_ring_slot_is_wrap(self.read as int, i, N as int);
        }
    }

    proof fn lemma_len(&self)
        requires
            self.wf(),
        ensures
            self@.len() == self.len,
            self@.len() <= N,
    {
    }

    /// A FIFO never holds more than `N` samples.
    pub proof fn lemma_never_over_capacity(&self)
        requires
            self.wf(),
        ensures
            self@.len() <= N,
    {
    }

    /// The slot `offset` places after the read position.
    fn slot_after(&self, offset: usize) -> (slot: usize)
        requires
            self.wf(),
            0 < N,
            offset <= N,
        ensures
            slot == ring_slot(self.read as int, offset as int, N as int),
            slot < N,
    {
        let room: usize = N - self.read;
        if offset < room {
            self.read + offset
        } else {
            offset - room
        }
    }

    /// An empty FIFO.
    pub fn new() -> (fifo: Self)
        ensures
            fifo.wf(),
            fifo@ == Seq::<u16>::empty(),
            fifo.read_index() == 0,
            fifo.storage() == Seq::new(N as nat, |i: int| 0u16),
    {
        let mut data: Vec<u16> = Vec::new();
        let mut i: usize = 0;
        while i < N
            invariant
                i <= N,
                data@ == Seq::new(i as nat, |j: int| 0u16),
            decreases N - i,
        {
            data.push(0);
            assert(data@ =~= Seq::new((i + 1) as nat, |j: int| 0u16));
            i = i + 1;
        }
        let fifo = AudioSampleFifo { data, read: 0, len: 0 };
        assert(fifo@ =~= Seq::<u16>::empty());
        fifo
    }

    /// Drops every queued sample.
    pub fn clear(&mut self)
        requires
            old(self).wf(),
        ensures
            final(self).wf(),
            final(self)@ == Seq::<u16>::empty(),
            final(self).read_index() == 0,
            final(self).storage() == old(self).storage(),
    {
        self.read = 0;
        self.len = 0;
        assert(self@ =~= Seq::<u16>::empty());
    }

    /// Appends `words`; where the FIFO would overflow, the oldest samples
    /// are dropped, so that it keeps the newest `N` samples of its old
    /// contents followed by `words`.
    pub fn push_slice(&mut self, words: &[u16])
        requires
            old(self).wf(),
        ensures
            final(self).wf(),
            final(self)@ == keep_newest(old(self)@ + words@, N as nat),
            words@.len() >= N ==> final(self).read_index() == 0 && final(self).storage()
                == words@.subrange(words@.len() - N, words@.len() as int),
            words@.len() < N ==> final(self).read_index() == wrap(
                old(self).read_index() + dropped_on_push(
                    old(self)@.len() as int,
                    words@.len() as int,
                    N as int,
                ),
                N as int,
            ) && final(self).storage() == write_run(
                old(self).storage(),
                old(self).read_index() + old(self)@.len(),
                words@,
                N as int,
            ),
    {
        let ghost old_view = self@;
        let ghost old_read = self.read as int;
        let ghost old_len = self.len as int;
        let ghost old_data = self.data@;
        proof {
            self.lemma_len();
        }
        if words.len() >= N {
            // More input than the FIFO can hold: keep only its newest samples.
            self.clear();
            let start: usize = words.len() - N;
            let mut i: usize = start;
            while i < words.len()
                invariant
                    self.wf(),
                    start == words@.len() - N,
                    start <= i <= words@.len(),
                    self@ == words@.subrange(start as int, i as int),
                    self.read == 0,
                    self.data@.len() == N,
                    forall|k: int| 0 <= k < i - start ==> #[trigger] self.data@[k] == words@[start + k],
                decreases words@.len() - i,
            {
                proof {
                    self.lemma_len();
                    vstd::arithmetic::div_mod::lemma_small_mod((i - start) as nat, N as nat);
                }
                self.write_word(words[i]);
                assert(words@.subrange(start as int, i + 1) =~= words@.subrange(
                    start as int,
                    i as int,
                ).push(words@[i as int]));
                i = i + 1;
            }
            proof {
                assert(self.data@ =~= words@.subrange(start as int, words@.len() as int));
                let total = old_view + words@;
                if total.len() <= N {
                    assert(old_view.len() == 0);
                    assert(total =~= words@);
                    assert(words@.subrange(0, words@.len() as int) =~= words@);
                } else {
                    assert(total.subrange(total.len() - N, total.len() as int) =~= words@.subrange(
                        start as int,
                        words@.len() as int,
                    ));
                }
            }
            return;
        }
        let free: usize = N - self.len;
        let missing: usize = words.len().saturating_sub(free);
        if missing != 0 {
            // The USB side ran ahead: drop the oldest samples to bound the latency.
            self.discard_oldest(missing);
        }
        let ghost mid = self@;
        assert(mid == old_view.skip(missing as int));
        let ghost read1 = self.read as int;
        let ghost start = old_read + old_len;
        proof {
            assert(missing == dropped_on_push(old_len, words@.len() as int, N as int));
            if missing == 0 {
                vstd::arithmetic::div_mod::lemma_small_mod(old_read as nat, N as nat);
            }
            assert(read1 == wrap(old_read + missing, N as int));
            assert(self.data@ =~= write_run(old_data, start, words@.take(0), N as int));
        }
        let mut i: usize = 0;
        while i < words.len()
            invariant
                self.wf(),
                0 < N,
                i <= words@.len(),
                mid.len() + words@.len() <= N,
                mid.len() == old_len - missing,
                self@ == mid + words@.take(i as int),
                self.read == read1,
                read1 == wrap(old_read + missing, N as int),
                start == old_read + old_len,
                self.data@ == write_run(old_data, start, words@.take(i as int), N as int),
            decreases words@.len() - i,
        {
            proof {
                self.lemma_len();
                vstd::arithmetic::div_mod::lemma_add_mod_noop_right(
                    old_len - missing + i,
                    old_read + missing,
                    N as int,
                );
                assert(wrap(self.read + self.len, N as int) == wrap(start + i, N as int));
            }
            self.write_word(words[i]);
            proof {
                let t = words@.take(i + 1);
                assert(t.drop_last() =~= words@.take(i as int));
                assert(t.last() == words@[i as int]);
                assert(self.data@ =~= write_run(old_data, start, t, N as int));
            }
            assert(words@.take(i + 1) =~= words@.take(i as int).push(words@[i as int]));
            i = i + 1;
        }
        assert(words@.take(words@.len() as int) =~= words@);
        proof {
            assert(words@.take(words@.len() as int) =~= words@);
            let total = old_view + words@;
            if missing == 0 {
                assert(total.len() <= N);
            } else {
                assert(total.subrange(total.len() - N, total.len() as int) =~= old_view.skip(
                    missing as int,
                ) + words@);
            }
        }
    }

    /// Moves up to `out.len()` of the oldest samples into the front of `out`
    /// and returns how many it moved; the rest of `out` is left as it was.
    pub fn pop_slice(&mut self, out: &mut [u16]) -> (count: usize)
        requires
            old(self).wf(),
        ensures
            final(self).wf(),
            count == min_int(old(out)@.len() as int, old(self)@.len() as int),
            final(out)@ == old(self)@.take(count as int) + old(out)@.skip(count as int),
            final(self)@ == old(self)@.skip(count as int),
            final(self).read_index() == wrap(old(self).read_index() + count, N as int),
            final(self).storage() == old(self).storage(),
    {
        let ghost old_view = self@;
        let ghost old_out = out@;
        let ghost old_read = self.read as int;
        let ghost old_data = self.data@;
        proof {
            self.lemma_len();
        }
        let count: usize = if out.len() < self.len {
            out.len()
        } else {
            self.len
        };
        let mut i: usize = 0;
        while i < count
            invariant
                self.wf(),
                i <= count,
                count <= old_out.len(),
                count <= old_view.len(),
                out@.len() == old_out.len(),
                self@ == old_view.skip(i as int),
                out@ == old_view.take(i as int) + old_out.skip(i as int),
                old_read < N || (N == 0 && old_read == 0),
                old_view.len() <= N,
                N == 0 ==> self.read == 0,
                N > 0 ==> self.read == ring_slot(old_read, i as int, N as int),
                self.data@ == old_data,
            decreases count - i,
        {
            proof {
                self.lemma_len();
            }
            proof {
                if N > 0 {
                    lemma_ring_slot_is_wrap(self.read as int, 1, N as int);
                }
            }
            let word: u16 = self.read_word();
            out[i] = word;
            assert(out@ =~= old_view.take(i + 1) + old_out.skip(i + 1));
            assert(self@ =~= old_view.skip(i + 1));
            i = i + 1;
        }
        proof {
            if N > 0 {
                lemma_ring_slot_is_wrap(old_read, count as int, N as int);
            }
        }
        count
    }

    /// Drops the `count` oldest samples, or all of them when fewer are queued.
    pub fn discard_oldest(&mut self, count: usize)
        requires
            old(self).wf(),
            0 < N,
        ensures
            final(self).wf(),
            final(self)@ == old(self)@.skip(min_int(count as int, old(self)@.len() as int)),
            final(self).read_index() == wrap(
                old(self).read_index() + min_int(count as int, old(self)@.len() as int),
                N as int,
            ),
            final(self).storage() == old(self).storage(),
    {
        let ghost old_view = self@;
        proof {
            self.lemma_len();
        }
        let discard: usize = if count < self.len {
            count
        } else {
            self.len
        };
        proof {
            lemma_ring_slot_is_wrap(self.read as int, discard as int, N as int);
        }
        self.read = self.slot_after(discard);
        self.len = self.len - discard;
        assert(self@ =~= old_view.skip(discard as int));
    }

    /// Appends one sample; the caller makes room first.
    pub fn write_word(&mut self, word: u16)
        requires
            old(self).wf(),
            old(self)@.len() < N,
        ensures
            final(self).wf(),
            final(self)@ == old(self)@.push(word),
            final(self).read_index() == old(self).read_index(),
            final(self).storage() == old(self).storage().update(
                wrap(old(self).read_index() + old(self)@.len(), N as int),
                word,
            ),
    {
        let ghost old_view = self@;
        proof {
            self.lemma_len();
        }
        proof {
            lemma_ring_slot_is_wrap(self.read as int, self.len as int, N as int);
        }
        let write: usize = self.slot_after(self.len);
        self.data[write] = word;
        self.len = self.len + 1;
        assert(self@ =~= old_view.push(word));
    }

    /// Removes and returns the oldest sample; the caller checks that there is one.
    pub fn read_word(&mut self) -> (word: u16)
        requires
            old(self).wf(),
            old(self)@.len() > 0,
        ensures
            final(self).wf(),
            word == old(self)@[0],
            word == old(self).storage()[old(self).read_index()],
            final(self)@ == old(self)@.skip(1),
            final(self).read_index() == wrap(old(self).read_index() + 1, N as int),
            final(self).storage() == old(self).storage(),
    {
        let ghost old_view = self@;
        proof {
            self.lemma_len();
        }
        let word: u16 = self.data[self.read];
        proof {
            lemma_ring_slot_is_wrap(self.read as int, 1, N as int);
        }
        self.read = self.slot_after(1);
        self.len = self.len - 1;
        assert(self@ =~= old_view.skip(1));
        word
    }
}

} // verus!
