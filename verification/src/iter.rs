//! The core windowing iterator: a fixed circular buffer of the last `N`
//! characters pulled from a string slice, rotated in place one character
//! per step.

use vstd::prelude::*;
use vstd::std_specs::iter::IteratorSpec;

verus! {

/// A window of `N` characters stored as an array, oldest first.
pub type Substr<const N: usize> = [char; N];

/// A window of three characters.
pub type Trigram = Substr<3>;

/// An iterator over windows of three characters.
pub type TrigramIter<'a> = SubstrIter<'a, 3>;

/// Slot reached from position `i` in a circular buffer of capacity `n`,
/// for `0 <= i < 2 * n`: the index `i` reduced once modulo `n`.
pub open spec fn wrap(i: int, n: int) -> int {
    if i < n {
        i
    } else {
        i - n
    }
}

/// How many windows of `n` characters a text of `len` characters yields:
/// one per start position, `max(0, len - n + 1)` in all.
pub open spec fn window_count(len: nat, n: nat) -> nat {
    if len + 1 > n {
        (len + 1 - n) as nat
    } else {
        0
    }
}

/// Boundary cases of the window count: an empty text yields no window,
/// a text shorter than the window yields no window, and a text of
/// exactly the window's length yields one window — the whole text.
pub proof fn lemma_window_count_boundary(n: nat, s: Seq<char>)
    requires
        n >= 1,
    ensures
        s.len() == 0 ==> window_count(s.len(), n) == 0,
        s.len() < n ==> window_count(s.len(), n) == 0,
        s.len() == n ==> window_count(s.len(), n) == 1,
        s.len() == n ==> s.subrange(0, n as int) == s,
{
    if s.len() == n {
        assert(s.subrange(0, n as int) =~= s);
    }
}

/// A sliding-window iterator over the characters of a borrowed string
/// slice: each step pulls one character, overwrites the oldest slot of a
/// circular buffer of the last `N` characters, and hands out the buffer
/// contents in source order as a fresh array.
///
/// Build one with [`SubstrIter::from`] and drain it with
/// [`SubstrIter::next`]; windows of a whole text come at once from
/// [`windows`].
pub struct SubstrIter<'a, const N: usize> {
    /// Cursor over the characters of the source not yet pulled.
    pub iter: std::str::Chars<'a>,
    /// Circular buffer of the most recent characters pulled.
    pub cache: [char; N],
    /// Rotation offset: between steps, the characters of the current
    /// window's tail sit at `cache[wrap(index + i, N)]`.
    pub index: usize,
    /// The characters of the whole source text.
    pub source: Ghost<Seq<char>>,
    /// How many characters have been pulled from the source so far.
    pub pos: Ghost<int>,
}

impl<'a, const N: usize> SubstrIter<'a, N> {
    /// How many characters construction consumes up front from a source
    /// of `source_len` characters: `N - 1`, or the whole source when it
    /// is shorter than that.
    pub open spec fn primed_len(source_len: int) -> int {
        if source_len >= N - 1 {
            N - 1
        } else {
            source_len
        }
    }

    /// The iterator's invariant.  Once at least `N - 1` characters have
    /// been pulled, the buffer holds the last `N - 1` of them in source
    /// order starting at the rotation offset; a source too short for
    /// that has been consumed whole.
    pub open spec fn wf(self) -> bool {
        &&& N >= 1
        &&& self.index < N
        &&& Self::primed_len(self.source@.len() as int) <= self.pos@ <= self.source@.len()
        &&& self.pos@ < N - 1 ==> self.pos@ == self.source@.len()
        &&& self.pos@ >= N - 1 ==> forall|i: int|
            0 <= i < N - 1 ==> #[trigger] self.cache@[wrap(self.index + i, N as int)]
                == self.source@[self.pos@ - (N - 1) + i]
    }

    /// Builds an iterator over `origin`, priming the buffer with the
    /// first `N - 1` characters so that the first call to
    /// [`SubstrIter::next`] completes the first window.
    pub fn from(origin: &'a str) -> (r: Self)
        requires
            N >= 1,
        ensures
            r.wf(),
            r.source@ == origin@,
            r.pos@ == Self::primed_len(origin@.len() as int),
            r.iter.remaining() == origin@.skip(r.pos@),
    {
        let ghost src = origin@;
        let mut iter = origin.chars();
        let mut cache: [char; N] = ['\0';N];
        let mut idx: usize = 0;
        proof {
            assert(src.skip(0) =~= src);
        }
        loop
            invariant_except_break
                idx <= N - 1,
            invariant
                N >= 1,
                idx <= N - 1,
                idx <= src.len(),
                iter.remaining() == src.skip(idx as int),
                forall|i: int| 0 <= i < idx ==> cache@[i] == src[i],
            ensures
                idx == N - 1 || idx == src.len(),
            decreases N - 1 - idx,
        {
            if idx >= N - 1 {
                break ;
            }
            match iter.next() {
                Some(c) => {
                    cache[idx] = c;
                    idx = idx + 1;
                    proof {
                        assert(src.skip(idx as int) =~= src.skip(idx - 1).drop_first());
                    }
                },
                None => {
                    proof {
                        assert(src.skip(idx as int).len() == 0);
                    }
                    break ;
                },
            }
        }
        Self { iter, cache, index: 0, source: Ghost(src), pos: Ghost(idx as int) }
    }

    /// Reads the buffer slot `offset` steps past the rotation offset.
    pub fn get(&self, offset: usize) -> (r: char)
        requires
            self.index < N,
            offset < N,
        ensures
            r == self.cache@[wrap(self.index + offset, N as int)],
    {
        let j = if offset < N - self.index {
            self.index + offset
        } else {
            offset - (N - self.index)
        };
        self.cache[j]
    }

    /// Overwrites the oldest buffer slot, the one `N - 1` steps past the
    /// rotation offset, with a newly pulled character.
    pub fn push(&mut self, value: char)
        requires
            old(self).index < N,
        ensures
            final(self).cache@ == old(self).cache@.update(
                wrap(old(self).index + N - 1, N as int),
                value,
            ),
            final(self).index == old(self).index,
            final(self).iter == old(self).iter,
            final(self).source == old(self).source,
            final(self).pos == old(self).pos,
    {
        let j = if self.index == 0 {
            N - 1
        } else {
            self.index - 1
        };
        self.cache[j] = value;
    }

    /// Pulls one character from the source and returns the window it
    /// completes: the last `N` characters pulled, oldest first.  Returns
    /// `None`, and leaves the buffer untouched, exactly when the source
    /// is exhausted — in particular a source of fewer than `N`
    /// characters never yields a window.
    pub fn next(&mut self) -> (r: Option<Substr<N>>)
        requires
            old(self).wf(),
            old(self).iter.remaining() == old(self).source@.skip(old(self).pos@),
        ensures
            final(self).wf(),
            final(self).iter.remaining() == final(self).source@.skip(final(self).pos@),
            final(self).source@ == old(self).source@,
            match r {
                Some(w) => {
                    &&& old(self).pos@ < old(self).source@.len()
                    &&& final(self).pos@ == old(self).pos@ + 1
                    &&& N <= final(self).pos@ <= final(self).source@.len()
                    &&& w@ == old(self).source@.subrange(final(self).pos@ - N, final(self).pos@)
                },
                None => {
                    &&& old(self).pos@ == old(self).source@.len()
                    &&& final(self).pos@ == old(self).pos@
                    &&& final(self).cache == old(self).cache
                    &&& final(self).index == old(self).index
                },
            },
    {
        let ghost src = self.source@;
        let ghost p = self.pos@;
        let value = match self.iter.next() {
            Some(v) => v,
            None => {
                proof {
                    assert(src.skip(p).len() == 0);
                }
                return None;
            },
        };
        proof {
            assert(src.skip(p).len() > 0);
            assert(value == src.skip(p)[0]);
            assert(value == src[p]);
            assert(src.skip(p + 1) =~= src.skip(p).drop_first());
        }
        let ghost start = self.index as int;
        self.push(value);
        let mut res: [char; N] = ['\0';N];
        let mut i: usize = 0;
        while i < N
            invariant
                i <= N,
                N >= 1,
                self.index < N,
                self.index == start,
                forall|k: int|
                    0 <= k < i ==> #[trigger] res@[k] == self.cache@[wrap(start + k, N as int)],
            decreases N - i,
        {
            res[i] = self.get(i);
            i = i + 1;
        }
        proof {
            assert forall|k: int| 0 <= k < N implies res@[k] == src[p + 1 - N + k] by {
                assert(res@[k] == self.cache@[wrap(start + k, N as int)]);
                if k < N - 1 {
                    assert(wrap(start + k, N as int) != wrap(start + N - 1, N as int));
                    assert(self.cache@[wrap(start + k, N as int)] == old(self).cache@[wrap(
                        start + k,
                        N as int,
                    )]);
                } else {
                    assert(self.cache@[wrap(start + N - 1, N as int)] == value);
                }
            }
            assert(res@ =~= src.subrange(p + 1 - N, p + 1));
        }
        self.index = if self.index + 1 == N {
            0
        } else {
            self.index + 1
        };
        proof {
            self.pos@ = p + 1;
            assert forall|i: int|
                0 <= i < N - 1 implies #[trigger] self.cache@[wrap(self.index + i, N as int)]
                == self.source@[self.pos@ - (N - 1) + i] by {
                assert(wrap(self.index + i, N as int) == wrap(start + (i + 1), N as int));
                assert(res@[i + 1] == self.cache@[wrap(start + (i + 1), N as int)]);
                assert(res@[i + 1] == src[p + 1 - N + i + 1]);
            }
        }
        Some(res)
    }
}

/// Every window of `N` characters of `s`, in order: one window per start
/// position, `window_count` in all, the window at position `i` holding
/// exactly the characters of `s` at positions `i` through `i + N - 1`.
#[verifier::loop_isolation(false)]
pub fn windows<'a, const N: usize>(s: &'a str) -> (r: Vec<Substr<N>>)
    requires
        N >= 1,
    ensures
        r@.len() == window_count(s@.len(), N as nat),
        forall|i: int| 0 <= i < r@.len() ==> #[trigger] r@[i]@ == s@.subrange(i, i + N),
{
    let mut it = SubstrIter::<'a, N>::from(s);
    let mut r: Vec<Substr<N>> = Vec::new();
    let ghost len = s@.len() as int;
    let mut done = false;
    while !done
        invariant
            it.wf(),
            it.iter.remaining() == it.source@.skip(it.pos@),
            it.source@ == s@,
            it.pos@ == SubstrIter::<'a, N>::primed_len(len) + r@.len(),
            done ==> it.pos@ == len,
            forall|i: int| 0 <= i < r@.len() ==> #[trigger] r@[i]@ == s@.subrange(i, i + N),
        decreases len - it.pos@ + (if done {
            0int
        } else {
            1int
        }),
    {
        let ghost prev = it.pos@;
        let ghost count = r@.len() as int;
        match it.next() {
            Some(w) => {
                proof {
                    assert(it.pos@ == prev + 1);
                    assert(w@ == s@.subrange(it.pos@ - N, it.pos@));
                    assert(it.pos@ - N == count);
                }
                r.push(w);
            },
            None => {
                done = true;
            },
        }
    }
    proof {
        assert(r@.len() == len - SubstrIter::<'a, N>::primed_len(len));
        assert(r@.len() == window_count(s@.len(), N as nat));
    }
    r
}

} // verus!
