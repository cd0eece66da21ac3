//! Splitting the first writes of a TLS connection (its handshake) into small
//! TCP segments of random sizes, so that the ClientHello never travels whole.

use vstd::prelude::*;

use crate::bytes_util::copy_range;
use crate::crypto::random_inclusive;

verus! {

/// The range of fragment sizes.
#[derive(Debug, Clone, Copy)]
pub struct TlsFragmentConfig {
    pub min_length: usize,
    pub max_length: usize,
}

/// The smallest size drawn: `min_len`, at least 1.
pub open spec fn low(min_len: usize) -> int {
    if min_len < 1 { 1 } else { min_len as int }
}

/// The largest size drawn: `max_len`, at least the smallest.
pub open spec fn high(min_len: usize, max_len: usize) -> int {
    if (max_len as int) < low(min_len) { low(min_len) } else { max_len as int }
}

/// The byte sequences that the fragments hold.
pub open spec fn views(v: Seq<Vec<u8>>) -> Seq<Seq<u8>> {
    v.map_values(|x: Vec<u8>| x@)
}

/// The bytes of the fragments, in order.
pub open spec fn joined(frags: Seq<Seq<u8>>) -> Seq<u8> {
    frags.flatten_alt()
}

/// Fragments that make up `data` in order, none empty, none above the largest
/// size, and every one but the last of at least the smallest size (the last is
/// cut to what was left).
pub open spec fn splits(frags: Seq<Seq<u8>>, data: Seq<u8>, min_len: usize, max_len: usize) -> bool {
    &&& joined(frags) == data
    &&& forall|i: int| 0 <= i < frags.len() ==> 1 <= #[trigger] frags[i].len() <= high(min_len, max_len)
    &&& forall|i: int| 0 <= i < frags.len() - 1 ==> #[trigger] frags[i].len() >= low(min_len)
}

/// Cuts `data` into pieces whose sizes are drawn uniformly from the size range.
pub fn split_to_fragments(data: &[u8], min_len: usize, max_len: usize) -> (r: Vec<Vec<u8>>)
    ensures
        splits(views(r@), data@, min_len, max_len),
{
    let lo: usize = if min_len < 1 { 1 } else { min_len };
    let hi: usize = if max_len < lo { lo } else { max_len };
    let mut frags: Vec<Vec<u8>> = Vec::new();
    let mut offset: usize = 0;
    while offset < data.len()
        invariant
            offset <= data@.len(),
            lo == low(min_len),
            hi == high(min_len, max_len),
            joined(views(frags@)) == data@.subrange(0, offset as int),
            forall|i: int| 0 <= i < views(frags@).len() ==> 1 <= #[trigger] views(frags@)[i].len() <= hi,
            forall|i: int| 0 <= i < views(frags@).len() ==> #[trigger] views(frags@)[i].len() >= lo
                || (i == views(frags@).len() - 1 && offset == data@.len()),
        decreases data@.len() - offset,
    {
        let draw = random_inclusive(lo as u64, hi as u64) as usize;
        let left = data.len() - offset;
        let size = if draw < left { draw } else { left };
        let piece = copy_range(data, offset, offset + size);
        let ghost before = views(frags@);
        frags.push(piece);
        proof {
            let after = views(frags@);
            assert(after =~= before.push(piece@));
            assert(after.drop_last() =~= before);
            assert(joined(after) == joined(before) + piece@);
            assert(data@.subrange(0, (offset + size) as int) =~= data@.subrange(0, offset as int) + piece@);
        }
        offset = offset + size;
    }
    proof {
        let f = views(frags@);
        assert(data@.subrange(0, data@.len() as int) =~= data@);
        assert forall|i: int| 0 <= i < f.len() - 1 implies #[trigger] f[i].len() >= low(min_len) by {
            assert(f[i].len() >= lo || (i == f.len() - 1 && offset == data@.len()));
        }
    }
    frags
}

/// The writing side of a fragmenting stream, without the stream: how many writes
/// were split so far (the first five are), and the fragments of the write in
/// progress with how far they were sent.
pub struct FragmentWriter {
    pub config: TlsFragmentConfig,
    pub pending_fragments: Vec<Vec<u8>>,
    pub current_fragment_idx: usize,
    pub current_offset: usize,
    pub handshake_writes: u32,
    pub max_handshake_writes: u32,
}

impl FragmentWriter {
    pub open spec fn wf(&self) -> bool {
        &&& self.current_fragment_idx <= self.pending_fragments@.len()
        &&& self.current_fragment_idx < self.pending_fragments@.len() ==> self.current_offset
            <= self.pending_fragments@[self.current_fragment_idx as int]@.len()
        &&& self.current_fragment_idx == self.pending_fragments@.len() ==> self.current_offset == 0
    }

    /// The bytes of the write in progress that were not sent yet.
    pub open spec fn unsent(&self) -> Seq<u8> {
        let f = views(self.pending_fragments@);
        let i = self.current_fragment_idx as int;
        if i < f.len() {
            f[i].subrange(self.current_offset as int, f[i].len() as int) + joined(f.subrange(i + 1, f.len() as int))
        } else {
            Seq::empty()
        }
    }

    pub fn new(config: TlsFragmentConfig) -> (r: Self)
        ensures
            r.wf(),
            r.config == config,
            r.handshake_writes == 0,
            r.max_handshake_writes == 5,
            r.pending_fragments@.len() == 0,
    {
        FragmentWriter {
            config,
            pending_fragments: Vec::new(),
            current_fragment_idx: 0,
            current_offset: 0,
            handshake_writes: 0,
            max_handshake_writes: 5,
        }
    }

    /// After the handshake writes, data goes through unchanged.
    pub fn passthrough(&self) -> (r: bool)
        ensures
            r == (self.handshake_writes >= self.max_handshake_writes),
    {
        self.handshake_writes >= self.max_handshake_writes
    }

    /// Whether fragments of an earlier write are still waiting.
    pub fn has_pending(&self) -> (r: bool)
        ensures
            r == (self.pending_fragments@.len() > 0),
    {
        self.pending_fragments.len() > 0
    }

    /// A new write during the handshake: counts it and splits it.
    pub fn start_write(&mut self, buf: &[u8])
        requires
            old(self).handshake_writes < old(self).max_handshake_writes,
        ensures
            final(self).wf(),
            final(self).handshake_writes == old(self).handshake_writes + 1,
            final(self).max_handshake_writes == old(self).max_handshake_writes,
            final(self).config == old(self).config,
            final(self).current_fragment_idx == 0,
            final(self).current_offset == 0,
            splits(views(final(self).pending_fragments@), buf@, old(self).config.min_length, old(self).config.max_length),
            final(self).unsent() == buf@,
    {
        self.handshake_writes = self.handshake_writes + 1;
        let frags = split_to_fragments(buf, self.config.min_length, self.config.max_length);
        self.pending_fragments = frags;
        self.current_fragment_idx = 0;
        self.current_offset = 0;
        proof {
            let f = views(self.pending_fragments@);
            if f.len() > 0 {
                f.lemma_flatten_and_flatten_alt_are_equivalent();
                f.subrange(1, f.len() as int).lemma_flatten_and_flatten_alt_are_equivalent();
                assert(f.drop_first() =~= f.subrange(1, f.len() as int));
                assert(f[0].subrange(0, f[0].len() as int) =~= f[0]);
            } else {
                assert(joined(f) =~= Seq::<u8>::empty());
            }
        }
    }

    /// The bytes to hand to the stream next: the rest of the current fragment,
    /// skipping fragments that are done; nothing once all were sent.
    pub fn next_chunk(&mut self) -> (r: Option<Vec<u8>>)
        requires
            old(self).wf(),
        ensures
            final(self).wf(),
            final(self).unsent() == old(self).unsent(),
            final(self).pending_fragments@ == old(self).pending_fragments@,
            final(self).handshake_writes == old(self).handshake_writes,
            final(self).config == old(self).config,
            final(self).max_handshake_writes == old(self).max_handshake_writes,
            match r {
                None => old(self).unsent().len() == 0,
                Some(c) => c@.len() > 0 && old(self).unsent().subrange(0, c@.len() as int) == c@
                    && final(self).current_fragment_idx < final(self).pending_fragments@.len()
                    && c@ == final(self).pending_fragments@[final(self).current_fragment_idx as int]@.subrange(
                    final(self).current_offset as int,
                    final(self).pending_fragments@[final(self).current_fragment_idx as int]@.len() as int,
                ),
            },
    {
        let ghost u0 = self.unsent();
        while self.current_fragment_idx < self.pending_fragments.len()
            invariant_except_break
                self.wf(),
                self.unsent() == u0,
                self.pending_fragments@ == old(self).pending_fragments@,
                self.handshake_writes == old(self).handshake_writes,
                self.config == old(self).config,
                self.max_handshake_writes == old(self).max_handshake_writes,
            ensures
                self.wf(),
                self.unsent() == u0,
                self.pending_fragments@ == old(self).pending_fragments@,
                self.handshake_writes == old(self).handshake_writes,
                self.config == old(self).config,
                self.max_handshake_writes == old(self).max_handshake_writes,
                self.current_fragment_idx < self.pending_fragments@.len() ==> self.current_offset
                    < self.pending_fragments@[self.current_fragment_idx as int]@.len(),
            decreases self.pending_fragments@.len() - self.current_fragment_idx,
        {
            let i = self.current_fragment_idx;
            let len = self.pending_fragments[i].len();
            if self.current_offset < len {
                break;
            }
            proof {
                let f = views(self.pending_fragments@);
                let i = i as int;
                assert(f[i].subrange(self.current_offset as int, f[i].len() as int) =~= Seq::<u8>::empty());
                lemma_joined_first(f.subrange(i + 1, f.len() as int));
                if i + 1 < f.len() {
                    assert(f.subrange(i + 1, f.len() as int).drop_first() =~= f.subrange(i + 2, f.len() as int));
                    assert(f[i + 1].subrange(0, f[i + 1].len() as int) =~= f[i + 1]);
                } else {
                    assert(f.subrange(i + 1, f.len() as int) =~= Seq::<Seq<u8>>::empty());
                }
            }
            self.current_fragment_idx = i + 1;
            self.current_offset = 0;
            proof {
                let f = views(self.pending_fragments@);
                if (i + 1) as int >= f.len() {
                    assert(joined(Seq::<Seq<u8>>::empty()) =~= Seq::<u8>::empty());
                }
            }
        }
        if self.current_fragment_idx >= self.pending_fragments.len() {
            return None;
        }
        let i = self.current_fragment_idx;
        let frag = &self.pending_fragments[i];
        let c = copy_range(frag.as_slice(), self.current_offset, frag.len());
        proof {
            let f = views(self.pending_fragments@);
            assert(u0.subrange(0, c@.len() as int) =~= c@);
        }
        Some(c)
    }

    /// `n` bytes of the current fragment were sent.
    pub fn advance(&mut self, n: usize)
        requires
            old(self).wf(),
            old(self).current_fragment_idx < old(self).pending_fragments@.len(),
            old(self).current_offset + n <= old(self).pending_fragments@[old(self).current_fragment_idx as int]@.len(),
        ensures
            final(self).wf(),
            final(self).unsent() == old(self).unsent().subrange(n as int, old(self).unsent().len() as int),
            final(self).pending_fragments@ == old(self).pending_fragments@,
            final(self).handshake_writes == old(self).handshake_writes,
            final(self).config == old(self).config,
            final(self).max_handshake_writes == old(self).max_handshake_writes,
    {
        let ghost u0 = self.unsent();
        let i = self.current_fragment_idx;
        let _total = self.pending_fragments.len();
        let len = self.pending_fragments[i].len();
        self.current_offset = self.current_offset + n;
        if self.current_offset >= len {
            self.current_fragment_idx = i + 1;
            self.current_offset = 0;
        }
        proof {
            let f = views(self.pending_fragments@);
            let ii = i as int;
            let o = old(self).current_offset as int;
            let rest = joined(f.subrange(ii + 1, f.len() as int));
            assert(u0 == f[ii].subrange(o, f[ii].len() as int) + rest);
            if self.current_fragment_idx == i + 1 {
                lemma_joined_first(f.subrange(ii + 1, f.len() as int));
                if ii + 1 < f.len() {
                    assert(f.subrange(ii + 1, f.len() as int).drop_first() =~= f.subrange(ii + 2, f.len() as int));
                    assert(f[ii + 1].subrange(0, f[ii + 1].len() as int) =~= f[ii + 1]);
                } else {
                    assert(f.subrange(ii + 1, f.len() as int) =~= Seq::<Seq<u8>>::empty());
                    assert(joined(Seq::<Seq<u8>>::empty()) =~= Seq::<u8>::empty());
                }
                assert(self.unsent() =~= u0.subrange(n as int, u0.len() as int));
            } else {
                assert(self.unsent() =~= u0.subrange(n as int, u0.len() as int));
            }
        }
    }

    /// All fragments were sent: the write is done.
    pub fn finish(&mut self)
        ensures
            final(self).wf(),
            final(self).pending_fragments@.len() == 0,
            final(self).handshake_writes == old(self).handshake_writes,
            final(self).config == old(self).config,
            final(self).max_handshake_writes == old(self).max_handshake_writes,
    {
        self.pending_fragments = Vec::new();
        self.current_fragment_idx = 0;
        self.current_offset = 0;
    }
}

/// The bytes of a non-empty list of fragments: the first, then the rest.
pub proof fn lemma_joined_first(f: Seq<Seq<u8>>)
    ensures
        f.len() > 0 ==> joined(f) == f[0] + joined(f.drop_first()),
{
    if f.len() > 0 {
        f.lemma_flatten_and_flatten_alt_are_equivalent();
        f.drop_first().lemma_flatten_and_flatten_alt_are_equivalent();
    }
}

} // verus!
