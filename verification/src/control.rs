//! Streams of two-bit control values packed sixteen to a `u32`, lowest bits
//! first.
use vstd::prelude::*;

verus! {

/// The two-bit field `j` (`j < 16`) of a packed word.
pub open spec fn field(w: u32, j: u32) -> u32 {
    (w >> (2 * j)) & 3u32
}

/// The control value at position `t` of a packed stream; positions past the
/// end of the stream read as `0`.
pub open spec fn control_at(words: Seq<u32>, t: int) -> u32 {
    if 0 <= t < 16 * words.len() {
        field(words[t / 16], (t % 16) as u32)
    } else {
        0
    }
}

/// Control values are two bits wide.
pub proof fn lemma_control_small(words: Seq<u32>, t: int)
    ensures
        control_at(words, t) < 4,
{
    if 0 <= t < 16 * words.len() {
        let w = words[t / 16];
        let j = (t % 16) as u32;
        assert((w >> (2 * j)) & 3u32 < 4) by (bit_vector);
    }
}

proof fn lemma_push_field(next: u32, x: u32, pos: u32, j: u32)
    requires
        pos <= 30,
        pos % 2 == 0,
        x < 4,
        next >> pos == 0,
        j < 16,
    ensures
        field(next | (x << pos), j) == (if 2 * j < pos {
            field(next, j)
        } else if 2 * j == pos {
            x
        } else {
            0
        }),
{
    assert(((next | (x << pos)) >> (2 * j)) & 3u32 == (if 2 * j < pos {
        (next >> (2 * j)) & 3u32
    } else if 2 * j == pos {
        x
    } else {
        0
    })) by (bit_vector)
        requires
            pos <= 30,
            pos % 2 == 0,
            x < 4,
            next >> pos == 0,
            j < 16,
    ;
}

proof fn lemma_push_high(next: u32, x: u32, pos: u32)
    requires
        pos < 30,
        pos % 2 == 0,
        x < 4,
        next >> pos == 0,
    ensures
        (next | (x << pos)) >> (pos + 2) == 0,
{
    assert((next | (x << pos)) >> (pos + 2) == 0) by (bit_vector)
        requires
            pos < 30,
            x < 4,
            next >> pos == 0,
    ;
}

} // verus!

verus! {

proof fn lemma_field_zero(j: u32)
    requires
        j < 16,
    ensures
        field(0, j) == 0,
{
    assert((0u32 >> (2 * j)) & 3u32 == 0) by (bit_vector);
}

proof fn lemma_field_above(next: u32, pos: u32, j: u32)
    requires
        pos <= 30,
        next >> pos == 0,
        2 * j >= pos,
        j < 16,
    ensures
        field(next, j) == 0,
{
    assert((next >> (2 * j)) & 3u32 == 0) by (bit_vector)
        requires
            pos <= 30,
            next >> pos == 0,
            2 * j >= pos,
            j < 16,
    ;
}

/// The packed stream `words` reads back as `values` followed by zeros.
pub open spec fn decodes_to(words: Seq<u32>, values: Seq<u32>) -> bool {
    forall|t: int|
        0 <= t ==> #[trigger] control_at(words, t) == (if t < values.len() {
            values[t]
        } else {
            0
        })
}

/// Packs two-bit control values into `u32` words.
pub struct Uint2Collector {
    collected: Vec<u32>,
    next: u32,
    pos: u8,
}

impl View for Uint2Collector {
    type V = Seq<u32>;

    /// The values pushed so far, in order.
    closed spec fn view(&self) -> Seq<u32> {
        let n = self.collected@.len();
        Seq::new(
            (16 * n + self.pos / 2) as nat,
            |t: int|
                if t < 16 * n {
                    field(self.collected@[t / 16], (t % 16) as u32)
                } else {
                    field(self.next, (t - 16 * n) as u32)
                },
        )
    }
}

impl Uint2Collector {
    /// The internal invariant: the partial word holds only the fields pushed
    /// into it.
    pub closed spec fn wf(&self) -> bool {
        &&& self.pos <= 30
        &&& self.pos % 2 == 0
        &&& self.next >> (self.pos as u32) == 0
    }

    /// An empty collector.
    pub fn new() -> (r: Self)
        ensures
            r.wf(),
            r@ == Seq::<u32>::empty(),
    {
        let r = Self { collected: Vec::with_capacity(1), next: 0, pos: 0 };
        assert(0u32 >> 0u32 == 0) by (bit_vector);
        assert(r@ =~= Seq::<u32>::empty());
        r
    }

    /// Appends a control value, which must be `0`, `1` or `2`.
    pub fn push(&mut self, x: u8)
        requires
            old(self).wf(),
            x < 3,
        ensures
            final(self).wf(),
            final(self)@ == old(self)@.push(x as u32),
    {
        let ghost old_view = self@;
        let ghost n = self.collected@.len();
        let ghost old_next = self.next;
        let pos = self.pos as u32;
        let xv = x as u32;
        let next = self.next | (xv << pos);
        proof {
            assert forall|j: u32| j < 16 implies field(next, j) == (if 2 * j < pos {
                field(old_next, j)
            } else if 2 * j == pos {
                xv
            } else {
                0
            }) by {
                lemma_push_field(old_next, xv, pos, j);
            }
        }
        if self.pos == 30 {
            self.collected.push(next);
            self.next = 0;
            self.pos = 0;
            proof {
                assert(0u32 >> 0u32 == 0) by (bit_vector);
                assert forall|t: int| 0 <= t < self@.len() implies #[trigger] self@[t]
                    == old_view.push(xv)[t] by {
                    if t < 16 * n {
                        assert(self.collected@[t / 16] == old(self).collected@[t / 16]);
                    } else {
                        assert(t / 16 == n);
                    }
                }
                assert(self@ =~= old_view.push(xv));
            }
        } else {
            self.next = next;
            self.pos = self.pos + 2;
            proof {
                lemma_push_high(old_next, xv, pos);
                assert forall|t: int| 0 <= t < self@.len() implies #[trigger] self@[t]
                    == old_view.push(xv)[t] by {
                    if t < 16 * n {
                    } else {
                        assert(2 * ((t - 16 * n) as u32) < pos || 2 * ((t - 16 * n) as u32)
                            == pos);
                    }
                }
                assert(self@ =~= old_view.push(xv));
            }
        }
    }

    /// The packed words, with trailing all-zero words dropped.
    pub fn into_iter(self) -> (r: Vec<u32>)
        requires
            self.wf(),
        ensures
            decodes_to(r@, self@),
            r@.len() == 0 || r@.last() != 0,
            r@.len() <= (self@.len() + 15) / 16,
    {
        let ghost vals = self@;
        let ghost n = self.collected@.len();
        let mut words = self.collected;
        let next = self.next;
        if next != 0 {
            words.push(next);
        }
        let ghost full = words@;
        proof {
            let nx = next;
            assert(nx >> 0u32 == nx) by (bit_vector);
            if next != 0 {
                assert(self.pos > 0);
                assert(full.len() == n + 1);
                assert((16 * n + self.pos / 2 + 15) / 16 == n + 1);
            } else {
                assert(full.len() == n);
                assert((16 * n + self.pos / 2 + 15) / 16 >= n);
            }
            assert(full.len() <= (vals.len() + 15) / 16);
        }
        proof {
            assert forall|t: int| 0 <= t implies #[trigger] control_at(full, t) == (if t
                < vals.len() {
                vals[t]
            } else {
                0
            }) by {
                if t < 16 * n {
                    assert(full[t / 16] == self.collected@[t / 16]);
                } else if t < 16 * n + 16 {
                    let j = (t - 16 * n) as u32;
                    if next != 0 {
                        assert(t / 16 == n);
                        assert(t % 16 == j);
                    }
                    if 2 * j >= self.pos {
                        lemma_field_above(next, self.pos as u32, j);
                    }
                    lemma_field_zero(j);
                }
            }
        }
        let mut idx = words.len();
        while idx > 0 && words[idx - 1] == 0
            invariant
                idx <= words@.len(),
                words@ == full,
                forall|k: int| idx <= k < words@.len() ==> words@[k] == 0,
            decreases idx,
        {
            idx = idx - 1;
        }
        words.truncate(idx);
        proof {
            assert forall|t: int| 0 <= t implies #[trigger] control_at(words@, t)
                == control_at(full, t) by {
                if 16 * idx <= t < 16 * full.len() {
                    assert(full[t / 16] == 0);
                    lemma_field_zero((t % 16) as u32);
                }
            }
        }
        words
    }
}

} // verus!

verus! {

/// Reads the control values of a packed stream back, sixteen per word,
/// lowest bits first.
pub struct Uint2Iter<'a> {
    words: &'a [u32],
    idx: usize,
    cur: u32,
    remain: u8,
}

impl<'a> Uint2Iter<'a> {
    /// The internal invariant.
    pub closed spec fn wf(&self) -> bool {
        &&& self.idx <= self.words@.len()
        &&& self.remain <= 15
        &&& self.idx == 0 ==> self.remain == 0
        &&& self.remain > 0 ==> self.cur == self.words@[self.idx - 1] >> (2 * (16
            - self.remain) as u32)
    }

    /// The stream being read.
    pub closed spec fn stream(&self) -> Seq<u32> {
        self.words@
    }

    /// How many values have been read so far.
    pub closed spec fn position(&self) -> int {
        16 * self.idx - self.remain
    }

    /// Starts reading `slice` from its first value.
    pub fn new(slice: &'a [u32]) -> (r: Self)
        ensures
            r.wf(),
            r.stream() == slice@,
            r.position() == 0,
            0 <= r.position() <= 16 * r.stream().len(),
    {
        Self { words: slice, idx: 0, cur: 0, remain: 0 }
    }

    /// The next value, or `None` once every word has been read.
    pub fn next(&mut self) -> (r: Option<u8>)
        requires
            old(self).wf(),
        ensures
            final(self).wf(),
            final(self).stream() == old(self).stream(),
            0 <= final(self).position() <= 16 * final(self).stream().len(),
            old(self).position() < 16 * old(self).stream().len() ==> r == Some(
                control_at(old(self).stream(), old(self).position()) as u8,
            ) && final(self).position() == old(self).position() + 1,
            old(self).position() >= 16 * old(self).stream().len() ==> r is None
                && final(self).position() == old(self).position(),
    {
        let ghost p = self.position();
        if self.remain == 0 {
            if self.idx == self.words.len() {
                return None;
            }
            self.cur = self.words[self.idx];
            self.idx = self.idx + 1;
            self.remain = 15;
            let ghost w0 = self.cur;
            assert(w0 == w0 >> 0u32) by (bit_vector);
        } else {
            self.remain = self.remain - 1;
            assert((2 * (16 - old(self).remain)) as u32 == (2 * (16 - (self.remain + 1))) as u32);
        }
        let ghost w = self.words@[self.idx - 1];
        let c = self.cur;
        let r = self.remain as u32;
        let res = (c & 3) as u8;
        self.cur = c >> 2;
        proof {
            assert(p / 16 == self.idx - 1);
            assert(p % 16 == 15 - r);
            assert(res == field(w, (15 - r) as u32)) by (bit_vector)
                requires
                    r <= 15,
                    c == w >> (2 * (16 - (r + 1))) as u32,
                    res == (c & 3) as u8,
            ;
            if r > 0 {
                assert(c >> 2 == w >> (2 * (16 - r)) as u32) by (bit_vector)
                    requires
                        0 < r <= 15,
                        c == w >> (2 * (16 - (r + 1))) as u32,
                ;
            }
        }
        Some(res)
    }
}

/// Reading back a stream that `Uint2Collector::into_iter` produced from the
/// pushed values gives those values in order, then zeros up to the end of
/// the last word: at each position `t` that `Uint2Iter::next` reads.
pub proof fn law_collected_values_read_back(words: Seq<u32>, values: Seq<u32>, t: int)
    requires
        decodes_to(words, values),
        0 <= t < 16 * words.len(),
    ensures
        t < values.len() ==> control_at(words, t) as u8 == values[t],
        t >= values.len() ==> control_at(words, t) == 0,
{
    assert(control_at(words, t) == (if t < values.len() { values[t] } else { 0 }));
    lemma_control_small(words, t);
}

} // verus!
