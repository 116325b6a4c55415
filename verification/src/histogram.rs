//! The weighted color histogram: a multiset of distinct colors, each paired
//! with the number of qualifying pixels that carry it.

use vstd::prelude::*;
use crate::color::Color;

verus! {

/// The pixels that contribute to a histogram: those whose alpha channel
/// exceeds the transparency threshold, in pixel order.
pub open spec fn qualifying(pixels: Seq<Color>) -> Seq<Color> {
    pixels.filter(|c: Color| c.qualifies())
}

/// How many pixels of `s` carry exactly the color `c`.
pub open spec fn count_of(s: Seq<Color>, c: Color) -> nat
    decreases s.len(),
{
    if s.len() == 0 {
        0
    } else {
        count_of(s.drop_last(), c) + (if s.last() == c { 1nat } else { 0nat })
    }
}

/// How many distinct colors occur in `s`.
pub open spec fn distinct_count(s: Seq<Color>) -> nat {
    s.to_set().len()
}

/// One histogram entry: a color and its occurrence count.
#[derive(Clone, Copy, Debug, PartialEq, Eq, Structural)]
pub struct ColorCount {
    pub color: Color,
    pub count: usize,
}

/// The sum of the occurrence counts of a run of entries.
pub open spec fn weight_sum(entries: Seq<ColorCount>) -> int
    decreases entries.len(),
{
    if entries.len() == 0 {
        0
    } else {
        weight_sum(entries.drop_last()) + entries.last().count
    }
}

/// The colors of a run of entries, in entry order.
pub open spec fn entry_colors(entries: Seq<ColorCount>) -> Seq<Color> {
    entries.map_values(|e: ColorCount| e.color)
}

/// Entries are well formed when no color repeats and every count is positive.
pub open spec fn entries_wf(entries: Seq<ColorCount>) -> bool {
    &&& entry_colors(entries).no_duplicates()
    &&& forall|i: int| 0 <= i < entries.len() ==> (#[trigger] entries[i]).count >= 1
}

/// The entries describe the pixel run `pixels` exactly: each entry counts the
/// occurrences of its color, and every color that occurs has an entry.
pub open spec fn entries_represent(entries: Seq<ColorCount>, pixels: Seq<Color>) -> bool {
    &&& entries_wf(entries)
    &&& forall|i: int|
        0 <= i < entries.len() ==> (#[trigger] entries[i]).count == count_of(
            pixels,
            entries[i].color,
        )
    &&& forall|c: Color| count_of(pixels, c) > 0 ==> entry_colors(entries).contains(c)
}

/// A weighted multiset of distinct colors, built once per image by folding
/// every qualifying pixel.
pub struct Histogram {
    pub entries: Vec<ColorCount>,
}

impl Histogram {
    /// The histogram describes exactly the qualifying pixels of `pixels`.
    pub open spec fn represents(self, pixels: Seq<Color>) -> bool {
        entries_represent(self.entries@, qualifying(pixels))
    }

    /// Total weight: the number of pixels counted.
    pub open spec fn total_weight(self) -> int {
        weight_sum(self.entries@)
    }

    /// The number of distinct colors held.
    pub fn len(&self) -> (n: usize)
        ensures
            n == self.entries@.len(),
    {
        self.entries.len()
    }
}

pub proof fn lemma_count_le_len(s: Seq<Color>, c: Color)
    ensures
        count_of(s, c) <= s.len(),
    decreases s.len(),
{
    if s.len() > 0 {
        lemma_count_le_len(s.drop_last(), c);
    }
}

pub proof fn lemma_count_contains(s: Seq<Color>, c: Color)
    ensures
        (count_of(s, c) > 0) <==> s.contains(c),
    decreases s.len(),
{
    if s.len() == 0 {
        assert(!s.contains(c));
    } else {
        lemma_count_contains(s.drop_last(), c);
        if s.last() == c {
            assert(s[s.len() - 1] == c);
            assert(s.contains(c));
        } else {
            if s.contains(c) {
                let i = choose|i: int| 0 <= i < s.len() && s[i] == c;
                assert(s.drop_last()[i] == c);
                assert(s.drop_last().contains(c));
            }
            if s.drop_last().contains(c) {
                let i = choose|i: int| 0 <= i < s.drop_last().len() && s.drop_last()[i] == c;
                assert(s[i] == c);
            }
        }
    }
}

pub proof fn lemma_count_push(s: Seq<Color>, x: Color, c: Color)
    ensures
        count_of(s.push(x), c) == count_of(s, c) + (if x == c {
            1int
        } else {
            0int
        }),
{
    assert(s.push(x).drop_last() =~= s);
    assert(s.push(x).last() == x);
}

pub proof fn lemma_weight_sum_update(entries: Seq<ColorCount>, j: int, e: ColorCount)
    requires
        0 <= j < entries.len(),
    ensures
        weight_sum(entries.update(j, e)) == weight_sum(entries) - entries[j].count + e.count,
    decreases entries.len(),
{
    let upd = entries.update(j, e);
    if j == entries.len() - 1 {
        assert(upd.drop_last() =~= entries.drop_last());
        assert(upd.last() == e);
    } else {
        assert(upd.drop_last() =~= entries.drop_last().update(j, e));
        assert(upd.last() == entries.last());
        lemma_weight_sum_update(entries.drop_last(), j, e);
    }
}

pub proof fn lemma_weight_sum_push(entries: Seq<ColorCount>, e: ColorCount)
    ensures
        weight_sum(entries.push(e)) == weight_sum(entries) + e.count,
{
    assert(entries.push(e).drop_last() =~= entries);
    assert(entries.push(e).last() == e);
}

/// Appending one pixel extends the qualifying run by that pixel exactly when
/// it clears the transparency threshold.
pub proof fn lemma_qualifying_push(s: Seq<Color>, x: Color)
    ensures
        qualifying(s.push(x)) == (if x.qualifies() {
            qualifying(s).push(x)
        } else {
            qualifying(s)
        }),
{
    reveal(Seq::filter);
    assert(s.push(x).drop_last() =~= s);
    assert(s.push(x).last() == x);
}

/// Filtering never lengthens a pixel run.
pub proof fn lemma_qualifying_len(s: Seq<Color>)
    ensures
        qualifying(s).len() <= s.len(),
    decreases s.len(),
{
    reveal(Seq::filter);
    if s.len() > 0 {
        lemma_qualifying_len(s.drop_last());
    }
}

/// A well-formed histogram of a pixel run holds exactly one entry per
/// distinct color of that run.
pub proof fn lemma_represent_distinct(entries: Seq<ColorCount>, pixels: Seq<Color>)
    requires
        entries_represent(entries, pixels),
    ensures
        entries.len() == distinct_count(pixels),
{
    let colors = entry_colors(entries);
    assert forall|c: Color| colors.contains(c) implies pixels.contains(c) by {
        let i = choose|i: int| 0 <= i < colors.len() && colors[i] == c;
        assert(entries[i].count == count_of(pixels, entries[i].color));
        lemma_count_contains(pixels, c);
    }
    assert forall|c: Color| pixels.contains(c) implies colors.contains(c) by {
        lemma_count_contains(pixels, c);
    }
    assert(colors.to_set() =~= pixels.to_set());
    colors.unique_seq_to_set();
}

/// Structural equality of two colors, channel by channel.
pub fn color_eq(a: &Color, b: &Color) -> (r: bool)
    ensures
        r == (a == b),
{
    a.r == b.r && a.g == b.g && a.b == b.b && a.a == b.a
}

/// Folds every qualifying pixel of `pixels` into a fresh histogram.
///
/// The result counts each color exactly, covers every qualifying color, and
/// its total weight is the number of qualifying pixels.
pub fn build_histogram(pixels: &Vec<Color>) -> (h: Histogram)
    ensures
        h.represents(pixels@),
        h.total_weight() == qualifying(pixels@).len(),
        h.entries@.len() == distinct_count(qualifying(pixels@)),
{
    let ghost all = pixels@;
    let mut entries: Vec<ColorCount> = Vec::new();
    proof {
        reveal(Seq::filter);
        assert(all.take(0) =~= Seq::<Color>::empty());
        assert(qualifying(all.take(0)) =~= Seq::<Color>::empty());
    }
    let mut idx: usize = 0;
    while idx < pixels.len()
        invariant
            idx <= all.len(),
            all == pixels@,
            entries_represent(entries@, qualifying(all.take(idx as int))),
            weight_sum(entries@) == qualifying(all.take(idx as int)).len(),
        decreases all.len() - idx,
    {
        let px = pixels[idx];
        let ghost q = qualifying(all.take(idx as int));
        proof {
            assert(all.take(idx as int + 1) =~= all.take(idx as int).push(all[idx as int]));
            lemma_qualifying_push(all.take(idx as int), px);
        }
        if px.is_opaque_enough() {
            let ghost qn = q.push(px);
            proof {
                assert forall|c: Color| c != px implies count_of(qn, c) == count_of(q, c) by {
                    lemma_count_push(q, px, c);
                }
                lemma_count_push(q, px, px);
            }
            let n = entries.len();
            let mut j: usize = 0;
            while j < n && !color_eq(&entries[j].color, &px)
                invariant
                    j <= n,
                    n == entries@.len(),
                    forall|k: int| 0 <= k < j ==> (#[trigger] entries@[k]).color != px,
                decreases n - j,
            {
                j += 1;
            }
            if j < n {
                let ghost pre = entries@;
                let old_count = entries[j].count;
                proof {
                    assert(pre[j as int].count == count_of(q, px));
                    lemma_count_le_len(q, px);
                    lemma_qualifying_len(all.take(idx as int));
                }
                entries.set(j, ColorCount { color: px, count: old_count + 1 });
                proof {
                    assert(entry_colors(entries@) =~= entry_colors(pre));
                    lemma_weight_sum_update(pre, j as int, ColorCount { color: px, count: (old_count + 1) as usize });
                    assert forall|i: int|
                        0 <= i < entries@.len() implies (#[trigger] entries@[i]).count == count_of(
                        qn,
                        entries@[i].color,
                    ) by {
                        if i != j {
                            assert(entry_colors(pre)[i] == pre[i].color);
                            assert(entry_colors(pre)[j as int] == px);
                            assert(pre[i].color != px);
                        }
                    }
                    assert forall|c: Color| count_of(qn, c) > 0 implies entry_colors(
                        entries@,
                    ).contains(c) by {
                        if c == px {
                            assert(entry_colors(entries@)[j as int] == px);
                        } else {
                            assert(entry_colors(pre).contains(c));
                        }
                    }
                }
            } else {
                let ghost pre = entries@;
                proof {
                    if count_of(q, px) > 0 {
                        assert(entry_colors(pre).contains(px));
                        let i = choose|i: int|
                            0 <= i < entry_colors(pre).len() && entry_colors(pre)[i] == px;
                        assert(pre[i].color == px);
                        assert(false);
                    }
                }
                entries.push(ColorCount { color: px, count: 1 });
                proof {
                    lemma_weight_sum_push(pre, ColorCount { color: px, count: 1 });
                    assert(entry_colors(entries@) =~= entry_colors(pre).push(px));
                    assert forall|c: Color| count_of(qn, c) > 0 implies entry_colors(
                        entries@,
                    ).contains(c) by {
                        if c == px {
                            assert(entry_colors(entries@).last() == px);
                        } else {
                            assert(count_of(q, c) > 0);
                            assert(entry_colors(pre).contains(c));
                            let i = choose|i: int|
                                0 <= i < entry_colors(pre).len() && entry_colors(pre)[i] == c;
                            assert(entry_colors(entries@)[i] == c);
                        }
                    }
                }
            }
        }
        idx += 1;
    }
    proof {
        assert(all.take(all.len() as int) =~= all);
        lemma_represent_distinct(entries@, qualifying(all));
    }
    Histogram { entries }
}

} // verus!
