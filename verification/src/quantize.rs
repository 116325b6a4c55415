//! Reduction of an image's pixel population to a small representative
//! palette: decode, histogram, clustering, and weight-ordered output.

use vstd::prelude::*;
use vstd::multiset::Multiset;
use crate::color::Color;
use crate::error::Error;
use crate::histogram::{
    Histogram, ColorCount, build_histogram, qualifying, distinct_count, count_of, weight_sum,
    entries_represent, entry_colors, lemma_qualifying_push,
};

verus! {

broadcast use
    vstd::seq_lib::group_to_multiset_ensures,
    vstd::multiset::group_multiset_axioms;

/// What the image decoder yields for a run of bytes: the RGBA pixels in row
/// order, or nothing when the bytes are not a recognized raster format.
/// Decoding is a pure function of the bytes alone.
pub uninterp spec fn decoded_pixels(bytes: Seq<u8>) -> Option<Seq<Color>>;

/// Relies on image::load_from_memory and DynamicImage::to_rgba8: the bytes
/// decode to the same RGBA pixel run on every call, and decoding succeeds
/// exactly when the bytes hold a recognized raster format.
#[verifier::external_body]
fn decode_pixels(bytes: &[u8]) -> (r: Result<Vec<Color>, Error>)
    ensures
        match r {
            Ok(p) => decoded_pixels(bytes@) == Some(p@),
            Err(e) => decoded_pixels(bytes@) is None && e is Decode,
        },
{
    match image::load_from_memory(bytes) {
        Ok(img) => {
            let rgba = img.to_rgba8();
            Ok(rgba.pixels().map(|p| Color { r: p.0[0], g: p.0[1], b: p.0[2], a: p.0[3] }).collect())
        },
        Err(_) => Err(Error::Decode),
    }
}

/// Relies on exoquant::generate_palette with SimpleColorSpace and the KMeans
/// optimizer: the quantizer starts from one node and every step adds exactly
/// one, so the palette that comes back holds exactly `target` colors for any
/// pixel population; which colors come back is not stated, since the
/// clustering walks a hash map whose order varies between processes.
#[verifier::external_body]
fn exoquant_palette(pixels: &Vec<Color>, target: usize) -> (r: Vec<Color>)
    requires
        target >= 1,
    ensures
        r@.len() == target as int,
{
    let histogram: exoquant::Histogram = pixels
        .iter()
        .map(|c| exoquant::Color::new(c.r, c.g, c.b, c.a))
        .collect();
    let palette = exoquant::generate_palette(
        &histogram,
        &exoquant::SimpleColorSpace::default(),
        &exoquant::optimizer::KMeans,
        target,
    );
    palette.into_iter().map(|c| Color { r: c.r, g: c.g, b: c.b, a: c.a }).collect()
}

pub open spec fn sq(x: int) -> int {
    x * x
}

/// Perceptually weighted squared distance between two colors: the green
/// difference counts most, blue least, matching how the eye weighs channels;
/// plain Euclidean RGB distance would cluster visibly unlike colors.
pub open spec fn color_distance_spec(a: Color, b: Color) -> int {
    2 * sq(a.r - b.r) + 4 * sq(a.g - b.g) + 3 * sq(a.b - b.b) + sq(a.a - b.a)
}

fn channel_diff(x: u8, y: u8) -> (d: u32)
    ensures
        d <= 255,
        d * d == sq(x - y),
{
    if x >= y {
        (x - y) as u32
    } else {
        proof {
            assert(sq(x - y) == sq(y - x)) by (nonlinear_arith);
        }
        (y - x) as u32
    }
}

/// The perceptual distance, computed exactly.
pub fn color_distance(a: &Color, b: &Color) -> (d: u32)
    ensures
        d == color_distance_spec(*a, *b),
{
    let dr = channel_diff(a.r, b.r);
    let dg = channel_diff(a.g, b.g);
    let db = channel_diff(a.b, b.b);
    let da = channel_diff(a.a, b.a);
    proof {
        assert(dr * dr <= 65025 && dg * dg <= 65025 && db * db <= 65025 && da * da <= 65025)
            by (nonlinear_arith)
            requires
                dr <= 255 && dg <= 255 && db <= 255 && da <= 255,
        ;
    }
    2 * (dr * dr) + 4 * (dg * dg) + 3 * (db * db) + (da * da)
}

/// `k` is the index of the centroid nearest to `c`, first one winning ties.
pub open spec fn is_nearest(cens: Seq<Color>, c: Color, k: int) -> bool {
    &&& 0 <= k < cens.len()
    &&& forall|j: int|
        0 <= j < cens.len() ==> color_distance_spec(c, cens[k]) <= color_distance_spec(
            c,
            #[trigger] cens[j],
        )
    &&& forall|j: int|
        0 <= j < k ==> color_distance_spec(c, #[trigger] cens[j]) > color_distance_spec(
            c,
            cens[k],
        )
}

pub proof fn lemma_nearest_unique(cens: Seq<Color>, c: Color, k1: int, k2: int)
    requires
        is_nearest(cens, c, k1),
        is_nearest(cens, c, k2),
    ensures
        k1 == k2,
{
    if k1 < k2 {
        assert(color_distance_spec(c, cens[k1]) > color_distance_spec(c, cens[k2]));
    }
    if k2 < k1 {
        assert(color_distance_spec(c, cens[k2]) > color_distance_spec(c, cens[k1]));
    }
}

/// The index of the centroid nearest to `c` under the perceptual distance,
/// the earliest centroid winning ties.
pub fn nearest_centroid(c: &Color, cens: &Vec<Color>) -> (k: usize)
    requires
        cens@.len() >= 1,
    ensures
        is_nearest(cens@, *c, k as int),
{
    let mut best: usize = 0;
    let mut best_d: u32 = color_distance(c, &cens[0]);
    let mut j: usize = 1;
    while j < cens.len()
        invariant
            1 <= j <= cens@.len(),
            (best as int) < j,
            best_d == color_distance_spec(*c, cens@[best as int]),
            forall|i: int|
                0 <= i < j ==> best_d <= color_distance_spec(*c, #[trigger] cens@[i]),
            forall|i: int|
                0 <= i < best ==> color_distance_spec(*c, #[trigger] cens@[i]) > best_d,
        decreases cens@.len() - j,
    {
        let d = color_distance(c, &cens[j]);
        if d < best_d {
            best = j;
            best_d = d;
        }
        j += 1;
    }
    best
}

/// The aggregate pixel weight of the cluster around centroid `k`: the summed
/// counts of the histogram entries whose nearest centroid is `k`.
pub open spec fn assigned_weight(entries: Seq<ColorCount>, cens: Seq<Color>, k: int) -> int
    decreases entries.len(),
{
    if entries.len() == 0 {
        0
    } else {
        assigned_weight(entries.drop_last(), cens, k) + (if is_nearest(
            cens,
            entries.last().color,
            k,
        ) {
            entries.last().count as int
        } else {
            0int
        })
    }
}

pub proof fn lemma_assigned_weight_push(entries: Seq<ColorCount>, cens: Seq<Color>, k: int, e: ColorCount)
    ensures
        assigned_weight(entries.push(e), cens, k) == assigned_weight(entries, cens, k) + (
        if is_nearest(cens, e.color, k) {
            e.count as int
        } else {
            0int
        }),
{
    assert(entries.push(e).drop_last() =~= entries);
    assert(entries.push(e).last() == e);
}

pub proof fn lemma_assigned_weight_bounds(entries: Seq<ColorCount>, cens: Seq<Color>, k: int)
    ensures
        0 <= assigned_weight(entries, cens, k) <= weight_sum(entries),
    decreases entries.len(),
{
    if entries.len() > 0 {
        lemma_assigned_weight_bounds(entries.drop_last(), cens, k);
    }
}

proof fn lemma_weight_sum_take_le(entries: Seq<ColorCount>, i: int)
    requires
        0 <= i <= entries.len(),
    ensures
        weight_sum(entries.take(i)) <= weight_sum(entries),
    decreases entries.len() - i,
{
    if i == entries.len() {
        assert(entries.take(i) =~= entries);
    } else {
        assert(entries.take(i + 1).drop_last() =~= entries.take(i));
        assert(entries.take(i + 1).last() == entries[i]);
        lemma_weight_sum_take_le(entries, i + 1);
    }
}

/// The aggregate weight of every centroid's cluster, computed against the
/// histogram.
pub fn cluster_weights(h: &Histogram, cens: &Vec<Color>) -> (w: Vec<usize>)
    requires
        cens@.len() >= 1,
        weight_sum(h.entries@) <= usize::MAX,
    ensures
        w@.len() == cens@.len(),
        forall|k: int| 0 <= k < w@.len() ==> w@[k] == assigned_weight(h.entries@, cens@, k),
{
    let ghost entries = h.entries@;
    let mut w: Vec<usize> = Vec::new();
    let mut k: usize = 0;
    while k < cens.len()
        invariant
            k <= cens@.len(),
            w@.len() == k,
            forall|i: int| 0 <= i < k ==> w@[i] == 0,
        decreases cens@.len() - k,
    {
        w.push(0);
        k += 1;
    }
    proof {
        assert(entries.take(0) =~= Seq::<ColorCount>::empty());
    }
    let mut i: usize = 0;
    while i < h.entries.len()
        invariant
            i <= entries.len(),
            entries == h.entries@,
            weight_sum(entries) <= usize::MAX,
            cens@.len() >= 1,
            w@.len() == cens@.len(),
            forall|kk: int|
                0 <= kk < w@.len() ==> w@[kk] == assigned_weight(entries.take(i as int), cens@, kk),
        decreases entries.len() - i,
    {
        let e = h.entries[i];
        let k = nearest_centroid(&e.color, cens);
        proof {
            assert(entries.take(i as int + 1) =~= entries.take(i as int).push(entries[i as int]));
            assert forall|kk: int| 0 <= kk < cens@.len() implies assigned_weight(
                entries.take(i as int + 1),
                cens@,
                kk,
            ) == assigned_weight(entries.take(i as int), cens@, kk) + (if kk == k {
                e.count as int
            } else {
                0int
            }) by {
                lemma_assigned_weight_push(entries.take(i as int), cens@, kk, entries[i as int]);
                if kk != k && is_nearest(cens@, e.color, kk) {
                    lemma_nearest_unique(cens@, e.color, kk, k as int);
                }
            }
            lemma_assigned_weight_bounds(entries.take(i as int + 1), cens@, k as int);
            lemma_weight_sum_take_le(entries, i as int + 1);
        }
        let prev = w[k];
        w.set(k, prev + e.count);
        i += 1;
    }
    proof {
        assert(entries.take(entries.len() as int) =~= entries);
    }
    w
}

/// Entries stand in descending order of weight.
pub open spec fn sorted_by_weight_desc(s: Seq<ColorCount>) -> bool {
    forall|i: int, j: int|
        0 <= i < j < s.len() ==> (#[trigger] s[i]).count >= (#[trigger] s[j]).count
}

/// Reorders the entries so that the heaviest cluster comes first; the result
/// is a permutation of the input.
pub fn sort_by_weight(v: Vec<ColorCount>) -> (r: Vec<ColorCount>)
    ensures
        r@.to_multiset() == v@.to_multiset(),
        sorted_by_weight_desc(r@),
        r@.len() == v@.len(),
{
    let ghost orig = v@;
    let mut rest = v;
    let mut out: Vec<ColorCount> = Vec::new();
    proof {
        assert(out@.to_multiset().add(rest@.to_multiset()) =~= orig.to_multiset());
    }
    while rest.len() > 0
        invariant
            out@.to_multiset().add(rest@.to_multiset()) == orig.to_multiset(),
            sorted_by_weight_desc(out@),
            forall|i: int, j: int|
                0 <= i < out@.len() && 0 <= j < rest@.len() ==> (#[trigger] out@[i]).count >= (
                #[trigger] rest@[j]).count,
            out@.len() + rest@.len() == orig.len(),
        decreases rest@.len(),
    {
        let n = rest.len();
        let mut m: usize = 0;
        let mut i: usize = 1;
        while i < n
            invariant
                n == rest@.len(),
                1 <= i <= n,
                (m as int) < i,
                forall|t: int|
                    0 <= t < i ==> (#[trigger] rest@[t]).count <= rest@[m as int].count,
            decreases n - i,
        {
            if rest[i].count > rest[m].count {
                m = i;
            }
            i += 1;
        }
        let ghost old_rest = rest@;
        let ghost old_out = out@;
        let e = rest.remove(m);
        out.push(e);
        proof {
            assert(old_rest.remove(m as int).to_multiset() == old_rest.to_multiset().remove(
                old_rest[m as int],
            ));
            assert(out@.to_multiset() =~= old_out.to_multiset().insert(e));
            assert(old_rest[m as int] == e);
            assert(old_rest.contains(e));
            assert(old_rest.to_multiset().count(e) > 0);
            assert(out@.to_multiset().add(rest@.to_multiset()) =~= orig.to_multiset()) by {
                assert forall|x: ColorCount|
                    out@.to_multiset().count(x) + rest@.to_multiset().count(x)
                        == orig.to_multiset().count(x) by {
                    assert(old_out.to_multiset().count(x) + old_rest.to_multiset().count(x)
                        == orig.to_multiset().count(x));
                }
            }
            assert forall|j: int| 0 <= j < rest@.len() implies e.count >= (
            #[trigger] rest@[j]).count by {
                assert(rest@ == old_rest.remove(m as int));
                if j < m {
                    assert(rest@[j] == old_rest[j]);
                } else {
                    assert(rest@[j] == old_rest[j + 1]);
                }
            }
            assert forall|i: int, j: int|
                0 <= i < out@.len() && 0 <= j < rest@.len() implies (#[trigger] out@[i]).count
                >= (#[trigger] rest@[j]).count by {
                if i < old_out.len() {
                    if j < m {
                        assert(rest@[j] == old_rest[j]);
                    } else {
                        assert(rest@[j] == old_rest[j + 1]);
                    }
                } else {
                    assert(out@[i] == e);
                }
            }
            assert forall|i: int| 0 <= i < old_out.len() implies (#[trigger] old_out[i]).count
                >= e.count by {
                assert(old_rest[m as int] == e);
            }
        }
    }
    proof {
        assert(rest@.to_multiset() =~= Multiset::<ColorCount>::empty());
        assert(out@.to_multiset() =~= out@.to_multiset().add(rest@.to_multiset()));
        assert(out@.len() == orig.len()) by {
            assert(out@.to_multiset().len() == orig.to_multiset().len());
        }
    }
    out
}

/// The colors of a run of entries, extracted in order.
pub fn colors_of(entries: &Vec<ColorCount>) -> (p: Vec<Color>)
    ensures
        p@ == entry_colors(entries@),
{
    let mut p: Vec<Color> = Vec::new();
    let mut i: usize = 0;
    while i < entries.len()
        invariant
            i <= entries@.len(),
            p@.len() == i,
            forall|t: int| 0 <= t < i ==> p@[t] == entries@[t].color,
        decreases entries@.len() - i,
    {
        p.push(entries[i].color);
        i += 1;
    }
    proof {
        assert(p@ =~= entry_colors(entries@));
    }
    p
}

proof fn lemma_two_indexes_count(s: Seq<ColorCount>, i: int, j: int)
    requires
        0 <= i < j < s.len(),
        s[i] == s[j],
    ensures
        s.to_multiset().count(s[i]) >= 2,
{
    let r = s.remove(j);
    assert(r.to_multiset() == s.to_multiset().remove(s[j]));
    assert(r[i] == s[i]);
    assert(r.contains(s[i]));
    assert(r.to_multiset().count(s[i]) > 0);
}

proof fn lemma_count_two_indexes(s: Seq<ColorCount>, e: ColorCount)
    requires
        s.to_multiset().count(e) >= 2,
    ensures
        exists|i: int, j: int| 0 <= i < j < s.len() && s[i] == e && s[j] == e,
{
    assert(s.contains(e));
    let i = choose|i: int| 0 <= i < s.len() && s[i] == e;
    let r = s.remove(i);
    assert(r.to_multiset() == s.to_multiset().remove(e));
    assert(r.to_multiset().count(e) >= 1);
    assert(r.contains(e));
    let k = choose|k: int| 0 <= k < r.len() && r[k] == e;
    if k < i {
        assert(s[k] == e);
        assert(0 <= k < i < s.len() && s[k] == e && s[i] == e);
    } else {
        assert(s[k + 1] == e);
        assert(0 <= i < k + 1 < s.len() && s[i] == e && s[k + 1] == e);
    }
}

/// Reordering a histogram's entries does not change what they describe.
pub proof fn lemma_represent_permutation(a: Seq<ColorCount>, b: Seq<ColorCount>, pixels: Seq<Color>)
    requires
        entries_represent(a, pixels),
        b.to_multiset() == a.to_multiset(),
    ensures
        entries_represent(b, pixels),
{
    assert forall|i: int| 0 <= i < b.len() implies a.contains(#[trigger] b[i]) by {
        assert(b.contains(b[i]));
        assert(b.to_multiset().count(b[i]) > 0);
    }
    assert forall|i: int|
        0 <= i < b.len() implies (#[trigger] b[i]).count == count_of(pixels, b[i].color)
        && b[i].count >= 1 by {
        let j = choose|j: int| 0 <= j < a.len() && a[j] == b[i];
        assert(a[j].count == count_of(pixels, a[j].color));
    }
    assert forall|c: Color| count_of(pixels, c) > 0 implies entry_colors(b).contains(c) by {
        assert(entry_colors(a).contains(c));
        let j = choose|j: int| 0 <= j < entry_colors(a).len() && entry_colors(a)[j] == c;
        assert(a.contains(a[j]));
        assert(b.to_multiset().count(a[j]) > 0);
        assert(b.contains(a[j]));
        let i = choose|i: int| 0 <= i < b.len() && b[i] == a[j];
        assert(entry_colors(b)[i] == c);
    }
    assert forall|i: int, j: int|
        0 <= i < b.len() && 0 <= j < b.len() && i != j implies entry_colors(b)[i]
        != entry_colors(b)[j] by {
        assert(entry_colors(b)[i] == b[i].color);
        assert(entry_colors(b)[j] == b[j].color);
        if b[i].color == b[j].color {
            let lo = if i < j { i } else { j };
            let hi = if i < j { j } else { i };
            if b[lo] == b[hi] {
                lemma_two_indexes_count(b, lo, hi);
                lemma_count_two_indexes(a, b[lo]);
                let (p, q) = choose|p: int, q: int|
                    0 <= p < q < a.len() && a[p] == b[lo] && a[q] == b[lo];
                assert(entry_colors(a)[p] == entry_colors(a)[q]);
            } else {
                assert(a.contains(b[lo]));
                assert(a.contains(b[hi]));
                let p = choose|p: int| 0 <= p < a.len() && a[p] == b[lo];
                let q = choose|q: int| 0 <= q < a.len() && a[q] == b[hi];
                assert(p != q);
                assert(entry_colors(a)[p] == entry_colors(a)[q]);
            }
        }
    }
}

/// The centroids paired with their aggregate cluster weights, in centroid
/// order.
pub open spec fn weighted_centroids(cens: Seq<Color>, entries: Seq<ColorCount>) -> Seq<ColorCount> {
    Seq::new(
        cens.len(),
        |k: int|
            ColorCount { color: cens[k], count: assigned_weight(entries, cens, k) as usize },
    )
}

/// Reorders centroids so that the one whose cluster carries the most pixel
/// weight comes first; the result is a permutation of the centroids paired
/// with their weights.
pub fn order_by_weight(cens: Vec<Color>, h: &Histogram) -> (p: Vec<Color>)
    requires
        cens@.len() >= 1,
        weight_sum(h.entries@) <= usize::MAX,
    ensures
        p@.len() == cens@.len(),
        exists|pairs: Seq<ColorCount>|
            {
                &&& pairs.to_multiset() == weighted_centroids(cens@, h.entries@).to_multiset()
                &&& sorted_by_weight_desc(pairs)
                &&& p@ == entry_colors(pairs)
            },
{
    let ghost entries = h.entries@;
    let w = cluster_weights(h, &cens);
    let mut pairs: Vec<ColorCount> = Vec::new();
    let mut k: usize = 0;
    while k < cens.len()
        invariant
            k <= cens@.len(),
            w@.len() == cens@.len(),
            pairs@.len() == k,
            forall|t: int|
                0 <= t < w@.len() ==> w@[t] == assigned_weight(entries, cens@, t),
            forall|t: int|
                0 <= t < k ==> #[trigger] pairs@[t] == (ColorCount {
                    color: cens@[t],
                    count: w@[t],
                }),
        decreases cens@.len() - k,
    {
        pairs.push(ColorCount { color: cens[k], count: w[k] });
        k += 1;
    }
    proof {
        assert forall|t: int| 0 <= t < cens@.len() implies pairs@[t] == weighted_centroids(
            cens@,
            entries,
        )[t] by {
            lemma_assigned_weight_bounds(entries, cens@, t);
        }
        assert(pairs@ =~= weighted_centroids(cens@, entries));
    }
    let sorted = sort_by_weight(pairs);
    let p = colors_of(&sorted);
    proof {
        assert(sorted@.to_multiset() == weighted_centroids(cens@, h.entries@).to_multiset()
            && sorted_by_weight_desc(sorted@) && p@ == entry_colors(sorted@));
    }
    p
}

/// The qualifying pixels of a run, extracted in order.
pub fn filter_qualifying(pixels: &Vec<Color>) -> (q: Vec<Color>)
    ensures
        q@ == qualifying(pixels@),
{
    let ghost all = pixels@;
    let mut q: Vec<Color> = Vec::new();
    proof {
        reveal(Seq::filter);
        assert(all.take(0) =~= Seq::<Color>::empty());
        assert(qualifying(all.take(0)) =~= Seq::<Color>::empty());
    }
    let mut i: usize = 0;
    while i < pixels.len()
        invariant
            i <= all.len(),
            all == pixels@,
            q@ == qualifying(all.take(i as int)),
        decreases all.len() - i,
    {
        let px = pixels[i];
        proof {
            assert(all.take(i as int + 1) =~= all.take(i as int).push(all[i as int]));
            lemma_qualifying_push(all.take(i as int), px);
        }
        if px.is_opaque_enough() {
            q.push(px);
        }
        i += 1;
    }
    proof {
        assert(all.take(all.len() as int) =~= all);
    }
    q
}

/// Membership in a push extends membership in the base run.
proof fn lemma_push_contains(s: Seq<Color>, e: Color, x: Color)
    ensures
        s.push(e).contains(x) <==> (s.contains(x) || x == e),
{
    if s.push(e).contains(x) {
        let i = choose|i: int| 0 <= i < s.push(e).len() && s.push(e)[i] == x;
        if i < s.len() {
            assert(s[i] == x);
        }
    }
    if s.contains(x) {
        let i = choose|i: int| 0 <= i < s.len() && s[i] == x;
        assert(s.push(e)[i] == x);
    }
    if x == e {
        assert(s.push(e)[s.len() as int] == x);
    }
}

/// A color occurs among the qualifying pixels exactly when it occurs in the
/// run and clears the threshold.
pub proof fn lemma_qualifying_contains(s: Seq<Color>, x: Color)
    ensures
        qualifying(s).contains(x) <==> (s.contains(x) && x.qualifies()),
    decreases s.len(),
{
    if s.len() == 0 {
        reveal(Seq::filter);
        assert(!s.contains(x));
    } else {
        let pre = s.drop_last();
        let l = s.last();
        lemma_qualifying_contains(pre, x);
        assert(s =~= pre.push(l));
        lemma_qualifying_push(pre, l);
        lemma_push_contains(pre, l, x);
        if l.qualifies() {
            lemma_push_contains(qualifying(pre), l, x);
        }
    }
}

/// The colors that count as fully opaque in a pixel run.
pub open spec fn opaque_pixels(s: Seq<Color>) -> Seq<Color> {
    s.filter(|c: Color| c.a == 255)
}

proof fn lemma_opaque_push(s: Seq<Color>, x: Color)
    ensures
        opaque_pixels(s.push(x)) == (if x.a == 255 {
            opaque_pixels(s).push(x)
        } else {
            opaque_pixels(s)
        }),
{
    reveal(Seq::filter);
    assert(s.push(x).drop_last() =~= s);
    assert(s.push(x).last() == x);
}

/// A color occurs among the fully-opaque pixels exactly when it occurs in
/// the run with full alpha.
pub proof fn lemma_opaque_contains(s: Seq<Color>, x: Color)
    ensures
        opaque_pixels(s).contains(x) <==> (s.contains(x) && x.a == 255),
    decreases s.len(),
{
    if s.len() == 0 {
        reveal(Seq::filter);
        assert(!s.contains(x));
    } else {
        let pre = s.drop_last();
        let l = s.last();
        lemma_opaque_contains(pre, x);
        assert(s =~= pre.push(l));
        lemma_opaque_push(pre, l);
        lemma_push_contains(pre, l, x);
        if l.a == 255 {
            lemma_push_contains(opaque_pixels(pre), l, x);
        }
    }
}

/// The palette length owed for a pixel run: the target, capped by the number
/// of distinct qualifying colors.
pub open spec fn expected_len(pixels: Seq<Color>, target: int) -> int {
    let d = distinct_count(qualifying(pixels)) as int;
    if d < target {
        d
    } else {
        target
    }
}

/// What `quantize` owes for a decoded pixel run: a palette of the owed
/// length; whenever the distinct qualifying colors all fit, exactly those
/// colors in descending order of pixel count; and otherwise `target`
/// clustering centroids, ordered by the aggregate weight each one draws
/// from the pixel run's histogram.
pub open spec fn palette_describes(pixels: Seq<Color>, target: int, p: Seq<Color>) -> bool {
    &&& p.len() == expected_len(pixels, target)
    &&& (distinct_count(qualifying(pixels)) <= target ==> (exists|entries: Seq<ColorCount>|
        {
            &&& entries_represent(entries, qualifying(pixels))
            &&& sorted_by_weight_desc(entries)
            &&& p == entry_colors(entries)
        }))
    &&& (distinct_count(qualifying(pixels)) > target ==> (exists|
        entries: Seq<ColorCount>,
        cens: Seq<Color>,
        pairs: Seq<ColorCount>,
    |
        {
            &&& entries_represent(entries, qualifying(pixels))
            &&& cens.len() == target
            &&& pairs.to_multiset() == weighted_centroids(cens, entries).to_multiset()
            &&& sorted_by_weight_desc(pairs)
            &&& p == entry_colors(pairs)
        }))
}

/// Reduces a pixel run to at most `target` representative colors.
///
/// With no more distinct qualifying colors than the target, the palette is
/// exactly those colors, heaviest first; with more, the pixels are clustered
/// perceptually and the `target` centroids come back ordered by descending
/// aggregate cluster weight.
pub fn palette_from_pixels(pixels: &Vec<Color>, target: usize) -> (p: Vec<Color>)
    ensures
        palette_describes(pixels@, target as int, p@),
{
    let h = build_histogram(pixels);
    let d = h.len();
    if d <= target {
        let entries_vec = h.entries;
        let ghost orig_entries = entries_vec@;
        let sorted = sort_by_weight(entries_vec);
        proof {
            lemma_represent_permutation(orig_entries, sorted@, qualifying(pixels@));
        }
        colors_of(&sorted)
    } else if target == 0 {
        proof {
            let entries = h.entries@;
            let cens = Seq::<Color>::empty();
            let pairs = Seq::<ColorCount>::empty();
            assert(weighted_centroids(cens, entries) =~= Seq::<ColorCount>::empty());
            assert(pairs.to_multiset() =~= weighted_centroids(cens, entries).to_multiset());
            assert(entry_colors(pairs) =~= Seq::<Color>::empty());
            assert(entries_represent(entries, qualifying(pixels@)) && cens.len() == 0
                && pairs.to_multiset() == weighted_centroids(cens, entries).to_multiset()
                && sorted_by_weight_desc(pairs) && entry_colors(pairs) == Seq::<Color>::empty());
        }
        Vec::new()
    } else {
        let qual = filter_qualifying(pixels);
        let qualifying_count = qual.len();
        let cens = exoquant_palette(&qual, target);
        proof {
            assert(weight_sum(h.entries@) == qualifying_count as int);
        }
        let p = order_by_weight(cens, &h);
        proof {
            let pairs = choose|pairs: Seq<ColorCount>|
                {
                    &&& pairs.to_multiset() == weighted_centroids(cens@, h.entries@).to_multiset()
                    &&& sorted_by_weight_desc(pairs)
                    &&& p@ == entry_colors(pairs)
                };
            assert(entries_represent(h.entries@, qualifying(pixels@)) && cens@.len() == target
                && pairs.to_multiset() == weighted_centroids(cens@, h.entries@).to_multiset()
                && sorted_by_weight_desc(pairs) && p@ == entry_colors(pairs));
        }
        p
    }
}

/// Locates today's palette inside raw image bytes: decode, histogram,
/// reduce. Fails exactly when the bytes are not a recognized raster image.
pub fn quantize(bytes: &[u8], target: usize) -> (r: Result<Vec<Color>, Error>)
    ensures
        match r {
            Ok(p) => decoded_pixels(bytes@) matches Some(px) && palette_describes(
                px,
                target as int,
                p@,
            ),
            Err(e) => e is Decode && decoded_pixels(bytes@) is None,
        },
{
    let pixels = match decode_pixels(bytes) {
        Ok(p) => p,
        Err(e) => {
            return Err(e);
        },
    };
    Ok(palette_from_pixels(&pixels, target))
}

/// A pixel run with at least `target` distinct fully-opaque colors owes
/// a palette of exactly `target` entries, since every fully-opaque color
/// qualifies.
pub proof fn lemma_full_palette_length(pixels: Seq<Color>, target: int)
    requires
        0 <= target,
        distinct_count(opaque_pixels(pixels)) >= target,
    ensures
        expected_len(pixels, target) == target,
{
    broadcast use vstd::seq_lib::seq_to_set_is_finite;

    let a = opaque_pixels(pixels).to_set();
    let b = qualifying(pixels).to_set();
    assert forall|x: Color| a.contains(x) implies b.contains(x) by {
        lemma_opaque_contains(pixels, x);
        lemma_qualifying_contains(pixels, x);
    }
    vstd::set_lib::lemma_len_subset(a, b);
}

/// A pixel run whose pixels all sit at or below the alpha threshold
/// owes an empty palette, whatever the target.
pub proof fn lemma_transparent_empty_palette(pixels: Seq<Color>, target: int)
    requires
        0 <= target,
        forall|i: int| 0 <= i < pixels.len() ==> !(#[trigger] pixels[i]).qualifies(),
    ensures
        qualifying(pixels).len() == 0,
        expected_len(pixels, target) == 0,
{
    let q = qualifying(pixels);
    if q.len() > 0 {
        assert(q.contains(q[0]));
        lemma_qualifying_contains(pixels, q[0]);
        let i = choose|i: int| 0 <= i < pixels.len() && pixels[i] == q[0];
        assert(false);
    }
    q.lemma_cardinality_of_empty_set_is_0();
}

} // verus!
