use vstd::prelude::*;

use crate::image::Image;
use vstd::pervasive::VecAdditionalExecFns;

verus! {

/// The sum, at flat pixel index `p`, of the samples of every image whose
/// label equals `label`, over the index-aligned `labels` and `images`.
pub open spec fn label_pixel_sum(
    labels: Seq<u8>,
    images: Seq<Image<u8>>,
    label: u8,
    p: int,
) -> int
    decreases labels.len(),
{
    if labels.len() == 0 {
        0
    } else {
        label_pixel_sum(labels.drop_last(), images.drop_last(), label, p) + (
        if labels.last() == label {
            images.last().data@[p] as int
        } else {
            0
        })
    }
}

proof fn lemma_label_pixel_sum_bound(labels: Seq<u8>, images: Seq<Image<u8>>, label: u8, p: int)
    ensures
        0 <= label_pixel_sum(labels, images, label, p) <= 255 * labels.len(),
    decreases labels.len(),
{
    if labels.len() > 0 {
        lemma_label_pixel_sum_bound(labels.drop_last(), images.drop_last(), label, p);
    }
}

/// Whether the label `l` occurs anywhere in `labels`.
pub fn contains_label(labels: &Vec<u8>, l: u8) -> (r: bool)
    ensures
        r == labels@.contains(l),
{
    for i in 0..labels.len()
        invariant
            forall|k: int| 0 <= k < i ==> labels@[k] != l,
    {
        if labels[i] == l {
            return true;
        }
    }
    false
}

/// All labels that occur in `labels`, each once, in ascending order: the
/// order in which the per-label composites are reported.
pub fn distinct_labels(labels: &Vec<u8>) -> (r: Vec<u8>)
    ensures
        forall|i: int, j: int| 0 <= i < j < r@.len() ==> r@[i] < r@[j],
        forall|l: u8| r@.contains(l) <==> labels@.contains(l),
{
    let mut r: Vec<u8> = Vec::new();
    for v in 0..256usize
        invariant
            forall|i: int, j: int| 0 <= i < j < r@.len() ==> r@[i] < r@[j],
            forall|k: int| 0 <= k < r@.len() ==> ((#[trigger] r@[k]) as int) < v,
            forall|l: u8|
                #![trigger r@.contains(l)]
                (l as int) < v ==> (r@.contains(l) <==> labels@.contains(l)),
    {
        let lv = v as u8;
        let ghost old_r = r@;
        if contains_label(labels, lv) {
            r.push(lv);
            proof {
                assert forall|l: u8| (l as int) < v + 1 implies (#[trigger] r@.contains(l)
                    <==> labels@.contains(l)) by {
                    if l == lv {
                        assert(r@[old_r.len() as int] == lv);
                        assert(r@.contains(lv));
                    } else {
                        if r@.contains(l) {
                            let k = choose|k: int| 0 <= k < r@.len() && r@[k] == l;
                            assert(k < old_r.len());
                            assert(old_r.contains(l));
                        }
                        if old_r.contains(l) {
                            let k = choose|k: int| 0 <= k < old_r.len() && old_r[k] == l;
                            assert(r@[k] == l);
                            assert(r@.contains(l));
                        }
                    }
                }
            }
        } else {
            proof {
                assert forall|l: u8| (l as int) < v + 1 implies (#[trigger] r@.contains(l)
                    <==> labels@.contains(l)) by {
                    if l == lv {
                        if r@.contains(lv) {
                            let k = choose|k: int| 0 <= k < r@.len() && r@[k] == lv;
                            assert((r@[k] as int) < v);
                            assert(false);
                        }
                    }
                }
            }
        }
    }
    r
}

/// Sums, cell by cell, every image labelled `label` into one accumulator
/// grid of the common shape `width` by `height`, using a wider integer so
/// that no cell can overflow.
#[verifier::loop_isolation(false)]
pub fn sum_images_for_label(
    labels: &Vec<u8>,
    images: &Vec<Image<u8>>,
    label: u8,
    width: u32,
    height: u32,
) -> (r: Image<u32>)
    requires
        labels@.len() == images@.len(),
        labels@.len() * 255 <= u32::MAX,
        width * height <= usize::MAX,
        forall|i: int|
            0 <= i < images@.len() ==> {
                &&& (#[trigger] images@[i]).width == width
                &&& images@[i].height == height
                &&& images@[i].wf()
            },
    ensures
        r.width == width,
        r.height == height,
        r.wf(),
        forall|p: int|
            0 <= p < width * height ==> (#[trigger] r.data@[p]) as int == label_pixel_sum(
                labels@,
                images@,
                label,
                p,
            ),
{
    let size: usize = (width as usize) * (height as usize);
    let mut acc: Vec<u32> = Vec::new();
    for p in 0..size
        invariant
            acc@.len() == p,
            forall|q: int| 0 <= q < p ==> (#[trigger] acc@[q]) == 0,
    {
        acc.push(0);
    }
    let n = labels.len();
    for i in 0..n
        invariant
            acc@.len() == size,
            forall|q: int|
                0 <= q < size ==> (#[trigger] acc@[q]) as int == label_pixel_sum(
                    labels@.take(i as int),
                    images@.take(i as int),
                    label,
                    q,
                ),
    {
        proof {
            assert(labels@.take(i + 1).drop_last() =~= labels@.take(i as int));
            assert(images@.take(i + 1).drop_last() =~= images@.take(i as int));
        }
        if labels[i] == label {
            for q in 0..size
                invariant
                    acc@.len() == size,
                    forall|q2: int|
                        0 <= q2 < q ==> (#[trigger] acc@[q2]) as int == label_pixel_sum(
                            labels@.take(i + 1),
                            images@.take(i + 1),
                            label,
                            q2,
                        ),
                    forall|q2: int|
                        q <= q2 < size ==> (#[trigger] acc@[q2]) as int == label_pixel_sum(
                            labels@.take(i as int),
                            images@.take(i as int),
                            label,
                            q2,
                        ),
            {
                proof {
                    lemma_label_pixel_sum_bound(
                        labels@.take(i as int),
                        images@.take(i as int),
                        label,
                        q as int,
                    );
                }
                let v: u32 = acc[q] + images[i].data[q] as u32;
                acc.set(q, v);
            }
        } else {
            proof {
                assert(forall|q: int|
                    label_pixel_sum(labels@.take(i + 1), images@.take(i + 1), label, q)
                        == label_pixel_sum(labels@.take(i as int), images@.take(i as int), label, q));
            }
        }
    }
    proof {
        assert(labels@.take(n as int) =~= labels@);
        assert(images@.take(n as int) =~= images@);
    }
    Image::new(width, height, acc)
}

/// The largest element of `s`, taking 0 as the floor: the running maximum
/// the aggregator tracks while it scans an accumulated grid.
pub open spec fn seq_max_u32(s: Seq<u32>) -> u32
    decreases s.len(),
{
    if s.len() == 0 {
        0
    } else if s.last() > seq_max_u32(s.drop_last()) {
        s.last()
    } else {
        seq_max_u32(s.drop_last())
    }
}

/// The largest accumulated sample of the grid, or 0 when the grid is empty.
#[verifier::loop_isolation(false)]
pub fn max_pixel(image: &Image<u32>) -> (r: u32)
    ensures
        r == seq_max_u32(image.data@),
        forall|p: int| 0 <= p < image.data@.len() ==> #[trigger] image.data@[p] <= r,
        r == 0 || exists|p: int| 0 <= p < image.data@.len() && image.data@[p] == r,
{
    let mut max_value: u32 = 0;
    let n = image.data.len();
    for p in 0..n
        invariant
            max_value == seq_max_u32(image.data@.take(p as int)),
            forall|q: int| 0 <= q < p ==> #[trigger] image.data@[q] <= max_value,
            max_value == 0 || exists|q: int| 0 <= q < p && image.data@[q] == max_value,
    {
        proof {
            assert(image.data@.take(p + 1).drop_last() =~= image.data@.take(p as int));
        }
        if image.data[p] > max_value {
            max_value = image.data[p];
        }
    }
    proof {
        assert(image.data@.take(n as int) =~= image.data@);
    }
    max_value
}

proof fn lemma_rescale_bound(v: int, m: int)
    requires
        1 <= m,
        0 <= v <= m,
    ensures
        0 <= 255 * v / m <= 255,
        v == m ==> 255 * v / m == 255,
{
    vstd::arithmetic::mul::lemma_mul_inequality(v, m, 255);
    vstd::arithmetic::div_mod::lemma_div_is_ordered(0, 255 * v, m);
    vstd::arithmetic::div_mod::lemma_div_is_ordered(255 * v, 255 * m, m);
    vstd::arithmetic::div_mod::lemma_div_multiples_vanish(255, m);
    assert(m * 255 == 255 * m);
}

/// Rescales an accumulated grid linearly for display: each cell becomes
/// `255 * cell / max_value`, rounded down, so a cell holding `max_value`
/// maps to exactly 255.
#[verifier::loop_isolation(false)]
pub fn rescale(image: &Image<u32>, max_value: u32) -> (r: Image<u8>)
    requires
        image.wf(),
        max_value >= 1,
        forall|p: int| 0 <= p < image.data@.len() ==> #[trigger] image.data@[p] <= max_value,
    ensures
        r.width == image.width,
        r.height == image.height,
        r.wf(),
        r.data@.len() == image.data@.len(),
        forall|p: int|
            0 <= p < image.data@.len() ==> ((#[trigger] r.data@[p]) as int) == 255 * image.data@[p]
                / max_value as int,
        forall|p: int|
            0 <= p < image.data@.len() && image.data@[p] == max_value ==> #[trigger] r.data@[p]
                == 255,
{
    let mut out: Vec<u8> = Vec::new();
    let n = image.data.len();
    for p in 0..n
        invariant
            out@.len() == p,
            forall|q: int|
                0 <= q < p ==> ((#[trigger] out@[q]) as int) == 255 * image.data@[q]
                    / max_value as int,
    {
        proof {
            lemma_rescale_bound(image.data@[p as int] as int, max_value as int);
        }
        let v: u64 = 255u64 * (image.data[p] as u64) / (max_value as u64);
        out.push(v as u8);
    }
    proof {
        lemma_rescale_bound(max_value as int, max_value as int);
    }
    Image::new(image.width, image.height, out)
}

} // verus!
