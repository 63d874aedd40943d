//! The WNN orchestrator: wires the gadgets into the full prediction
//! pipeline over one statement.
//!
//! Data flow: pixel grid → per-threshold binarized bits → bit permutation
//! → grouping into joint inputs → modular hashing → per-class bloom
//! lookups → accumulated per-class scores, which are the circuit's public
//! outputs.
//!
//! Model parameters (thresholds, permutation, bloom tables) are validated
//! once at construction and read-only afterwards; a fresh image is the
//! per-proof witness input. Shape, length and permutation mismatches are
//! construction-time failures, never deferred to proving.

use vstd::prelude::*;
use vstd::arithmetic::power2::{lemma_pow2_strictly_increases, pow2};

use crate::bits2num::{convert_le, le_value, lemma_le_value_bound};
use crate::bloom_filter::{spec_bloom_response, BloomFilter};
use crate::greater_than::{greater_than_copy, greater_than_witness};
use crate::hash::{hash, spec_hash};
use crate::params::{
    Bits2NumConfig, BloomFilterConfig, ConfigurationError, HashFunctionConfig, WnnCircuitParams,
};
use crate::response_accumulator::{accumulate_responses, count_true};
use crate::utils::{checked_mul_usize, lemma_flat_index_decode};

verus! {

/// A two-dimensional vector, as a sequence of rows.
pub open spec fn grid_view<T>(v: Vec<Vec<T>>) -> Seq<Seq<T>> {
    v@.map_values(|r: Vec<T>| r@)
}

/// A three-dimensional vector, as a sequence of grids.
pub open spec fn tensor_view<T>(v: Vec<Vec<Vec<T>>>) -> Seq<Seq<Seq<T>>> {
    v@.map_values(|p: Vec<Vec<T>>| grid_view(p))
}

/// How a grid view indexes into the underlying vectors.
pub proof fn lemma_grid_view_index<T>(v: Vec<Vec<T>>)
    ensures
        grid_view(v).len() == v@.len(),
        forall|i: int| 0 <= i < v@.len() ==> (#[trigger] grid_view(v)[i]) == v@[i]@,
{
}

/// How a tensor view indexes into the underlying vectors.
pub proof fn lemma_tensor_view_index<T>(v: Vec<Vec<Vec<T>>>)
    ensures
        tensor_view(v).len() == v@.len(),
        forall|i: int|
            0 <= i < v@.len() ==> (#[trigger] tensor_view(v)[i]).len() == v@[i]@.len(),
        forall|i: int, j: int|
            0 <= i < v@.len() && 0 <= j < v@[i]@.len() ==> (#[trigger] tensor_view(v)[i][j])
                == v@[i]@[j]@,
{
    assert forall|i: int, j: int|
        0 <= i < v@.len() && 0 <= j < v@[i]@.len() implies (#[trigger] tensor_view(v)[i][j])
        == v@[i]@[j]@ by {
        assert(tensor_view(v)[i] == grid_view(v@[i]));
    };
}

/// A well-shaped threshold tensor: nonempty in every dimension, with
/// rectangular rows and planes.
pub open spec fn spec_thresholds_shape_ok(th: Seq<Seq<Seq<u16>>>) -> bool {
    &&& th.len() >= 1
    &&& th[0].len() >= 1
    &&& th[0][0].len() >= 1
    &&& forall|i: int| 0 <= i < th.len() ==> (#[trigger] th[i]).len() == th[0].len()
    &&& forall|i: int, j: int|
        0 <= i < th.len() && 0 <= j < th[0].len() ==> (#[trigger] th[i][j]).len()
            == th[0][0].len()
}

/// Every threshold lies in `[0, 256]`.
pub open spec fn spec_thresholds_values_ok(th: Seq<Seq<Seq<u16>>>) -> bool {
    forall|i: int, j: int, b: int|
        0 <= i < th.len() && 0 <= j < th[i].len() && 0 <= b < th[i][j].len() ==> (#[trigger] th[i][j][b])
            <= 256
}

/// A well-shaped bloom tensor: at least one class and one input, with
/// rectangular classes and rows.
pub open spec fn spec_bloom_shape_ok(bf: Seq<Seq<Seq<bool>>>) -> bool {
    &&& bf.len() >= 1
    &&& bf[0].len() >= 1
    &&& bf[0][0].len() >= 1
    &&& forall|c: int| 0 <= c < bf.len() ==> (#[trigger] bf[c]).len() == bf[0].len()
    &&& forall|c: int, i: int|
        0 <= c < bf.len() && 0 <= i < bf[0].len() ==> (#[trigger] bf[c][i]).len()
            == bf[0][0].len()
}

/// A valid input permutation: one index per binarized bit, every index in
/// range, no index twice — a bijection on `[0, total)`.
pub open spec fn spec_perm_ok(perm: Seq<u64>, total: int) -> bool {
    &&& perm.len() == total
    &&& forall|k: int| 0 <= k < perm.len() ==> (#[trigger] perm[k]) < total
    &&& forall|k1: int, k2: int| 0 <= k1 < k2 < perm.len() ==> perm[k1] != perm[k2]
}

/// The binarized bit for one pixel and one stored threshold: set exactly
/// when the intensity reaches the threshold. A threshold of 0 is satisfied
/// by every intensity; the 256 sentinel by none.
pub open spec fn spec_bit(intensity: u8, threshold: u16) -> bool {
    intensity as int >= threshold as int
}

/// A zero threshold yields a set bit for every intensity, including 0.
pub proof fn lemma_zero_threshold_bit(intensity: u8)
    ensures
        spec_bit(intensity, 0),
{
}

/// If the pixel count alone overflows the address space, so does the
/// total bit count.
proof fn lemma_wh_overflow_means_total_overflow(w: int, h: int, bpi: int)
    requires
        w * h > usize::MAX,
        bpi >= 1,
    ensures
        bpi * (w * h) > usize::MAX,
{
    assert(bpi * (w * h) >= w * h) by (nonlinear_arith)
        requires
            bpi >= 1,
            w * h > 0,
    ;
}

/// Checks the threshold tensor: shape first, then the `[0, 256]` range of
/// every entry.
fn check_thresholds(th: &Vec<Vec<Vec<u16>>>) -> (r: Result<(), ConfigurationError>)
    ensures
        r is Ok <==> (spec_thresholds_shape_ok(tensor_view(*th)) && spec_thresholds_values_ok(
            tensor_view(*th),
        )),
        !spec_thresholds_shape_ok(tensor_view(*th)) ==> r == Err::<(), _>(
            ConfigurationError::ShapeMismatch,
        ),
        spec_thresholds_shape_ok(tensor_view(*th)) && !spec_thresholds_values_ok(tensor_view(*th))
            ==> r == Err::<(), _>(ConfigurationError::ThresholdOutOfRange),
{
    let ghost tv = tensor_view(*th);
    proof {
        lemma_tensor_view_index(*th);
    }
    let w = th.len();
    if w == 0 {
        return Err(ConfigurationError::ShapeMismatch);
    }
    let h = th[0].len();
    if h == 0 {
        return Err(ConfigurationError::ShapeMismatch);
    }
    let bpi = th[0][0].len();
    proof {
        assert(tv[0].len() == h);
        assert(tv[0][0].len() == bpi);
    }
    if bpi == 0 {
        return Err(ConfigurationError::ShapeMismatch);
    }
    let mut i: usize = 0;
    while i < w
        invariant
            i <= w == tv.len(),
            tv == tensor_view(*th),
            h == tv[0].len(),
            forall|i2: int| 0 <= i2 < i ==> (#[trigger] tv[i2]).len() == h,
        decreases w - i,
    {
        proof {
            lemma_tensor_view_index(*th);
        }
        if th[i].len() != h {
            proof {
                assert(tv[i as int].len() != h);
            }
            return Err(ConfigurationError::ShapeMismatch);
        }
        i = i + 1;
    }
    let mut i: usize = 0;
    while i < w
        invariant
            i <= w == tv.len(),
            tv == tensor_view(*th),
            h == tv[0].len(),
            bpi == tv[0][0].len(),
            forall|i2: int| 0 <= i2 < w ==> (#[trigger] tv[i2]).len() == h,
            forall|i2: int, j2: int|
                0 <= i2 < i && 0 <= j2 < h ==> (#[trigger] tv[i2][j2]).len() == bpi,
        decreases w - i,
    {
        let mut j: usize = 0;
        while j < h
            invariant
                i < w == tv.len(),
                j <= h,
                tv == tensor_view(*th),
                h == tv[0].len(),
                bpi == tv[0][0].len(),
                forall|i2: int| 0 <= i2 < w ==> (#[trigger] tv[i2]).len() == h,
                forall|i2: int, j2: int|
                    0 <= i2 < i && 0 <= j2 < h ==> (#[trigger] tv[i2][j2]).len() == bpi,
                forall|j2: int| 0 <= j2 < j ==> (#[trigger] tv[i as int][j2]).len() == bpi,
            decreases h - j,
        {
            proof {
                lemma_tensor_view_index(*th);
                assert(tv[i as int].len() == h);
            }
            if th[i][j].len() != bpi {
                proof {
                    assert(tv[i as int][j as int].len() != bpi);
                }
                return Err(ConfigurationError::ShapeMismatch);
            }
            j = j + 1;
        }
        i = i + 1;
    }
    assert(spec_thresholds_shape_ok(tv));
    let mut i: usize = 0;
    while i < w
        invariant
            i <= w == tv.len(),
            tv == tensor_view(*th),
            spec_thresholds_shape_ok(tv),
            h == tv[0].len(),
            bpi == tv[0][0].len(),
            forall|i2: int, j2: int, b2: int|
                0 <= i2 < i && 0 <= j2 < tv[i2].len() && 0 <= b2 < tv[i2][j2].len() ==> (
                #[trigger] tv[i2][j2][b2]) <= 256,
        decreases w - i,
    {
        let mut j: usize = 0;
        while j < h
            invariant
                i < w == tv.len(),
                j <= h,
                tv == tensor_view(*th),
                spec_thresholds_shape_ok(tv),
                h == tv[0].len(),
                bpi == tv[0][0].len(),
                forall|i2: int, j2: int, b2: int|
                    0 <= i2 < i && 0 <= j2 < tv[i2].len() && 0 <= b2 < tv[i2][j2].len() ==> (
                    #[trigger] tv[i2][j2][b2]) <= 256,
                forall|j2: int, b2: int|
                    0 <= j2 < j && 0 <= b2 < tv[i as int][j2].len() ==> (#[trigger] tv[i as int][j2][b2])
                        <= 256,
            decreases h - j,
        {
            let mut b: usize = 0;
            while b < bpi
                invariant
                    i < w == tv.len(),
                    j < h,
                    b <= bpi,
                    tv == tensor_view(*th),
                    spec_thresholds_shape_ok(tv),
                    h == tv[0].len(),
                    bpi == tv[0][0].len(),
                    forall|b2: int|
                        0 <= b2 < b ==> (#[trigger] tv[i as int][j as int][b2]) <= 256,
                decreases bpi - b,
            {
                proof {
                    lemma_tensor_view_index(*th);
                    lemma_grid_view_index(th@[i as int]);
                    assert(tv[i as int].len() == h);
                    assert(tv[i as int][j as int].len() == bpi);
                    assert(tv[i as int][j as int] == th@[i as int]@[j as int]@);
                }
                if th[i][j][b] > 256 {
                    proof {
                        assert(tv[i as int][j as int][b as int] > 256);
                    }
                    return Err(ConfigurationError::ThresholdOutOfRange);
                }
                b = b + 1;
            }
            j = j + 1;
        }
        i = i + 1;
    }
    Ok(())
}

/// Checks the bloom tensor's shape: nonempty and rectangular.
fn check_bloom_shape(bf: &Vec<Vec<Vec<bool>>>) -> (r: bool)
    ensures
        r == spec_bloom_shape_ok(tensor_view(*bf)),
{
    let ghost tv = tensor_view(*bf);
    proof {
        lemma_tensor_view_index(*bf);
    }
    let c_len = bf.len();
    if c_len == 0 {
        return false;
    }
    let i_len = bf[0].len();
    if i_len == 0 {
        return false;
    }
    let e_len = bf[0][0].len();
    proof {
        assert(tv[0].len() == i_len);
        assert(tv[0][0].len() == e_len);
    }
    if e_len == 0 {
        return false;
    }
    let mut c: usize = 0;
    while c < c_len
        invariant
            c <= c_len == tv.len(),
            tv == tensor_view(*bf),
            i_len == tv[0].len(),
            forall|c2: int| 0 <= c2 < c ==> (#[trigger] tv[c2]).len() == i_len,
        decreases c_len - c,
    {
        proof {
            lemma_tensor_view_index(*bf);
        }
        if bf[c].len() != i_len {
            proof {
                assert(tv[c as int].len() != i_len);
            }
            return false;
        }
        c = c + 1;
    }
    let mut c: usize = 0;
    while c < c_len
        invariant
            c <= c_len == tv.len(),
            tv == tensor_view(*bf),
            i_len == tv[0].len(),
            e_len == tv[0][0].len(),
            forall|c2: int| 0 <= c2 < c_len ==> (#[trigger] tv[c2]).len() == i_len,
            forall|c2: int, i2: int|
                0 <= c2 < c && 0 <= i2 < i_len ==> (#[trigger] tv[c2][i2]).len() == e_len,
        decreases c_len - c,
    {
        let mut i: usize = 0;
        while i < i_len
            invariant
                c < c_len == tv.len(),
                i <= i_len,
                tv == tensor_view(*bf),
                i_len == tv[0].len(),
                e_len == tv[0][0].len(),
                forall|c2: int| 0 <= c2 < c_len ==> (#[trigger] tv[c2]).len() == i_len,
                forall|c2: int, i2: int|
                    0 <= c2 < c && 0 <= i2 < i_len ==> (#[trigger] tv[c2][i2]).len() == e_len,
                forall|i2: int| 0 <= i2 < i ==> (#[trigger] tv[c as int][i2]).len() == e_len,
            decreases i_len - i,
        {
            proof {
                lemma_tensor_view_index(*bf);
                assert(tv[c as int].len() == i_len);
            }
            if bf[c][i].len() != e_len {
                proof {
                    assert(tv[c as int][i as int].len() != e_len);
                }
                return false;
            }
            i = i + 1;
        }
        c = c + 1;
    }
    true
}

/// Checks that the permutation is a bijection on `[0, total)`, using a
/// seen-marker per index.
fn check_permutation(perm: &Vec<u64>, total: usize) -> (r: bool)
    ensures
        r == spec_perm_ok(perm@, total as int),
{
    if perm.len() != total {
        return false;
    }
    let mut seen: Vec<bool> = Vec::new();
    let mut v: usize = 0;
    while v < total
        invariant
            v <= total,
            seen@.len() == v,
            forall|v2: int| 0 <= v2 < v ==> !(#[trigger] seen@[v2]),
        decreases total - v,
    {
        seen.push(false);
        v = v + 1;
    }
    let mut k: usize = 0;
    while k < total
        invariant
            k <= total == perm@.len(),
            seen@.len() == total,
            forall|v2: int|
                0 <= v2 < total ==> ((#[trigger] seen@[v2]) <==> (exists|k2: int|
                    0 <= k2 < k && (#[trigger] perm@[k2]) as int == v2)),
            forall|k2: int| 0 <= k2 < k ==> (#[trigger] perm@[k2]) < total,
            forall|k1: int, k2: int| 0 <= k1 < k2 < k ==> perm@[k1] != perm@[k2],
        decreases total - k,
    {
        let p = perm[k];
        if p >= total as u64 {
            return false;
        }
        if seen[p as usize] {
            proof {
                let k2 = choose|k2: int| 0 <= k2 < k && (#[trigger] perm@[k2]) as int == p as int;
                assert(perm@[k2] == perm@[k as int]);
            }
            return false;
        }
        seen.set(p as usize, true);
        k = k + 1;
    }
    true
}

/// Flattens the (classes, inputs, entries) bloom tensor to one row per
/// (class, input) pair, in class-major order.
fn flatten_bloom(bf: Vec<Vec<Vec<bool>>>) -> (flat: Vec<Vec<bool>>)
    requires
        spec_bloom_shape_ok(tensor_view(bf)),
    ensures
        flat@.len() == tensor_view(bf).len() * tensor_view(bf)[0].len(),
        forall|r: int|
            0 <= r < flat@.len() ==> (#[trigger] flat@[r])@ == tensor_view(bf)[r / tensor_view(
                bf,
            )[0].len() as int][r % tensor_view(bf)[0].len() as int],
        forall|r: int|
            0 <= r < flat@.len() ==> (#[trigger] flat@[r])@.len() == tensor_view(bf)[0][0].len(),
{
    let ghost tv = tensor_view(bf);
    let n_classes = bf.len();
    let n_inputs = bf[0].len();
    let n_entries = bf[0][0].len();
    let mut flat: Vec<Vec<bool>> = Vec::new();
    let mut c: usize = 0;
    while c < n_classes
        invariant
            c <= n_classes == tv.len(),
            tv == tensor_view(bf),
            spec_bloom_shape_ok(tv),
            n_inputs == tv[0].len(),
            n_entries == tv[0][0].len(),
            flat@.len() == c * n_inputs,
            forall|r: int|
                0 <= r < flat@.len() ==> (#[trigger] flat@[r])@ == tv[r / n_inputs as int][r
                    % n_inputs as int],
            forall|r: int| 0 <= r < flat@.len() ==> (#[trigger] flat@[r])@.len() == n_entries,
        decreases n_classes - c,
    {
        let mut i: usize = 0;
        while i < n_inputs
            invariant
                c < n_classes == tv.len(),
                i <= n_inputs,
                tv == tensor_view(bf),
                spec_bloom_shape_ok(tv),
                n_inputs == tv[0].len(),
                n_entries == tv[0][0].len(),
                flat@.len() == c * n_inputs + i,
                forall|r: int|
                    0 <= r < flat@.len() ==> (#[trigger] flat@[r])@ == tv[r / n_inputs as int][r
                        % n_inputs as int],
                forall|r: int| 0 <= r < flat@.len() ==> (#[trigger] flat@[r])@.len() == n_entries,
            decreases n_inputs - i,
        {
            let mut row: Vec<bool> = Vec::new();
            let mut e: usize = 0;
            while e < n_entries
                invariant
                    c < n_classes == tv.len(),
                    i < n_inputs,
                    e <= n_entries,
                    tv == tensor_view(bf),
                    spec_bloom_shape_ok(tv),
                    n_inputs == tv[0].len(),
                    n_entries == tv[0][0].len(),
                    row@.len() == e,
                    forall|e2: int| 0 <= e2 < e ==> row@[e2] == tv[c as int][i as int][e2],
                decreases n_entries - e,
            {
                proof {
                    lemma_tensor_view_index(bf);
                    lemma_grid_view_index(bf@[c as int]);
                    assert(tv[c as int].len() == n_inputs);
                    assert(tv[c as int][i as int].len() == n_entries);
                    assert(tv[c as int][i as int] == bf@[c as int]@[i as int]@);
                }
                row.push(bf[c][i][e]);
                e = e + 1;
            }
            proof {
                assert(row@ =~= tv[c as int][i as int]);
                lemma_flat_index_decode(c as int, i as int, n_inputs as int);
            }
            flat.push(row);
            i = i + 1;
        }
        proof {
            assert((c + 1) as int * n_inputs as int == c as int * n_inputs as int
                + n_inputs as int) by (nonlinear_arith);
        }
        c = c + 1;
    }
    flat
}

/// The WNN prediction chip: the validated model parameters plus the
/// gadget wiring.
#[derive(Debug)]
pub struct WnnChip {
    /// Hash and bloom parameters of the model.
    pub params: WnnCircuitParams,
    /// The flattened membership table, one row per (class, input) pair.
    pub bloom_filter: BloomFilter,
    /// Per-pixel, per-bit-plane thresholds, each in `[0, 256]`.
    pub binarization_thresholds: Vec<Vec<Vec<u16>>>,
    /// Bijection on the binarized bits, applied before grouping.
    pub input_permutation: Vec<u64>,
    /// Image width in pixels.
    pub width: usize,
    /// Image height in pixels.
    pub height: usize,
    /// Bit planes per pixel.
    pub bits_per_input: usize,
    /// Number of classes, the length of the public output.
    pub n_classes: usize,
    /// Joint hash inputs per class.
    pub n_inputs: usize,
    /// Whether the static lookup tables have been installed.
    pub loaded: bool,
}

impl WnnChip {
    /// Pixels per bit plane.
    pub open spec fn wh(self) -> int {
        self.width as int * self.height as int
    }

    /// Total number of binarized bits.
    pub open spec fn total_bits(self) -> int {
        self.bits_per_input as int * self.wh()
    }

    pub open spec fn thresholds(self) -> Seq<Seq<Seq<u16>>> {
        tensor_view(self.binarization_thresholds)
    }

    /// The shape and range invariants established at construction.
    pub open spec fn wf(self) -> bool {
        &&& self.params.wf()
        &&& 1 <= self.width
        &&& 1 <= self.height
        &&& 1 <= self.bits_per_input
        &&& self.thresholds().len() == self.width
        &&& forall|i: int|
            0 <= i < self.width ==> (#[trigger] self.thresholds()[i]).len() == self.height
        &&& forall|i: int, j: int|
            0 <= i < self.width && 0 <= j < self.height ==> (#[trigger] self.thresholds()[i][j]).len()
                == self.bits_per_input
        &&& forall|i: int, j: int, b: int|
            0 <= i < self.width && 0 <= j < self.height && 0 <= b < self.bits_per_input ==> (
            #[trigger] self.thresholds()[i][j][b]) <= 256
        &&& self.input_permutation@.len() == self.total_bits()
        &&& forall|k: int|
            0 <= k < self.input_permutation@.len() ==> (#[trigger] self.input_permutation@[k])
                < self.total_bits()
        &&& forall|k1: int, k2: int|
            0 <= k1 < k2 < self.input_permutation@.len() ==> self.input_permutation@[k1]
                != self.input_permutation@[k2]
        &&& self.n_inputs as int * self.params.bits_per_filter as int == self.total_bits()
        &&& 1 <= self.n_classes
        &&& 1 <= self.n_inputs
        &&& self.bloom_filter.wf()
        &&& self.bloom_filter.num_rows() == self.n_classes as int * self.n_inputs as int
        &&& self.bloom_filter.num_entries() == pow2(self.params.bits_per_hash as nat)
    }

    /// Whether a witness image has the configured dimensions.
    pub open spec fn image_shape_ok(self, image: Seq<Seq<u8>>) -> bool {
        &&& image.len() == self.width
        &&& forall|i: int| 0 <= i < image.len() ==> (#[trigger] image[i]).len() == self.height
    }

    /// Binarized bit `n` of the flattened bit sequence: bit planes are
    /// emitted outermost, then pixel rows, then pixel columns.
    pub open spec fn spec_flat_bit(self, image: Seq<Seq<u8>>, n: int) -> bool {
        let b = n / self.wh();
        let rem = n % self.wh();
        let i = rem / self.height as int;
        let j = rem % self.height as int;
        spec_bit(image[i][j], self.thresholds()[i][j][b])
    }

    /// All binarized bits, in emission order.
    pub open spec fn spec_bits(self, image: Seq<Seq<u8>>) -> Seq<bool> {
        Seq::new(self.total_bits() as nat, |n: int| self.spec_flat_bit(image, n))
    }

    /// The binarized bits after the input permutation.
    pub open spec fn spec_permuted_bits(self, image: Seq<Seq<u8>>) -> Seq<bool> {
        Seq::new(
            self.total_bits() as nat,
            |k: int| self.spec_bits(image)[self.input_permutation@[k] as int],
        )
    }

    /// Joint input `g`: the `g`-th group of `bits_per_filter` permuted
    /// bits, composed little-endian.
    pub open spec fn spec_joint_input(self, image: Seq<Seq<u8>>, g: int) -> nat {
        le_value(
            self.spec_permuted_bits(image).subrange(
                g * self.params.bits_per_filter as int,
                (g + 1) * self.params.bits_per_filter as int,
            ),
        )
    }

    /// The hash of joint input `g`.
    pub open spec fn spec_hash_of(self, image: Seq<Seq<u8>>, g: int) -> nat {
        spec_hash(self.spec_joint_input(image, g), self.params.p as nat, self.params.l as nat)
    }

    /// The bloom response of class `c` to joint input `i`.
    pub open spec fn spec_response(self, image: Seq<Seq<u8>>, c: int, i: int) -> bool {
        spec_bloom_response(
            self.bloom_filter.rows()[c * self.n_inputs as int + i],
            self.spec_hash_of(image, i) as int,
            self.params.bloom_filter_config(),
        )
    }

    /// The score of class `c`: how many of its bloom responses are set.
    pub open spec fn spec_score(self, image: Seq<Seq<u8>>, c: int) -> nat {
        count_true(Seq::new(self.n_inputs as nat, |i: int| self.spec_response(image, c, i)))
    }

    /// All class scores, in class order.
    pub open spec fn spec_scores(self, image: Seq<Seq<u8>>) -> Seq<nat> {
        Seq::new(self.n_classes as nat, |c: int| self.spec_score(image, c))
    }

    /// Every input the constructor accepts: valid gadget parameters,
    /// well-shaped tensors with in-range thresholds, a bloom row width
    /// matching the hash windows, a bit count that the groups tile
    /// exactly, and a permutation that is a bijection on the bits.
    pub open spec fn spec_construct_ok(
        bf: Seq<Seq<Seq<bool>>>,
        th: Seq<Seq<Seq<u16>>>,
        perm: Seq<u64>,
        params: WnnCircuitParams,
    ) -> bool {
        let total = th[0][0].len() as int * (th.len() as int * th[0].len() as int);
        &&& params.wf()
        &&& spec_thresholds_shape_ok(th)
        &&& spec_thresholds_values_ok(th)
        &&& spec_bloom_shape_ok(bf)
        &&& bf[0][0].len() == pow2(params.bits_per_hash as nat)
        &&& total <= usize::MAX
        &&& bf[0].len() as int * params.bits_per_filter as int == total
        &&& spec_perm_ok(perm, total)
    }

    /// Which configuration error the constructor reports, as a decision
    /// chain in the order the checks run.
    pub open spec fn spec_construct_error(
        bf: Seq<Seq<Seq<bool>>>,
        th: Seq<Seq<Seq<u16>>>,
        perm: Seq<u64>,
        params: WnnCircuitParams,
    ) -> ConfigurationError {
        let total = th[0][0].len() as int * (th.len() as int * th[0].len() as int);
        if !params.hash_function_config().wf() {
            ConfigurationError::InvalidHashConfig
        } else if !(params.bloom_filter_config().wf() && params.n_hashes * params.bits_per_hash
            <= params.l) {
            ConfigurationError::InvalidBloomConfig
        } else if !spec_thresholds_shape_ok(th) {
            ConfigurationError::ShapeMismatch
        } else if !spec_thresholds_values_ok(th) {
            ConfigurationError::ThresholdOutOfRange
        } else if !spec_bloom_shape_ok(bf) {
            ConfigurationError::ShapeMismatch
        } else if bf[0][0].len() != pow2(params.bits_per_hash as nat) {
            ConfigurationError::InvalidBloomConfig
        } else if !(total <= usize::MAX) {
            ConfigurationError::ShapeMismatch
        } else if bf[0].len() as int * params.bits_per_filter as int != total {
            ConfigurationError::ShapeMismatch
        } else {
            ConfigurationError::MalformedPermutation
        }
    }

    /// Validates the model parameters and tensors and assembles the chip:
    /// thresholds, permutation and the flattened bloom table, with the
    /// lookup tables not yet installed.
    pub fn construct(
        bloom_filter_arrays: Vec<Vec<Vec<bool>>>,
        binarization_thresholds: Vec<Vec<Vec<u16>>>,
        input_permutation: Vec<u64>,
        params: WnnCircuitParams,
    ) -> (r: Result<WnnChip, ConfigurationError>)
        ensures
            r is Ok <==> Self::spec_construct_ok(
                tensor_view(bloom_filter_arrays),
                tensor_view(binarization_thresholds),
                input_permutation@,
                params,
            ),
            r matches Ok(chip) ==> {
                &&& chip.wf()
                &&& !chip.loaded
                &&& chip.params == params
                &&& chip.thresholds() == tensor_view(binarization_thresholds)
                &&& chip.input_permutation@ == input_permutation@
                &&& chip.width as int == tensor_view(binarization_thresholds).len()
                &&& chip.height as int == tensor_view(binarization_thresholds)[0].len()
                &&& chip.bits_per_input as int == tensor_view(binarization_thresholds)[0][0].len()
                &&& chip.n_classes as int == tensor_view(bloom_filter_arrays).len()
                &&& chip.n_inputs as int == tensor_view(bloom_filter_arrays)[0].len()
                &&& forall|c: int, i: int|
                    0 <= c < chip.n_classes && 0 <= i < chip.n_inputs
                        ==> chip.bloom_filter.rows()[c * chip.n_inputs as int + i] == (
                    #[trigger] tensor_view(bloom_filter_arrays)[c][i])
            },
            r matches Err(e) ==> e == Self::spec_construct_error(
                tensor_view(bloom_filter_arrays),
                tensor_view(binarization_thresholds),
                input_permutation@,
                params,
            ),
    {
        let hash_config = HashFunctionConfig {
            p: params.p,
            l: params.l,
            n_bits: params.bits_per_filter,
        };
        if !hash_config.check() {
            return Err(ConfigurationError::InvalidHashConfig);
        }
        let bloom_config = BloomFilterConfig {
            n_hashes: params.n_hashes,
            bits_per_hash: params.bits_per_hash,
        };
        if !bloom_config.check() {
            return Err(ConfigurationError::InvalidBloomConfig);
        }
        let windows_fit = params.n_hashes <= params.l / params.bits_per_hash;
        proof {
            assert(windows_fit == (params.n_hashes * params.bits_per_hash <= params.l))
                by (nonlinear_arith)
                requires
                    1 <= params.bits_per_hash,
                    params.l <= 63,
                    windows_fit == (params.n_hashes as int <= params.l as int
                        / params.bits_per_hash as int),
            ;
        }
        if !windows_fit {
            return Err(ConfigurationError::InvalidBloomConfig);
        }
        match check_thresholds(&binarization_thresholds) {
            Err(e) => {
                return Err(e);
            },
            Ok(()) => {},
        }
        let width = binarization_thresholds.len();
        let height = binarization_thresholds[0].len();
        let bits_per_input = binarization_thresholds[0][0].len();
        if !check_bloom_shape(&bloom_filter_arrays) {
            return Err(ConfigurationError::ShapeMismatch);
        }
        let n_classes = bloom_filter_arrays.len();
        let n_inputs = bloom_filter_arrays[0].len();
        let n_entries = bloom_filter_arrays[0][0].len();
        let expected_entries = crate::utils::pow2_u64(params.bits_per_hash);
        if n_entries as u64 != expected_entries {
            return Err(ConfigurationError::InvalidBloomConfig);
        }
        let total = match checked_mul_usize(width, height) {
            None => {
                proof {
                    lemma_wh_overflow_means_total_overflow(
                        width as int,
                        height as int,
                        bits_per_input as int,
                    );
                }
                return Err(ConfigurationError::ShapeMismatch);
            },
            Some(wh) => {
                match checked_mul_usize(bits_per_input, wh) {
                    None => {
                        return Err(ConfigurationError::ShapeMismatch);
                    },
                    Some(t) => t,
                }
            },
        };
        match checked_mul_usize(n_inputs, params.bits_per_filter) {
            None => {
                proof {
                    assert(n_inputs as int * params.bits_per_filter as int != total as int);
                }
                return Err(ConfigurationError::ShapeMismatch);
            },
            Some(grouped) => {
                if grouped != total {
                    return Err(ConfigurationError::ShapeMismatch);
                }
            },
        }
        if !check_permutation(&input_permutation, total) {
            return Err(ConfigurationError::MalformedPermutation);
        }
        let ghost bf_view = tensor_view(bloom_filter_arrays);
        let flat = flatten_bloom(bloom_filter_arrays);
        let bloom_filter = match BloomFilter::load(flat, n_entries) {
            Ok(f) => f,
            Err(_) => {
                proof {
                    assert(false);
                }
                return Err(ConfigurationError::ShapeMismatch);
            },
        };
        let chip = WnnChip {
            params,
            bloom_filter,
            binarization_thresholds,
            input_permutation,
            width,
            height,
            bits_per_input,
            n_classes,
            n_inputs,
            loaded: false,
        };
        proof {
            assert forall|c: int, i: int|
                0 <= c < chip.n_classes && 0 <= i < chip.n_inputs
                    implies chip.bloom_filter.rows()[c * chip.n_inputs as int + i] == (
                #[trigger] bf_view[c][i]) by {
                lemma_flat_index_decode(c, i, chip.n_inputs as int);
                assert(0 <= c * chip.n_inputs as int + i < chip.bloom_filter.rows().len())
                    by (nonlinear_arith)
                    requires
                        0 <= c < chip.n_classes,
                        0 <= i < chip.n_inputs,
                        chip.bloom_filter.rows().len() == chip.n_classes as int
                            * chip.n_inputs as int,
                ;
            };
        }
        Ok(chip)
    }

    /// Installs the static lookup tables. Must run once before prediction;
    /// everything else is left untouched.
    pub fn load(&mut self)
        ensures
            *final(self) == (WnnChip { loaded: true, ..*old(self) }),
    {
        self.loaded = true;
    }

    /// Runs the full prediction pipeline on one witness image and returns
    /// the per-class scores, the circuit's public outputs, in class order.
    ///
    /// An image whose dimensions differ from the configured grid is
    /// rejected; every in-range witness value is handled, domain
    /// violations being impossible by construction.
    pub fn predict(&self, image: &Vec<Vec<u8>>) -> (r: Result<Vec<u64>, ConfigurationError>)
        requires
            self.wf(),
            self.loaded,
        ensures
            r is Ok <==> self.image_shape_ok(grid_view(*image)),
            r matches Err(e) ==> e == ConfigurationError::ShapeMismatch,
            r matches Ok(scores) ==> {
                &&& scores@.len() == self.n_classes
                &&& forall|c: int|
                    0 <= c < self.n_classes ==> (#[trigger] scores@[c]) as nat == self.spec_score(
                        grid_view(*image),
                        c,
                    )
            },
    {
        let ghost img = grid_view(*image);
        proof {
            lemma_grid_view_index(*image);
        }
        if image.len() != self.width {
            return Err(ConfigurationError::ShapeMismatch);
        }
        let mut i: usize = 0;
        while i < self.width
            invariant
                i <= self.width,
                img == grid_view(*image),
                img.len() == self.width,
                forall|i2: int| 0 <= i2 < i ==> (#[trigger] img[i2]).len() == self.height,
            decreases self.width - i,
        {
            proof {
                lemma_grid_view_index(*image);
            }
            if image[i].len() != self.height {
                proof {
                    assert(img[i as int].len() != self.height);
                }
                return Err(ConfigurationError::ShapeMismatch);
            }
            i = i + 1;
        }
        assert(self.image_shape_ok(img));
        // The permutation has one entry per bit, so its length bounds the
        // total bit count by the address space.
        let total_from_permutation = self.input_permutation.len();
        proof {
            assert(self.total_bits() <= usize::MAX);
            assert(self.width as int * self.height as int <= self.total_bits())
                by (nonlinear_arith)
                requires
                    self.bits_per_input >= 1,
                    self.width >= 1,
                    self.height >= 1,
                    self.total_bits() == self.bits_per_input as int * (self.width as int
                        * self.height as int),
            ;
        }
        let wh = self.width * self.height;
        let total = self.bits_per_input * wh;
        // Binarize: one bit per (bit plane, pixel), reusing one intensity
        // witness per pixel across its thresholds through the cell cache.
        let mut intensity_cells: Vec<Option<u8>> = Vec::new();
        let mut x: usize = 0;
        while x < wh
            invariant
                x <= wh,
                intensity_cells@.len() == x,
                forall|x2: int| 0 <= x2 < x ==> (#[trigger] intensity_cells@[x2]) is None,
            decreases wh - x,
        {
            intensity_cells.push(None);
            x = x + 1;
        }
        let mut bits: Vec<bool> = Vec::new();
        let mut b: usize = 0;
        while b < self.bits_per_input
            invariant
                self.wf(),
                b <= self.bits_per_input,
                img == grid_view(*image),
                self.image_shape_ok(img),
                wh as int == self.wh(),
                total as int == self.total_bits(),
                intensity_cells@.len() == wh,
                forall|x2: int|
                    0 <= x2 < wh ==> ((#[trigger] intensity_cells@[x2]) matches Some(v) ==> v
                        == img[x2 / self.height as int][x2 % self.height as int]),
                bits@.len() == b * wh,
                forall|n: int|
                    0 <= n < bits@.len() ==> (#[trigger] bits@[n]) == self.spec_flat_bit(img, n),
            decreases self.bits_per_input - b,
        {
            let mut i: usize = 0;
            while i < self.width
                invariant
                    self.wf(),
                    b < self.bits_per_input,
                    i <= self.width,
                    img == grid_view(*image),
                    self.image_shape_ok(img),
                    wh as int == self.wh(),
                    total as int == self.total_bits(),
                    intensity_cells@.len() == wh,
                    forall|x2: int|
                        0 <= x2 < wh ==> ((#[trigger] intensity_cells@[x2]) matches Some(v) ==> v
                            == img[x2 / self.height as int][x2 % self.height as int]),
                    bits@.len() == b * wh + i * self.height,
                    forall|n: int|
                        0 <= n < bits@.len() ==> (#[trigger] bits@[n]) == self.spec_flat_bit(
                            img,
                            n,
                        ),
                decreases self.width - i,
            {
                let mut j: usize = 0;
                while j < self.height
                    invariant
                        self.wf(),
                        b < self.bits_per_input,
                        i < self.width,
                        j <= self.height,
                        img == grid_view(*image),
                        self.image_shape_ok(img),
                        wh as int == self.wh(),
                        total as int == self.total_bits(),
                        intensity_cells@.len() == wh,
                        forall|x2: int|
                            0 <= x2 < wh ==> ((#[trigger] intensity_cells@[x2]) matches Some(v)
                                ==> v == img[x2 / self.height as int][x2 % self.height as int]),
                        bits@.len() == b * wh + i * self.height + j,
                        forall|n: int|
                            0 <= n < bits@.len() ==> (#[trigger] bits@[n]) == self.spec_flat_bit(
                                img,
                                n,
                            ),
                    decreases self.height - j,
                {
                    proof {
                        lemma_tensor_view_index(self.binarization_thresholds);
                        lemma_grid_view_index(self.binarization_thresholds@[i as int]);
                        lemma_grid_view_index(*image);
                        assert(self.thresholds()[i as int].len() == self.height);
                        assert(self.thresholds()[i as int][j as int].len()
                            == self.bits_per_input);
                        assert(self.thresholds()[i as int][j as int]
                            == self.binarization_thresholds@[i as int]@[j as int]@);
                        assert(img[i as int] == image@[i as int]@);
                        assert(img[i as int].len() == self.height);
                        assert(i as int * self.height as int + j < wh as int)
                            by (nonlinear_arith)
                            requires
                                0 <= i < self.width,
                                0 <= j < self.height,
                                wh as int == self.width as int * self.height as int,
                        ;
                    }
                    let t = self.binarization_thresholds[i][j][b];
                    let ghost tval = self.thresholds()[i as int][j as int][b as int];
                    assert(t == tval);
                    assert(t <= 256);
                    let idx = i * self.height + j;
                    let v = image[i][j];
                    let bit: bool;
                    if t == 0 {
                        bit = true;
                    } else {
                        let tm1: u8 = (t - 1) as u8;
                        match intensity_cells[idx] {
                            None => {
                                let wtn = greater_than_witness(v, tm1);
                                intensity_cells.set(idx, Some(wtn.value));
                                bit = wtn.bit;
                            },
                            Some(cell) => {
                                proof {
                                    lemma_flat_index_decode(
                                        i as int,
                                        j as int,
                                        self.height as int,
                                    );
                                }
                                let wtn = greater_than_copy(cell, tm1);
                                bit = wtn.bit;
                            },
                        }
                    }
                    proof {
                        lemma_flat_index_decode(i as int, j as int, self.height as int);
                        lemma_flat_index_decode(
                            b as int,
                            i as int * self.height as int + j as int,
                            wh as int,
                        );
                        assert(bit == spec_bit(img[i as int][j as int], tval));
                        assert(self.spec_flat_bit(img, bits@.len() as int) == bit);
                    }
                    bits.push(bit);
                    j = j + 1;
                }
                proof {
                    assert((i + 1) as int * self.height as int == i as int * self.height as int
                        + self.height as int) by (nonlinear_arith);
                }
                i = i + 1;
            }
            proof {
                assert((b + 1) as int * wh as int == b as int * wh as int + wh as int)
                    by (nonlinear_arith);
            }
            b = b + 1;
        }
        proof {
            assert(bits@ =~= self.spec_bits(img));
        }
        // Permute the bit sequence: a construction-time relabeling.
        let mut permuted: Vec<bool> = Vec::new();
        let mut k: usize = 0;
        while k < total
            invariant
                self.wf(),
                k <= total,
                total as int == self.total_bits(),
                bits@ == self.spec_bits(img),
                bits@.len() == total,
                permuted@.len() == k,
                forall|k2: int|
                    0 <= k2 < k ==> (#[trigger] permuted@[k2]) == self.spec_permuted_bits(img)[k2],
            decreases total - k,
        {
            let p = self.input_permutation[k];
            permuted.push(bits[p as usize]);
            k = k + 1;
        }
        proof {
            assert(permuted@ =~= self.spec_permuted_bits(img));
        }
        // Group the permuted bits and hash each joint input.
        let bits_config = Bits2NumConfig { num_bit_size: self.params.bits_per_filter };
        let hash_config = HashFunctionConfig {
            p: self.params.p,
            l: self.params.l,
            n_bits: self.params.bits_per_filter,
        };
        let mut hashes: Vec<u64> = Vec::new();
        let mut g: usize = 0;
        while g < self.n_inputs
            invariant
                self.wf(),
                g <= self.n_inputs,
                total as int == self.total_bits(),
                permuted@ == self.spec_permuted_bits(img),
                permuted@.len() == total,
                bits_config.num_bit_size == self.params.bits_per_filter,
                hash_config == self.params.hash_function_config(),
                hashes@.len() == g,
                forall|g2: int|
                    0 <= g2 < g ==> (#[trigger] hashes@[g2]) as nat == self.spec_hash_of(img, g2),
            decreases self.n_inputs - g,
        {
            proof {
                assert((g + 1) as int * self.params.bits_per_filter as int == g as int
                    * self.params.bits_per_filter as int + self.params.bits_per_filter as int)
                    by (nonlinear_arith);
                assert((g + 1) as int * self.params.bits_per_filter as int <= total as int)
                    by (nonlinear_arith)
                    requires
                        g < self.n_inputs,
                        total as int == self.n_inputs as int * self.params.bits_per_filter as int,
                        self.params.bits_per_filter >= 1,
                ;
            }
            let start = g * self.params.bits_per_filter;
            let mut chunk: Vec<bool> = Vec::new();
            let mut e: usize = 0;
            while e < self.params.bits_per_filter
                invariant
                    e <= self.params.bits_per_filter,
                    start as int == g as int * self.params.bits_per_filter as int,
                    start + self.params.bits_per_filter <= total,
                    permuted@.len() == total,
                    chunk@.len() == e,
                    forall|e2: int|
                        0 <= e2 < e ==> (#[trigger] chunk@[e2]) == permuted@[start + e2],
                decreases self.params.bits_per_filter - e,
            {
                chunk.push(permuted[start + e]);
                e = e + 1;
            }
            proof {
                assert(chunk@ =~= self.spec_permuted_bits(img).subrange(
                    g as int * self.params.bits_per_filter as int,
                    (g + 1) as int * self.params.bits_per_filter as int,
                ));
            }
            let joint = match convert_le(&chunk, &bits_config) {
                Ok(v) => v,
                Err(_) => {
                    proof {
                        assert(false);
                    }
                    0
                },
            };
            proof {
                lemma_le_value_bound(chunk@);
            }
            let hash_witness = hash(joint, &hash_config);
            hashes.push(hash_witness.hash);
            g = g + 1;
        }
        // Per-class bloom lookups and response accumulation.
        let bloom_config = BloomFilterConfig {
            n_hashes: self.params.n_hashes,
            bits_per_hash: self.params.bits_per_hash,
        };
        let mut scores: Vec<u64> = Vec::new();
        let mut c: usize = 0;
        while c < self.n_classes
            invariant
                self.wf(),
                c <= self.n_classes,
                hashes@.len() == self.n_inputs,
                forall|g2: int|
                    0 <= g2 < self.n_inputs ==> (#[trigger] hashes@[g2]) as nat
                        == self.spec_hash_of(img, g2),
                bloom_config == self.params.bloom_filter_config(),
                scores@.len() == c,
                forall|c2: int|
                    0 <= c2 < c ==> (#[trigger] scores@[c2]) as nat == self.spec_score(img, c2),
            decreases self.n_classes - c,
        {
            let mut responses: Vec<bool> = Vec::new();
            let mut i: usize = 0;
            while i < self.n_inputs
                invariant
                    self.wf(),
                    c < self.n_classes,
                    i <= self.n_inputs,
                    hashes@.len() == self.n_inputs,
                    forall|g2: int|
                        0 <= g2 < self.n_inputs ==> (#[trigger] hashes@[g2]) as nat
                            == self.spec_hash_of(img, g2),
                    bloom_config == self.params.bloom_filter_config(),
                    responses@.len() == i,
                    forall|i2: int|
                        0 <= i2 < i ==> (#[trigger] responses@[i2]) == self.spec_response(
                            img,
                            c as int,
                            i2,
                        ),
                decreases self.n_inputs - i,
            {
                let row_count = self.bloom_filter.row_count();
                proof {
                    assert(c as int * self.n_inputs as int + i < self.n_classes as int
                        * self.n_inputs as int) by (nonlinear_arith)
                        requires
                            0 <= c < self.n_classes,
                            0 <= i < self.n_inputs,
                    ;
                    assert(row_count as int == self.n_classes as int * self.n_inputs as int);
                }
                let row = c * self.n_inputs + i;
                let resp = self.bloom_filter.bloom_lookup(&bloom_config, hashes[i], row);
                responses.push(resp);
                i = i + 1;
            }
            proof {
                assert(responses@ =~= Seq::new(
                    self.n_inputs as nat,
                    |i2: int| self.spec_response(img, c as int, i2),
                ));
            }
            let score = accumulate_responses(&responses);
            scores.push(score);
            c = c + 1;
        }
        Ok(scores)
    }
}

/// Whether `image` is a `width` by `height` grid.
fn check_image_shape(image: &Vec<Vec<u8>>, width: usize, height: usize) -> (r: bool)
    ensures
        r == (grid_view(*image).len() == width && (forall|i: int|
            0 <= i < grid_view(*image).len() ==> (#[trigger] grid_view(*image)[i]).len()
                == height)),
{
    let ghost img = grid_view(*image);
    proof {
        lemma_grid_view_index(*image);
    }
    if image.len() != width {
        return false;
    }
    let mut i: usize = 0;
    while i < width
        invariant
            i <= width,
            img == grid_view(*image),
            img.len() == width,
            forall|i2: int| 0 <= i2 < i ==> (#[trigger] img[i2]).len() == height,
        decreases width - i,
    {
        proof {
            lemma_grid_view_index(*image);
        }
        if image[i].len() != height {
            proof {
                assert(img[i as int].len() != height);
            }
            return false;
        }
        i = i + 1;
    }
    true
}

/// The complete prediction circuit for one witness image: the chip with
/// its loaded tables, plus the image whose scores it proves.
#[derive(Debug)]
pub struct WnnCircuit {
    /// The loaded prediction chip.
    pub chip: WnnChip,
    /// The private witness image.
    pub image: Vec<Vec<u8>>,
}

impl WnnCircuit {
    /// A circuit built by [`WnnCircuit::new`]: a well-formed, loaded chip
    /// and an image of the configured dimensions.
    pub open spec fn wf(self) -> bool {
        &&& self.chip.wf()
        &&& self.chip.loaded
        &&& self.chip.image_shape_ok(grid_view(self.image))
    }

    /// Validates the model parameters, tensors, permutation and image
    /// dimensions, and assembles the circuit with its lookup tables
    /// installed. Every mismatch is rejected here, before any synthesis.
    pub fn new(
        image: Vec<Vec<u8>>,
        bloom_filter_arrays: Vec<Vec<Vec<bool>>>,
        binarization_thresholds: Vec<Vec<Vec<u16>>>,
        input_permutation: Vec<u64>,
        params: WnnCircuitParams,
    ) -> (r: Result<WnnCircuit, ConfigurationError>)
        ensures
            r is Ok <==> ({
                &&& WnnChip::spec_construct_ok(
                    tensor_view(bloom_filter_arrays),
                    tensor_view(binarization_thresholds),
                    input_permutation@,
                    params,
                )
                &&& grid_view(image).len() == tensor_view(binarization_thresholds).len()
                &&& forall|i: int|
                    0 <= i < grid_view(image).len() ==> (#[trigger] grid_view(image)[i]).len()
                        == tensor_view(binarization_thresholds)[0].len()
            }),
            r matches Ok(circuit) ==> {
                &&& circuit.wf()
                &&& circuit.image == image
                &&& circuit.chip.params == params
                &&& circuit.chip.thresholds() == tensor_view(binarization_thresholds)
                &&& circuit.chip.input_permutation@ == input_permutation@
                &&& circuit.chip.n_classes as int == tensor_view(bloom_filter_arrays).len()
                &&& circuit.chip.n_inputs as int == tensor_view(bloom_filter_arrays)[0].len()
                &&& forall|c: int, i: int|
                    0 <= c < circuit.chip.n_classes && 0 <= i < circuit.chip.n_inputs
                        ==> circuit.chip.bloom_filter.rows()[c * circuit.chip.n_inputs as int + i]
                        == (#[trigger] tensor_view(bloom_filter_arrays)[c][i])
            },
            r matches Err(e) ==> (if !WnnChip::spec_construct_ok(
                tensor_view(bloom_filter_arrays),
                tensor_view(binarization_thresholds),
                input_permutation@,
                params,
            ) {
                e == WnnChip::spec_construct_error(
                    tensor_view(bloom_filter_arrays),
                    tensor_view(binarization_thresholds),
                    input_permutation@,
                    params,
                )
            } else {
                e == ConfigurationError::ShapeMismatch
            }),
    {
        let mut chip = match WnnChip::construct(
            bloom_filter_arrays,
            binarization_thresholds,
            input_permutation,
            params,
        ) {
            Ok(chip) => chip,
            Err(e) => {
                return Err(e);
            },
        };
        if !check_image_shape(&image, chip.width, chip.height) {
            return Err(ConfigurationError::ShapeMismatch);
        }
        chip.load();
        Ok(WnnCircuit { chip, image })
    }

    /// Synthesizes the circuit: runs the prediction pipeline on the
    /// witness image and returns the per-class scores, the values bound
    /// to the public output column in class order.
    pub fn synthesize(&self) -> (r: Vec<u64>)
        requires
            self.wf(),
        ensures
            r@.len() == self.chip.n_classes,
            forall|c: int|
                0 <= c < self.chip.n_classes ==> (#[trigger] r@[c]) as nat == self.chip.spec_score(
                    grid_view(self.image),
                    c,
                ),
            r@.map_values(|v: u64| v as nat) == self.chip.spec_scores(grid_view(self.image)),
    {
        match self.chip.predict(&self.image) {
            Ok(scores) => {
                proof {
                    assert(scores@.map_values(|v: u64| v as nat) =~= self.chip.spec_scores(
                        grid_view(self.image),
                    ));
                }
                scores
            },
            Err(_) => {
                proof {
                    assert(false);
                }
                Vec::new()
            },
        }
    }
}

} // verus!
