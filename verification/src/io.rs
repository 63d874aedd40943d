//! The computational side of artifact handling: classifying image file
//! names, extracting the grayscale channel from decoded RGB bytes, and
//! the (proof, public output) pair that gets persisted together.
//!
//! Reading and writing files themselves is left to callers; these
//! functions work on plain values.

use vstd::prelude::*;
use vstd::string::StringSliceAdditionalSpecFns;

use crate::params::ConfigurationError;
use crate::wnn::grid_view;

verus! {

/// The position of the last occurrence of `ch` in `s`, or -1 if absent.
pub open spec fn last_pos(s: Seq<u8>, ch: u8) -> int
    decreases s.len(),
{
    if s.len() == 0 {
        -1
    } else if s.last() == ch {
        s.len() - 1
    } else {
        last_pos(s.drop_last(), ch)
    }
}

/// What `last_pos` returns: the last index carrying `ch`, with nothing
/// after it, or -1 when `ch` never occurs.
pub proof fn lemma_last_pos_property(s: Seq<u8>, ch: u8)
    ensures
        -1 <= last_pos(s, ch) < s.len(),
        last_pos(s, ch) >= 0 ==> s[last_pos(s, ch)] == ch,
        forall|k: int| last_pos(s, ch) < k < s.len() ==> s[k] != ch,
    decreases s.len(),
{
    if s.len() > 0 && s.last() != ch {
        lemma_last_pos_property(s.drop_last(), ch);
        assert(forall|k: int| 0 <= k < s.len() - 1 ==> s[k] == s.drop_last()[k]);
    }
}

/// The class a PNG file name declares: the final decimal digit of its
/// stem, as in `0000_7.png`. A path without the `png` extension has none.
pub open spec fn spec_parse_png(path: Seq<u8>) -> Option<int> {
    let name = path.skip(last_pos(path, '/' as u8) + 1);
    let dot = last_pos(name, '.' as u8);
    if dot <= 0 {
        None
    } else if name.skip(dot + 1) == seq!['p' as u8, 'n' as u8, 'g' as u8] {
        Some(name[dot - 1] - '0' as u8)
    } else {
        None
    }
}

/// Whether parsing the path cannot fail: when the name does end in
/// `.png`, the character before the dot is a decimal digit.
pub open spec fn spec_png_stem_ends_in_digit(path: Seq<u8>) -> bool {
    let name = path.skip(last_pos(path, '/' as u8) + 1);
    let dot = last_pos(name, '.' as u8);
    (dot > 0 && name.skip(dot + 1) == seq!['p' as u8, 'n' as u8, 'g' as u8]) ==> ('0' as u8)
        <= name[dot - 1] <= ('9' as u8)
}

/// Finds the last occurrence of `ch` at or after `start`.
fn last_pos_from(bytes: &[u8], ch: u8, start: usize) -> (r: Option<usize>)
    requires
        start <= bytes@.len(),
    ensures
        r matches Some(p) ==> {
            &&& start <= p < bytes@.len()
            &&& p as int - start == last_pos(bytes@.skip(start as int), ch)
            &&& bytes@[p as int] == ch
        },
        r is None ==> last_pos(bytes@.skip(start as int), ch) == -1,
{
    let ghost suffix = bytes@.skip(start as int);
    let mut i: usize = bytes.len();
    while i > start
        invariant
            start <= i <= bytes@.len(),
            suffix == bytes@.skip(start as int),
            forall|k: int| i <= k < bytes@.len() ==> bytes@[k] != ch,
        decreases i,
    {
        i = i - 1;
        if bytes[i] == ch {
            proof {
                lemma_last_pos_property(suffix, ch);
                assert(forall|q: int| 0 <= q < suffix.len() ==> suffix[q] == bytes@[q + start]);
                assert(suffix[i - start] == ch);
            }
            return Some(i);
        }
    }
    proof {
        lemma_last_pos_property(suffix, ch);
        assert(forall|q: int| 0 <= q < suffix.len() ==> suffix[q] == bytes@[q + start]);
    }
    None
}

/// Reads the class a PNG file name declares: for a path like
/// `data/0000_7.png`, the digit before the extension (here 7); `None` for
/// any other extension or for a name without one.
///
/// The path is taken as it stands: a trailing separator is not stripped,
/// and the caller vouches that a `.png` name ends its stem with a digit.
pub fn parse_png_file(img_path: &str) -> (r: Option<usize>)
    requires
        spec_png_stem_ends_in_digit(img_path.spec_bytes()),
    ensures
        r matches Some(d) ==> spec_parse_png(img_path.spec_bytes()) == Some(d as int),
        r is None ==> spec_parse_png(img_path.spec_bytes()) is None,
{
    let bytes = img_path.as_bytes();
    let ghost path = img_path.spec_bytes();
    let path_len = bytes.len();
    proof {
        lemma_last_pos_property(path, '/' as u8);
    }
    let name_start = match last_pos_from(bytes, '/' as u8, 0) {
        Some(p) => {
            proof {
                assert(path.skip(0) =~= path);
                assert(p < path_len);
            }
            p + 1
        },
        None => {
            proof {
                assert(path.skip(0) =~= path);
            }
            0
        },
    };
    let ghost name = path.skip(last_pos(path, '/' as u8) + 1);
    proof {
        assert(name_start as int == last_pos(path, '/' as u8) + 1);
        assert(name =~= path.skip(name_start as int));
    }
    let dot = match last_pos_from(bytes, '.' as u8, name_start) {
        Some(p) => p,
        None => {
            return None;
        },
    };
    if dot == name_start {
        return None;
    }
    let ghost dot_in_name = last_pos(name, '.' as u8);
    proof {
        assert(dot_in_name == dot as int - name_start as int);
        assert(dot_in_name > 0);
    }
    let n = bytes.len();
    if !(n - dot - 1 == 3 && bytes[dot + 1] == 'p' as u8 && bytes[dot + 2] == 'n' as u8 && bytes[
        dot + 3] == 'g' as u8) {
        proof {
            let ext = name.skip(dot_in_name + 1);
            assert(forall|q: int| 0 <= q < ext.len() ==> ext[q] == path[q + dot + 1]);
            if ext == seq!['p' as u8, 'n' as u8, 'g' as u8] {
                assert(ext.len() == 3);
                assert(ext[0] == 'p' as u8 && ext[1] == 'n' as u8 && ext[2] == 'g' as u8);
                assert(false);
            }
        }
        return None;
    }
    proof {
        let ext = name.skip(dot_in_name + 1);
        assert(forall|q: int| 0 <= q < ext.len() ==> ext[q] == path[q + dot + 1]);
        assert(ext =~= seq!['p' as u8, 'n' as u8, 'g' as u8]);
        assert(name[dot_in_name - 1] == path[dot - 1]);
    }
    let c = bytes[dot - 1];
    Some((c - '0' as u8) as usize)
}

/// Extracts the first channel of an interleaved `height` by `width` RGB
/// byte buffer: the grayscale image, since all three channels agree for a
/// grayscale source.
pub fn first_channel(raw: &Vec<u8>, height: usize, width: usize) -> (r: Result<
    Vec<Vec<u8>>,
    ConfigurationError,
>)
    ensures
        r is Ok <==> raw@.len() == (height * width) * 3,
        r is Err ==> r == Err::<Vec<Vec<u8>>, _>(ConfigurationError::ShapeMismatch),
        r matches Ok(grid) ==> {
            &&& grid_view(grid).len() == height
            &&& forall|i: int|
                0 <= i < height ==> (#[trigger] grid_view(grid)[i]).len() == width
            &&& forall|i: int, j: int|
                0 <= i < height && 0 <= j < width ==> (#[trigger] grid_view(grid)[i][j]) == raw@[(i
                    * width as int + j) * 3]
        },
{
    let raw_len = raw.len();
    let pixels = match crate::utils::checked_mul_usize(height, width) {
        Some(p) => p,
        None => {
            proof {
                assert((height * width) as int * 3 >= height as int * width as int)
                    by (nonlinear_arith)
                ;
            }
            return Err(ConfigurationError::ShapeMismatch);
        },
    };
    let expected = match crate::utils::checked_mul_usize(pixels, 3) {
        Some(e) => e,
        None => {
            return Err(ConfigurationError::ShapeMismatch);
        },
    };
    if raw_len != expected {
        return Err(ConfigurationError::ShapeMismatch);
    }
    let mut grid: Vec<Vec<u8>> = Vec::new();
    let mut i: usize = 0;
    while i < height
        invariant
            i <= height,
            raw@.len() == (height * width) * 3,
            raw@.len() <= usize::MAX,
            grid@.len() == i,
            forall|i2: int| 0 <= i2 < i ==> (#[trigger] grid@[i2])@.len() == width,
            forall|i2: int, j2: int|
                0 <= i2 < i && 0 <= j2 < width ==> (#[trigger] grid@[i2]@[j2]) == raw@[(i2
                    * width as int + j2) * 3],
        decreases height - i,
    {
        let mut row: Vec<u8> = Vec::new();
        let mut j: usize = 0;
        while j < width
            invariant
                i < height,
                j <= width,
                raw@.len() == (height * width) * 3,
                raw@.len() <= usize::MAX,
                row@.len() == j,
                forall|j2: int|
                    0 <= j2 < j ==> (#[trigger] row@[j2]) == raw@[(i as int * width as int + j2)
                        * 3],
            decreases width - j,
        {
            proof {
                assert((i as int * width as int + j as int) * 3 + 2 < (height as int
                    * width as int) * 3) by (nonlinear_arith)
                    requires
                        0 <= i < height,
                        0 <= j < width,
                ;
            }
            row.push(raw[(i * width + j) * 3]);
            j = j + 1;
        }
        grid.push(row);
        i = i + 1;
    }
    proof {
        crate::wnn::lemma_grid_view_index(grid);
    }
    Ok(grid)
}

/// A generated proof together with the public output vector it commits
/// to; the two are persisted as one artifact.
#[derive(Debug, Clone)]
pub struct ProofWithOutput {
    /// The serialized proof bytes.
    pub proof_bytes: Vec<u8>,
    /// The public per-class scores the proof binds.
    pub output: Vec<u64>,
}

impl ProofWithOutput {
    /// Pairs a proof with its public outputs.
    pub fn new(proof_bytes: Vec<u8>, output: Vec<u64>) -> (r: ProofWithOutput)
        ensures
            r.proof_bytes@ == proof_bytes@,
            r.output@ == output@,
    {
        ProofWithOutput { proof_bytes, output }
    }

    /// Splits the pair back into proof bytes and outputs.
    pub fn into_parts(self) -> (r: (Vec<u8>, Vec<u64>))
        ensures
            r.0@ == self.proof_bytes@,
            r.1@ == self.output@,
    {
        (self.proof_bytes, self.output)
    }
}

} // verus!
