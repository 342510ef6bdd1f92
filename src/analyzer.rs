//! The analyzer: a decoded image, its working copy, and the colour set of
//! the working copy, filled on first use and kept from then on.
use vstd::prelude::*;

use std::collections::HashSet;

use crate::codec::{decode_guessed, decode_jpeg, decoded_jpeg_rgb, decoded_rgb};
use crate::grid::{
    area, distinct_colors, grid_has_color, grid_wf, lemma_empty_grid_colors,
    lemma_uniform_grid_colors, lists_colors_of, pixel, GridModel, PixelGrid,
};
use crate::palette::{
    all_colors_neutral, all_neutral, lemma_mean_of_one_color, max_spread, mean_channel,
    mean_color, spread,
};
use crate::sampling::{compressing_image, downsampled, lemma_small_image_kept, TARGET_SIDE};

verus! {

broadcast use vstd::std_specs::hash::group_hash_axioms;

/// Why an analysis step failed.
#[derive(Debug, Clone, Copy, PartialEq, Eq, Structural)]
pub enum AnalyzerError {
    /// The bytes are not an image that the codec can read.
    Decode,
    /// The image bytes could not be fetched.
    Fetch,
    /// A statistic was asked of an image with no pixels.
    EmptyInput,
}

/// An image under colour analysis.
pub struct HandleImage {
    image: PixelGrid,
    compressed_image: PixelGrid,
    colors: Option<Vec<[u8; 3]>>,
}

/// A key that tells colours apart: the three channels read as one number.
pub open spec fn color_key(c: Seq<u8>) -> int {
    c[0] as int * 65536 + c[1] as int * 256 + c[2] as int
}

proof fn lemma_color_key_injective(a: Seq<u8>, b: Seq<u8>)
    requires
        a.len() == 3,
        b.len() == 3,
        color_key(a) == color_key(b),
    ensures
        a == b,
{
    assert(a =~= b);
}

/// Some pixel before index `i` has colour `c`.
pub open spec fn seen_before(data: Seq<u8>, i: int, c: Seq<u8>) -> bool {
    exists|j: int| 0 <= j < i && #[trigger] pixel(data, j) == c
}

/// Lists each distinct colour of a grid once, in order of first appearance.
pub fn collect_colors(grid: &PixelGrid) -> (r: Vec<[u8; 3]>)
    requires
        grid.wf(),
    ensures
        lists_colors_of(r@, grid@),
{
    let n: usize = grid.data.len() / 3;
    let mut seen: HashSet<u32> = HashSet::new();
    let mut list: Vec<[u8; 3]> = Vec::new();
    let mut i: usize = 0;
    while i < n
        invariant
            grid.wf(),
            n == area(grid.width, grid.height),
            3 * n == grid.data@.len(),
            grid.data@.len() <= usize::MAX,
            i <= n,
            distinct_colors(list@),
            forall|k: int| 0 <= k < list@.len() ==> seen_before(grid.data@, i as int, (#[trigger] list@[k])@),
            forall|j: int| 0 <= j < i ==> exists|k: int| 0 <= k < list@.len() && (#[trigger] list@[k])@ == #[trigger] pixel(grid.data@, j),
            forall|x: u32| #[trigger] seen@.contains(x) <==> exists|k: int| 0 <= k < list@.len() && color_key((#[trigger] list@[k])@) == x,
        decreases n - i,
    {
        let c: [u8; 3] = [grid.data[3 * i], grid.data[3 * i + 1], grid.data[3 * i + 2]];
        let ghost cv = pixel(grid.data@, i as int);
        assert(c@ =~= cv);
        let key: u32 = c[0] as u32 * 65536 + c[1] as u32 * 256 + c[2] as u32;
        let ghost old_list = list@;
        let ghost old_seen = seen@;
        assert(key as int == color_key(cv));
        let fresh = seen.insert(key);
        let ghost mut pos: int = old_list.len() as int;
        if fresh {
            list.push(c);
            assert forall|a: int, b: int| 0 <= a < list@.len() && 0 <= b < list@.len() && a != b
                implies (#[trigger] list@[a])@ != (#[trigger] list@[b])@ by {
                if a == old_list.len() && list@[a]@ == list@[b]@ {
                    assert(color_key(old_list[b]@) == key);
                    assert(old_seen.contains(key));
                }
                if b == old_list.len() && list@[a]@ == list@[b]@ {
                    assert(color_key(old_list[a]@) == key);
                    assert(old_seen.contains(key));
                }
            }
        } else {
            proof {
                pos = choose|k: int| 0 <= k < old_list.len() && color_key((#[trigger] old_list[k])@) == key;
                lemma_color_key_injective(old_list[pos]@, c@);
            }
        }
        assert(0 <= pos < list@.len() && list@[pos]@ == cv);
        assert forall|x: u32| #[trigger] seen@.contains(x)
            implies exists|k: int| 0 <= k < list@.len() && color_key((#[trigger] list@[k])@) == x by {
            if x == key {
                assert(color_key(list@[pos]@) == x);
            } else {
                assert(old_seen.contains(x));
                let k = choose|k: int| 0 <= k < old_list.len() && color_key((#[trigger] old_list[k])@) == x;
                assert(list@[k] == old_list[k]);
            }
        }
        assert forall|x: u32| (exists|k: int| 0 <= k < list@.len() && color_key((#[trigger] list@[k])@) == x)
            implies #[trigger] seen@.contains(x) by {
            let k = choose|k: int| 0 <= k < list@.len() && color_key((#[trigger] list@[k])@) == x;
            if k < old_list.len() {
                assert(list@[k] == old_list[k]);
                assert(old_seen.contains(x));
            }
        }
        assert forall|j: int| 0 <= j < i + 1
            implies exists|k: int| 0 <= k < list@.len() && (#[trigger] list@[k])@ == #[trigger] pixel(grid.data@, j) by {
            if j < i {
                let k = choose|k: int| 0 <= k < old_list.len() && (#[trigger] old_list[k])@ == pixel(grid.data@, j);
                assert(list@[k] == old_list[k]);
            } else {
                assert(list@[pos]@ == pixel(grid.data@, j));
            }
        }
        assert forall|k: int| 0 <= k < list@.len() implies seen_before(grid.data@, i + 1, (#[trigger] list@[k])@) by {
            if k < old_list.len() {
                assert(seen_before(grid.data@, i as int, old_list[k]@));
                let j = choose|j: int| 0 <= j < i && #[trigger] pixel(grid.data@, j) == old_list[k]@;
                assert(pixel(grid.data@, j) == list@[k]@);
            } else {
                assert(pixel(grid.data@, i as int) == list@[k]@);
            }
        }
        i = i + 1;
    }
    assert forall|c: Seq<u8>| #[trigger] grid_has_color(grid@, c)
        implies exists|k: int| 0 <= k < list@.len() && (#[trigger] list@[k])@ == c by {
        let j = choose|j: int| 0 <= j < area(grid.width, grid.height) && #[trigger] pixel(grid.data@, j) == c;
        assert(exists|k: int| 0 <= k < list@.len() && (#[trigger] list@[k])@ == pixel(grid.data@, j));
    }
    assert forall|k: int| 0 <= k < list@.len() implies grid_has_color(grid@, (#[trigger] list@[k])@) by {
        assert(seen_before(grid.data@, n as int, list@[k]@));
    }
    list
}

/// A copy of a colour list that shares nothing with the original.
fn copy_colors(list: &Vec<[u8; 3]>) -> (r: Vec<[u8; 3]>)
    ensures
        r@ == list@,
{
    let mut out: Vec<[u8; 3]> = Vec::new();
    let mut i: usize = 0;
    while i < list.len()
        invariant
            i <= list@.len(),
            out@ == list@.subrange(0, i as int),
        decreases list@.len() - i,
    {
        out.push(list[i]);
        i = i + 1;
    }
    assert(out@ =~= list@);
    out
}

impl HandleImage {
    /// The image at full resolution.
    pub closed spec fn original(&self) -> GridModel {
        self.image@
    }

    /// The working copy from which all colour statistics are taken.
    pub closed spec fn working(&self) -> GridModel {
        self.compressed_image@
    }

    /// The cached colour list, once it has been filled.
    pub closed spec fn cached(&self) -> Option<Seq<[u8; 3]>> {
        match self.colors {
            Some(list) => Some(list@),
            None => None,
        }
    }

    /// The working copy is the downsampled original, and a filled cache lists
    /// exactly the colours of the working copy.
    pub open spec fn wf(&self) -> bool {
        &&& grid_wf(self.original())
        &&& grid_wf(self.working())
        &&& self.working() == downsampled(self.original())
        &&& self.cached() matches Some(list) ==> lists_colors_of(list, self.working())
    }

    /// Everything but the cache is as before, and the cache is filled.
    pub open spec fn filled_from(&self, before: &HandleImage) -> bool {
        &&& self.wf()
        &&& self.original() == before.original()
        &&& self.working() == before.working()
        &&& self.cached() is Some
        &&& before.cached() is Some ==> self.cached() == before.cached()
    }

    /// An analyzer for an image already decoded: builds its working copy at
    /// once and leaves the colour cache empty.
    pub fn from_grid(image: PixelGrid) -> (r: HandleImage)
        requires
            image.wf(),
        ensures
            r.wf(),
            r.original() == image@,
            r.cached() is None,
    {
        let compressed_image = compressing_image(&image);
        HandleImage { image, compressed_image, colors: None }
    }

    /// Decodes an image whose format is recognised from its bytes.
    pub fn set(bytes: &[u8]) -> (r: Result<HandleImage, AnalyzerError>)
        ensures
            r is Ok <==> decoded_rgb(bytes@) is Some,
            r matches Ok(h) ==> h.wf() && decoded_rgb(bytes@) == Some(h.original()) && h.cached() is None,
            r matches Err(e) ==> e == AnalyzerError::Decode,
    {
        match decode_guessed(bytes) {
            Ok(grid) => Ok(HandleImage::from_grid(grid)),
            Err(_) => Err(AnalyzerError::Decode),
        }
    }

    /// Decodes a response body fetched from the web, which must be JPEG.
    pub fn set_from_web(body: &[u8]) -> (r: Result<HandleImage, AnalyzerError>)
        ensures
            r is Ok <==> decoded_jpeg_rgb(body@) is Some,
            r matches Ok(h) ==> h.wf() && decoded_jpeg_rgb(body@) == Some(h.original()) && h.cached() is None,
            r matches Err(e) ==> e == AnalyzerError::Decode,
    {
        match decode_jpeg(body) {
            Ok(grid) => Ok(HandleImage::from_grid(grid)),
            Err(_) => Err(AnalyzerError::Decode),
        }
    }

    /// Scans the working copy into the cache, unless the cache is filled.
    fn fill_colors(&mut self)
        requires
            old(self).wf(),
        ensures
            final(self).filled_from(old(self)),
            old(self).cached() is Some ==> *final(self) == *old(self),
    {
        if self.colors.is_none() {
            let list = collect_colors(&self.compressed_image);
            self.colors = Some(list);
        }
    }

    /// The distinct colours of the working copy, each once. The first call
    /// scans the working copy and caches the list; later calls copy the cache
    /// and leave the analyzer as it was.
    pub fn get_colors(&mut self) -> (r: Vec<[u8; 3]>)
        requires
            old(self).wf(),
        ensures
            final(self).filled_from(old(self)),
            old(self).cached() is Some ==> *final(self) == *old(self),
            final(self).cached() == Some(r@),
            lists_colors_of(r@, old(self).working()),
    {
        self.fill_colors();
        match &self.colors {
            Some(list) => copy_colors(list),
            None => {
                assert(false);
                Vec::new()
            },
        }
    }

    /// The rounded per-channel mean of the distinct colours, each weighing
    /// the same; an image without pixels gives `EmptyInput`.
    pub fn get_dominant_color(&mut self) -> (r: Result<[u8; 3], AnalyzerError>)
        requires
            old(self).wf(),
        ensures
            final(self).filled_from(old(self)),
            old(self).cached() is Some ==> *final(self) == *old(self),
            r is Err <==> final(self).cached().unwrap().len() == 0,
            r matches Err(e) ==> e == AnalyzerError::EmptyInput,
            r matches Ok(c) ==> forall|ch: int| 0 <= ch < 3
                ==> c[ch] as int == #[trigger] mean_channel(final(self).cached().unwrap(), ch),
    {
        self.fill_colors();
        match &self.colors {
            Some(list) => match mean_color(list.as_slice()) {
                Some(c) => Ok(c),
                None => Err(AnalyzerError::EmptyInput),
            },
            None => {
                assert(false);
                Err(AnalyzerError::EmptyInput)
            },
        }
    }

    /// Whether every distinct colour has all three pairwise channel
    /// differences strictly below `threshold`.
    pub fn check_grayscale(&mut self, threshold: u8) -> (r: bool)
        requires
            old(self).wf(),
        ensures
            final(self).filled_from(old(self)),
            old(self).cached() is Some ==> *final(self) == *old(self),
            r == all_neutral(final(self).cached().unwrap(), threshold),
    {
        self.fill_colors();
        match &self.colors {
            Some(list) => all_colors_neutral(list.as_slice(), threshold),
            None => {
                assert(false);
                false
            },
        }
    }

    /// The largest pairwise channel difference over the distinct colours, or
    /// `None` for an image without pixels.
    pub fn get_grayscale_threshold(&mut self) -> (r: Option<u8>)
        requires
            old(self).wf(),
        ensures
            final(self).filled_from(old(self)),
            old(self).cached() is Some ==> *final(self) == *old(self),
            r is None <==> final(self).cached().unwrap().len() == 0,
            r matches Some(m) ==> {
                let list = final(self).cached().unwrap();
                &&& forall|k: int| 0 <= k < list.len() ==> spread(#[trigger] list[k]) <= m
                &&& exists|k: int| 0 <= k < list.len() && spread(#[trigger] list[k]) == m
            },
    {
        self.fill_colors();
        match &self.colors {
            Some(list) => max_spread(list.as_slice()),
            None => {
                assert(false);
                None
            },
        }
    }

    /// Width and height of the original image, not of the working copy.
    pub fn get_dimensions(&self) -> (r: [u32; 2])
        ensures
            r[0] == self.original().0,
            r[1] == self.original().1,
    {
        [self.image.width, self.image.height]
    }
}

/// A one-pixel image is its own working copy, and its filled colour list
/// holds exactly the colour of that pixel.
pub proof fn lemma_single_pixel_image(h: HandleImage)
    requires
        h.wf(),
        h.original().0 == 1,
        h.original().1 == 1,
        h.cached() is Some,
    ensures
        h.working() == h.original(),
        h.cached().unwrap().len() == 1,
        h.cached().unwrap()[0]@ == pixel(h.original().2, 0),
{
    lemma_small_image_kept(h.original());
    lemma_uniform_grid_colors(h.working(), h.cached().unwrap(), pixel(h.original().2, 0));
}

/// The dominant colour of a single-colour image whose shorter side is at most
/// `TARGET_SIDE` pixels is that colour.
pub proof fn lemma_uniform_image_dominant(h: HandleImage, c: [u8; 3])
    requires
        h.wf(),
        h.original().0 <= TARGET_SIDE || h.original().1 <= TARGET_SIDE,
        area(h.original().0, h.original().1) > 0,
        forall|j: int| 0 <= j < area(h.original().0, h.original().1)
            ==> #[trigger] pixel(h.original().2, j) == c@,
        h.cached() is Some,
    ensures
        forall|ch: int| 0 <= ch < 3 ==> #[trigger] mean_channel(h.cached().unwrap(), ch) == c[ch] as int,
{
    let list = h.cached().unwrap();
    lemma_small_image_kept(h.original());
    lemma_uniform_grid_colors(h.working(), list, c@);
    lemma_mean_of_one_color(list);
    assert forall|ch: int| 0 <= ch < 3 implies #[trigger] mean_channel(list, ch) == c[ch] as int by {
        assert(list[0]@[ch] == c@[ch]);
    }
}

/// An image without pixels has an empty colour list, so it has no dominant
/// colour and no largest channel difference.
pub proof fn lemma_empty_image_no_colors(h: HandleImage)
    requires
        h.wf(),
        area(h.original().0, h.original().1) == 0,
        h.cached() is Some,
    ensures
        h.cached().unwrap().len() == 0,
{
    let g = h.original();
    if g.0 > 0 && g.1 > 0 {
        assert(area(g.0, g.1) > 0) by (nonlinear_arith)
            requires
                g.0 > 0,
                g.1 > 0,
        {
        }
    }
    lemma_small_image_kept(g);
    lemma_empty_grid_colors(h.working(), h.cached().unwrap());
}

} // verus!
