use vstd::prelude::*;

verus! {

/// A raster of 8-bit RGB samples, stored row by row, three bytes per pixel.
pub struct PixelGrid {
    pub width: u32,
    pub height: u32,
    pub data: Vec<u8>,
}

/// The abstract value of a grid: width, height and the raw samples.
pub type GridModel = (u32, u32, Seq<u8>);

impl View for PixelGrid {
    type V = GridModel;

    open spec fn view(&self) -> GridModel {
        (self.width, self.height, self.data@)
    }
}

/// Number of pixels of a grid with the given sides.
pub open spec fn area(w: u32, h: u32) -> int {
    w as int * h as int
}

/// A grid model is well formed when it holds exactly three samples per pixel.
pub open spec fn grid_wf(g: GridModel) -> bool {
    g.2.len() == 3 * area(g.0, g.1)
}

/// The colour of pixel `i`, as the sequence of its three channels.
pub open spec fn pixel(data: Seq<u8>, i: int) -> Seq<u8> {
    data.subrange(3 * i, 3 * i + 3)
}

/// Whether colour `c` occurs at some pixel of `g`.
pub open spec fn grid_has_color(g: GridModel, c: Seq<u8>) -> bool {
    exists|i: int| 0 <= i < area(g.0, g.1) && #[trigger] pixel(g.2, i) == c
}

/// No two entries of the list are the same colour.
pub open spec fn distinct_colors(list: Seq<[u8; 3]>) -> bool {
    forall|a: int, b: int| 0 <= a < list.len() && 0 <= b < list.len() && a != b
        ==> (#[trigger] list[a])@ != (#[trigger] list[b])@
}

/// `list` enumerates the distinct colours of `g`, each exactly once.
pub open spec fn lists_colors_of(list: Seq<[u8; 3]>, g: GridModel) -> bool {
    &&& distinct_colors(list)
    &&& forall|k: int| 0 <= k < list.len() ==> grid_has_color(g, (#[trigger] list[k])@)
    &&& forall|c: Seq<u8>| #[trigger] grid_has_color(g, c)
        ==> exists|k: int| 0 <= k < list.len() && (#[trigger] list[k])@ == c
}

impl PixelGrid {
    pub open spec fn wf(&self) -> bool {
        grid_wf(self@)
    }
}

/// A grid whose pixels all have colour `c` lists exactly that one colour.
pub proof fn lemma_uniform_grid_colors(g: GridModel, list: Seq<[u8; 3]>, c: Seq<u8>)
    requires
        grid_wf(g),
        area(g.0, g.1) > 0,
        forall|j: int| 0 <= j < area(g.0, g.1) ==> #[trigger] pixel(g.2, j) == c,
        lists_colors_of(list, g),
    ensures
        list.len() == 1,
        list[0]@ == c,
{
    assert(grid_has_color(g, pixel(g.2, 0)));
    assert forall|k: int| 0 <= k < list.len() implies (#[trigger] list[k])@ == c by {
        assert(grid_has_color(g, list[k]@));
    }
    if list.len() >= 2 {
        assert(list[0]@ == list[1]@);
    }
}

/// A grid without pixels has no colours.
pub proof fn lemma_empty_grid_colors(g: GridModel, list: Seq<[u8; 3]>)
    requires
        area(g.0, g.1) == 0,
        lists_colors_of(list, g),
    ensures
        list.len() == 0,
{
    if list.len() > 0 {
        assert(grid_has_color(g, list[0]@));
    }
}

} // verus!
