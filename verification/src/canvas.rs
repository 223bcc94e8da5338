use vstd::prelude::*;
use vstd::pervasive::VecAdditionalExecFns;
use vstd::arithmetic::div_mod::{
    lemma_fundamental_div_mod, lemma_mod_division_less_than_divisor, lemma_multiply_divide_lt,
};
use crate::color::{hex_to_rgba, spec_color_error, spec_rgba, valid_hex_color, ColorError, Rgba};
use crate::errors::{FatalKind, SolveError};
use crate::sector::Sector;
use crate::shape::Shape;
use crate::solver::Assignment;
use crate::tile::Tile;

verus! {

/// A pixel canvas: `width * height` colors in row-major order. This is what
/// the tile art and the stitched map are computed on; encoding it to an
/// image file is the caller's concern.
#[derive(Debug)]
pub struct Canvas {
    pub width: usize,
    pub height: usize,
    pub pixels: Vec<Rgba>,
}

pub proof fn lemma_pixel_index_bound(w: int, h: int, x: int, y: int)
    requires
        0 <= x < w,
        0 <= y < h,
    ensures
        0 <= y * w + x < w * h,
{
    assert(0 <= y * w + x < w * h) by (nonlinear_arith)
        requires
            0 <= x < w,
            0 <= y < h,
    {}
}

pub proof fn lemma_pixel_index_inj(w: int, x1: int, y1: int, x2: int, y2: int)
    requires
        0 <= x1 < w,
        0 <= x2 < w,
        y1 * w + x1 == y2 * w + x2,
    ensures
        x1 == x2,
        y1 == y2,
{
    assert(x1 == x2 && y1 == y2) by (nonlinear_arith)
        requires
            0 <= x1 < w,
            0 <= x2 < w,
            y1 * w + x1 == y2 * w + x2,
    {}
}

impl Canvas {
    pub open spec fn wf(self) -> bool {
        self.pixels@.len() == (self.width as int) * (self.height as int)
    }

    /// The color of pixel `(x, y)`.
    pub open spec fn pix(self, x: int, y: int) -> Rgba {
        self.pixels@[y * (self.width as int) + x]
    }

    /// A canvas of one solid color.
    pub fn solid(width: usize, height: usize, color: Rgba) -> (c: Canvas)
        requires
            (width as int) * (height as int) <= usize::MAX,
        ensures
            c.wf(),
            c.width == width,
            c.height == height,
            forall|x: int, y: int|
                0 <= x < width && 0 <= y < height ==> c.pix(x, y) == color,
    {
        let total = width * height;
        let mut pixels: Vec<Rgba> = Vec::new();
        let mut i: usize = 0;
        while i < total
            invariant
                i <= total,
                pixels@.len() == i,
                forall|k: int| 0 <= k < i ==> #[trigger] pixels@[k] == color,
            decreases total - i,
        {
            pixels.push(color);
            i += 1;
        }
        let c = Canvas { width, height, pixels };
        proof {
            assert forall|x: int, y: int|
                0 <= x < width && 0 <= y < height implies c.pix(x, y) == color by {
                lemma_pixel_index_bound(width as int, height as int, x, y);
            }
        }
        c
    }

    /// The color of pixel `(x, y)`.
    pub fn get_pixel(&self, x: usize, y: usize) -> (c: Rgba)
        requires
            self.wf(),
            x < self.width,
            y < self.height,
        ensures
            c == self.pix(x as int, y as int),
    {
        let total = self.pixels.len();
        proof {
            lemma_pixel_index_bound(self.width as int, self.height as int, x as int, y as int);
            assert(y * self.width + x < total);
        }
        self.pixels[y * self.width + x]
    }

    /// Paint pixel `(x, y)`, leaving every other pixel unchanged.
    pub fn put_pixel(&mut self, x: usize, y: usize, color: Rgba)
        requires
            old(self).wf(),
            x < old(self).width,
            y < old(self).height,
        ensures
            final(self).wf(),
            final(self).width == old(self).width,
            final(self).height == old(self).height,
            final(self).pix(x as int, y as int) == color,
            forall|x2: int, y2: int|
                0 <= x2 < old(self).width && 0 <= y2 < old(self).height
                    && !(x2 == x as int && y2 == y as int)
                    ==> final(self).pix(x2, y2) == old(self).pix(x2, y2),
    {
        let total = self.pixels.len();
        proof {
            lemma_pixel_index_bound(self.width as int, self.height as int, x as int, y as int);
            assert(y * self.width + x < total);
        }
        let idx = y * self.width + x;
        self.pixels.set(idx, color);
        proof {
            assert forall|x2: int, y2: int|
                0 <= x2 < old(self).width && 0 <= y2 < old(self).height
                    && !(x2 == x as int && y2 == y as int)
                    implies final(self).pix(x2, y2) == old(self).pix(x2, y2) by {
                lemma_pixel_index_bound(self.width as int, self.height as int, x2, y2);
                if y2 * (self.width as int) + x2 == idx as int {
                    lemma_pixel_index_inj(self.width as int, x2, y2, x as int, y as int);
                }
            }
        }
    }

    /// Paint the rectangle of size `w × h` whose top-left corner is at
    /// `(ox, oy)`, clipped to the canvas; out-of-range parts are simply
    /// skipped, and every pixel outside the rectangle keeps its color.
    pub fn fill_rect(&mut self, ox: usize, oy: usize, w: usize, h: usize, color: Rgba)
        requires
            old(self).wf(),
        ensures
            final(self).wf(),
            final(self).width == old(self).width,
            final(self).height == old(self).height,
            forall|x: int, y: int|
                0 <= x < old(self).width && 0 <= y < old(self).height
                    ==> final(self).pix(x, y) == if ox <= x < ox + w && oy <= y < oy + h {
                        color
                    } else {
                        old(self).pix(x, y)
                    },
    {
        let mut dy: usize = 0;
        while dy < h
            invariant
                self.wf(),
                self.width == old(self).width,
                self.height == old(self).height,
                dy <= h,
                forall|x: int, y: int|
                    0 <= x < old(self).width && 0 <= y < old(self).height
                        ==> self.pix(x, y) == if ox <= x < ox + w && oy <= y < oy + dy {
                            color
                        } else {
                            old(self).pix(x, y)
                        },
            decreases h - dy,
        {
            if oy < self.height && dy < self.height - oy {
                let py = oy + dy;
                let mut dx: usize = 0;
                while dx < w
                    invariant
                        self.wf(),
                        self.width == old(self).width,
                        self.height == old(self).height,
                        dy < h,
                        py == oy + dy,
                        py < self.height,
                        dx <= w,
                        forall|x: int, y: int|
                            0 <= x < old(self).width && 0 <= y < old(self).height
                                ==> self.pix(x, y) == if (ox <= x < ox + w && oy <= y < oy + dy)
                                    || (y == py as int && ox <= x < ox + dx) {
                                    color
                                } else {
                                    old(self).pix(x, y)
                                },
                    decreases w - dx,
                {
                    if ox < self.width && dx < self.width - ox {
                        let px = ox + dx;
                        self.put_pixel(px, py, color);
                    }
                    dx += 1;
                }
            }
            dy += 1;
        }
    }

    /// Copy the whole of `src` onto this canvas with its top-left corner at
    /// `(ox, oy)`. The copy must fit; every pixel outside the copied
    /// rectangle keeps its color.
    pub fn blit(&mut self, src: &Canvas, ox: usize, oy: usize)
        requires
            old(self).wf(),
            src.wf(),
            ox + src.width <= old(self).width,
            oy + src.height <= old(self).height,
        ensures
            final(self).wf(),
            final(self).width == old(self).width,
            final(self).height == old(self).height,
            forall|u: int, v: int|
                0 <= u < src.width && 0 <= v < src.height
                    ==> final(self).pix(ox + u, oy + v) == src.pix(u, v),
            forall|x: int, y: int|
                0 <= x < old(self).width && 0 <= y < old(self).height
                    && !(ox <= x < ox + src.width && oy <= y < oy + src.height)
                    ==> final(self).pix(x, y) == old(self).pix(x, y),
    {
        let mut v: usize = 0;
        while v < src.height
            invariant
                self.wf(),
                self.width == old(self).width,
                self.height == old(self).height,
                src.wf(),
                ox + src.width <= self.width,
                oy + src.height <= self.height,
                v <= src.height,
                forall|u2: int, v2: int|
                    0 <= u2 < src.width && 0 <= v2 < v
                        ==> self.pix(ox + u2, oy + v2) == src.pix(u2, v2),
                forall|x: int, y: int|
                    0 <= x < old(self).width && 0 <= y < old(self).height
                        && !(ox <= x < ox + src.width && oy <= y < oy + v)
                        ==> self.pix(x, y) == old(self).pix(x, y),
            decreases src.height - v,
        {
            let mut u: usize = 0;
            while u < src.width
                invariant
                    self.wf(),
                    self.width == old(self).width,
                    self.height == old(self).height,
                    src.wf(),
                    ox + src.width <= self.width,
                    oy + src.height <= self.height,
                    v < src.height,
                    u <= src.width,
                    forall|u2: int, v2: int|
                        0 <= u2 < src.width && 0 <= v2 < v
                            ==> self.pix(ox + u2, oy + v2) == src.pix(u2, v2),
                    forall|u2: int|
                        0 <= u2 < u ==> self.pix(ox + u2, oy + v) == #[trigger] src.pix(u2, v as int),
                    forall|x: int, y: int|
                        0 <= x < old(self).width && 0 <= y < old(self).height
                            && !(ox <= x < ox + src.width && oy <= y < oy + v)
                            && !(y == oy + v && ox <= x < ox + u)
                            ==> self.pix(x, y) == old(self).pix(x, y),
                decreases src.width - u,
            {
                let c = src.get_pixel(u, v);
                self.put_pixel(ox + u, oy + v, c);
                u += 1;
            }
            v += 1;
        }
    }
}

/// Sector `s` of a tile covers pixel `(x, y)`.
pub open spec fn sector_covers(s: crate::tile::Sector, x: int, y: int) -> bool {
    &&& s.origin.0 <= x < s.origin.0 + s.dimensions.0
    &&& s.origin.1 <= y < s.origin.1 + s.dimensions.1
}

/// The color of a tile pixel after the first `k` sectors have been painted
/// over the base fill, a later sector winning where sectors overlap.
pub open spec fn painted(
    sectors: Seq<crate::tile::Sector>,
    colors: Seq<Rgba>,
    base: Rgba,
    k: int,
    x: int,
    y: int,
) -> Rgba
    decreases k,
{
    if k <= 0 {
        base
    } else if sector_covers(sectors[k - 1], x, y) {
        colors[k - 1]
    } else {
        painted(sectors, colors, base, k - 1, x, y)
    }
}

/// The color every sector of `sector_data` is painted with.
pub open spec fn sector_colors(sector_data: Seq<Sector>) -> Seq<Rgba> {
    sector_data.map_values(|s: Sector| spec_rgba(s.color_code@))
}

/// Render a tile's art: a solid fill in the tile's base color, with each
/// sector's rectangle painted over it in order, clipped to the tile.
/// `sector_data[k]` is the sector definition loaded from the file that
/// `tile.sectors[k]` points at; only its color is used here, the geometry
/// comes from the tile. Fails exactly when some color code is invalid.
pub fn render_tile(tile: &Tile, sector_data: &Vec<Sector>) -> (r: Result<Canvas, ColorError>)
    requires
        sector_data@.len() == tile.sectors@.len(),
        (tile.dimensions.0 as int) * (tile.dimensions.1 as int) <= usize::MAX,
    ensures
        r is Ok <==> (valid_hex_color(tile.color_code@) && (forall|k: int|
            0 <= k < sector_data@.len()
                ==> valid_hex_color(#[trigger] sector_data@[k].color_code@))),
        match r {
            Ok(c) => {
                &&& c.wf()
                &&& c.width == tile.dimensions.0
                &&& c.height == tile.dimensions.1
                &&& forall|x: int, y: int|
                        0 <= x < c.width && 0 <= y < c.height
                            ==> #[trigger] c.pix(x, y) == painted(
                                tile.sectors@,
                                sector_colors(sector_data@),
                                spec_rgba(tile.color_code@),
                                sector_data@.len() as int,
                                x,
                                y,
                            )
            },
            Err(e) => if !valid_hex_color(tile.color_code@) {
                e == spec_color_error(tile.color_code@)
            } else {
                exists|k: int|
                    #![trigger sector_data@[k]]
                    {
                        &&& 0 <= k < sector_data@.len()
                        &&& !valid_hex_color(sector_data@[k].color_code@)
                        &&& (forall|k2: int|
                            0 <= k2 < k ==> valid_hex_color(
                                (#[trigger] sector_data@[k2]).color_code@,
                            ))
                        &&& e == spec_color_error(sector_data@[k].color_code@)
                    }
            },
        },
{
    let base = match hex_to_rgba(tile.color_code.as_str()) {
        Ok(c) => c,
        Err(e) => {
            return Err(e);
        },
    };
    let mut canvas = Canvas::solid(
        tile.dimensions.0 as usize,
        tile.dimensions.1 as usize,
        base,
    );
    let mut k: usize = 0;
    while k < sector_data.len()
        invariant
            sector_data@.len() == tile.sectors@.len(),
            k <= sector_data@.len(),
            valid_hex_color(tile.color_code@),
            base == spec_rgba(tile.color_code@),
            forall|k2: int|
                0 <= k2 < k ==> valid_hex_color(#[trigger] sector_data@[k2].color_code@),
            canvas.wf(),
            canvas.width == tile.dimensions.0,
            canvas.height == tile.dimensions.1,
            forall|x: int, y: int|
                0 <= x < canvas.width && 0 <= y < canvas.height
                    ==> #[trigger] canvas.pix(x, y) == painted(
                        tile.sectors@,
                        sector_colors(sector_data@),
                        base,
                        k as int,
                        x,
                        y,
                    ),
        decreases sector_data@.len() - k,
    {
        let color = match hex_to_rgba(sector_data[k].color_code.as_str()) {
            Ok(c) => c,
            Err(e) => {
                proof {
                    assert(!valid_hex_color(sector_data@[k as int].color_code@));
                    assert(e == spec_color_error(sector_data@[k as int].color_code@));
                }
                return Err(e);
            },
        };
        let s = &tile.sectors[k];
        canvas.fill_rect(
            s.origin.0 as usize,
            s.origin.1 as usize,
            s.dimensions.0 as usize,
            s.dimensions.1 as usize,
            color,
        );
        proof {
            assert(sector_colors(sector_data@)[k as int] == spec_rgba(sector_data@[k as int].color_code@));
        }
        k += 1;
    }
    Ok(canvas)
}

/// How many tile columns the shape lays out side by side.
pub open spec fn shape_cols(s: Shape) -> int {
    match s {
        Shape::Line { length } => length as int,
        Shape::Rect { width, .. } => width as int,
    }
}

/// How many tile rows the shape stacks.
pub open spec fn shape_rows(s: Shape) -> int {
    match s {
        Shape::Line { .. } => 1,
        Shape::Rect { height, .. } => height as int,
    }
}

/// Stitch a solved assignment into one canvas: cell `i` of the assignment
/// is drawn at tile position `(i % cols, i / cols)`, each tile art being
/// `tile_w × tile_h` pixels. Fails exactly when some assigned tile has no
/// backing art — a structural error, never retried.
pub fn stitch_assignment(
    tiles: &Vec<Canvas>,
    a: &Assignment,
    tile_w: usize,
    tile_h: usize,
) -> (r: Result<Canvas, SolveError>)
    requires
        a.shape.wf(),
        a.tiles@.len() == a.shape.count(),
        forall|k: int|
            0 <= k < tiles@.len()
                ==> (#[trigger] tiles@[k]).wf() && tiles@[k].width == tile_w && tiles@[k].height
                == tile_h,
        shape_cols(a.shape) * (tile_w as int) <= usize::MAX,
        shape_rows(a.shape) * (tile_h as int) <= usize::MAX,
        (shape_cols(a.shape) * (tile_w as int)) * (shape_rows(a.shape) * (tile_h as int))
            <= usize::MAX,
    ensures
        r is Ok <==> (forall|i: int|
            0 <= i < a.tiles@.len() ==> (#[trigger] a.tiles@[i] as int) < tiles@.len()),
        match r {
            Ok(c) => {
                &&& c.wf()
                &&& c.width == shape_cols(a.shape) * (tile_w as int)
                &&& c.height == shape_rows(a.shape) * (tile_h as int)
                &&& forall|i: int, u: int, v: int|
                        0 <= i < a.tiles@.len() && 0 <= u < tile_w && 0 <= v < tile_h
                            ==> c.pix(
                                (i % shape_cols(a.shape)) * tile_w + u,
                                (i / shape_cols(a.shape)) * tile_h + v,
                            ) == #[trigger] tiles@[a.tiles@[i] as int].pix(u, v)
            },
            Err(e) => e matches SolveError::Fatal { kind }
                && kind matches FatalKind::MissingAsset { tile }
                && tile >= tiles@.len()
                && (exists|i: int| 0 <= i < a.tiles@.len() && a.tiles@[i] == tile),
        },
{
    let cols = match a.shape {
        Shape::Line { length } => length,
        Shape::Rect { width, .. } => width,
    };
    let rows = match a.shape {
        Shape::Line { .. } => 1,
        Shape::Rect { height, .. } => height,
    };
    let cw = cols * tile_w;
    let ch = rows * tile_h;
    proof {
        assert((cw as int) * (ch as int) <= usize::MAX) by (nonlinear_arith)
            requires
                cw as int == shape_cols(a.shape) * (tile_w as int),
                ch as int == shape_rows(a.shape) * (tile_h as int),
                (shape_cols(a.shape) * (tile_w as int)) * (shape_rows(a.shape) * (tile_h as int))
                    <= usize::MAX,
        {}
    }
    let mut canvas = Canvas::solid(cw, ch, Rgba { r: 0, g: 0, b: 0, a: 0 });
    let count = a.len();
    proof {
        assert(count as int == shape_cols(a.shape) * shape_rows(a.shape)) by {
            match a.shape {
                Shape::Line { length } => {},
                Shape::Rect { width, height } => {},
            }
        }
    }
    let mut i: usize = 0;
    while i < count
        invariant
            a.tiles@.len() == count,
            count as int == shape_cols(a.shape) * shape_rows(a.shape),
            cols as int == shape_cols(a.shape),
            rows as int == shape_rows(a.shape),
            cw as int == (cols as int) * (tile_w as int),
            ch as int == (rows as int) * (tile_h as int),
            i <= count,
            canvas.wf(),
            canvas.width == cw,
            canvas.height == ch,
            forall|k: int|
                0 <= k < tiles@.len()
                    ==> (#[trigger] tiles@[k]).wf() && tiles@[k].width == tile_w
                    && tiles@[k].height == tile_h,
            forall|i2: int| 0 <= i2 < i ==> (#[trigger] a.tiles@[i2] as int) < tiles@.len(),
            forall|i2: int, u: int, v: int|
                0 <= i2 < i && 0 <= u < tile_w && 0 <= v < tile_h
                    ==> canvas.pix(
                        (i2 % (cols as int)) * tile_w + u,
                        (i2 / (cols as int)) * tile_h + v,
                    ) == #[trigger] tiles@[a.tiles@[i2] as int].pix(u, v),
        decreases count - i,
    {
        let t = a.tile_at(i);
        if t >= tiles.len() {
            return Err(SolveError::Fatal { kind: FatalKind::MissingAsset { tile: t } });
        }
        proof {
            assert(cols > 0) by (nonlinear_arith)
                requires
                    (i as int) < (cols as int) * (rows as int),
                    0 <= i as int,
                    0 <= cols as int,
            {}
            lemma_fundamental_div_mod(i as int, cols as int);
            lemma_mod_division_less_than_divisor(i as int, cols as int);
            lemma_multiply_divide_lt(i as int, cols as int, rows as int);
        }
        let x = i % cols;
        let y = i / cols;
        proof {
            assert((x as int) * (tile_w as int) + tile_w as int <= cw as int
                && (y as int) * (tile_h as int) + tile_h as int <= ch as int) by (nonlinear_arith)
                requires
                    0 <= (x as int) && (x as int) < (cols as int),
                    0 <= (y as int) && (y as int) < (rows as int),
                    cw as int == (cols as int) * (tile_w as int),
                    ch as int == (rows as int) * (tile_h as int),
            {}
        }
        let ox = x * tile_w;
        let oy = y * tile_h;
        let ghost before = canvas;
        canvas.blit(&tiles[t], ox, oy);
        proof {
            assert forall|i2: int, u: int, v: int|
                0 <= i2 < i + 1 && 0 <= u < tile_w && 0 <= v < tile_h implies canvas.pix(
                    (i2 % (cols as int)) * tile_w + u,
                    (i2 / (cols as int)) * tile_h + v,
                ) == #[trigger] tiles@[a.tiles@[i2] as int].pix(u, v) by {
                let w = cols as int;
                let x2 = i2 % w;
                let y2 = i2 / w;
                lemma_fundamental_div_mod(i2, w);
                lemma_mod_division_less_than_divisor(i2, w);
                lemma_multiply_divide_lt(i2, w, rows as int);
                let px = x2 * (tile_w as int) + u;
                let py = y2 * (tile_h as int) + v;
                if i2 == i as int {
                    assert(x2 == x as int && y2 == y as int);
                    assert(canvas.pix(ox + u, oy + v) == tiles@[t as int].pix(u, v));
                    assert(px == ox + u && py == oy + v);
                } else {
                    if x2 == x as int && y2 == y as int {
                        assert(i2 == i as int);
                        assert(false);
                    }
                    assert(0 <= px < cw as int && 0 <= py < ch as int
                        && !(ox <= px < ox + tile_w && oy <= py < oy + tile_h))
                        by (nonlinear_arith)
                        requires
                            0 <= u < tile_w as int,
                            0 <= v < tile_h as int,
                            0 <= x2 < cols as int,
                            0 <= y2 < rows as int,
                            0 <= (x as int) && (x as int) < (cols as int),
                            0 <= (y as int) && (y as int) < (rows as int),
                            px == x2 * (tile_w as int) + u,
                            py == y2 * (tile_h as int) + v,
                            ox as int == (x as int) * (tile_w as int),
                            oy as int == (y as int) * (tile_h as int),
                            cw as int == (cols as int) * (tile_w as int),
                            ch as int == (rows as int) * (tile_h as int),
                            !(x2 == x as int && y2 == y as int),
                    {}
                    assert(canvas.pix(px, py) == before.pix(px, py));
                    assert(before.pix(px, py) == tiles@[a.tiles@[i2] as int].pix(u, v));
                }
            }
        }
        i += 1;
    }
    Ok(canvas)
}

} // verus!
