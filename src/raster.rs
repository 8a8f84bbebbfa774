//! Projection of particles onto a character grid and serialisation of the
//! grid into a text frame.
use vstd::prelude::*;
use crate::entity::RainEntity;
use crate::geometry::Pos;

verus! {

/// One grid cell: empty, or the depth and glyph of the particle shown there.
pub type Cell = Option<(i16, char)>;

/// What is shown at column `x`, row `y` after drawing the particles of `s` in
/// order: the deepest value of `z` wins, and among equal depths the first one
/// drawn stays.
pub open spec fn cell_of(s: Seq<(Pos, RainEntity)>, x: int, y: int) -> Cell
    decreases s.len(),
{
    if s.len() == 0 {
        None
    } else {
        let prev = cell_of(s.drop_last(), x, y);
        let (p, e) = s.last();
        if p.x == x && p.y == y {
            match prev {
                None => Some((p.z, e.c)),
                Some((z, _)) => if p.z > z {
                    Some((p.z, e.c))
                } else {
                    prev
                },
            }
        } else {
            prev
        }
    }
}

/// The grid of `height` rows of `width` cells that `s` projects to.
pub open spec fn raster(s: Seq<(Pos, RainEntity)>, width: int, height: int) -> Seq<Seq<Cell>> {
    Seq::new(height as nat, |y: int| Seq::new(width as nat, |x: int| cell_of(s, x, y)))
}

/// The mathematical value of a grid held in vectors.
pub open spec fn grid_view(g: Vec<Vec<Cell>>) -> Seq<Seq<Cell>> {
    g@.map_values(|row: Vec<Cell>| row@)
}

/// Projects the particles onto a `height` by `width` grid. Particles outside
/// the grid are skipped.
pub fn rasterize(entities: &Vec<(Pos, RainEntity)>, width: usize, height: usize) -> (g: Vec<
    Vec<Cell>,
>)
    ensures
        grid_view(g) == raster(entities@, width as int, height as int),
{
    let mut data: Vec<Vec<Cell>> = Vec::new();
    let mut r: usize = 0;
    while r < height
        invariant
            r <= height,
            data@.len() == r,
            forall|y: int| 0 <= y < r ==> #[trigger] data@[y]@ == Seq::new(width as nat, |x: int| None::<(i16, char)>),
        decreases height - r,
    {
        let mut row: Vec<Cell> = Vec::new();
        let mut c: usize = 0;
        while c < width
            invariant
                c <= width,
                row@ == Seq::new(c as nat, |x: int| None::<(i16, char)>),
            decreases width - c,
        {
            row.push(None);
            c = c + 1;
            assert(row@ =~= Seq::new(c as nat, |x: int| None::<(i16, char)>));
        }
        data.push(row);
        r = r + 1;
    }
    let mut i: usize = 0;
    while i < entities.len()
        invariant
            i <= entities.len(),
            data@.len() == height,
            forall|y: int| 0 <= y < height ==> (#[trigger] data@[y])@.len() == width,
            forall|y: int, x: int|
                0 <= y < height && 0 <= x < width ==> #[trigger] data@[y]@[x] == cell_of(
                    entities@.take(i as int),
                    x,
                    y,
                ),
        decreases entities.len() - i,
    {
        let (p, e) = entities[i];
        proof {
            assert(entities@.take(i + 1).drop_last() =~= entities@.take(i as int));
            assert(entities@.take(i + 1).last() == entities@[i as int]);
        }
        if p.x >= 0 && p.y >= 0 && (p.x as usize) < width && (p.y as usize) < height {
            let y = p.y as usize;
            let x = p.x as usize;
            let ghost before = data@;
            let mut row = data.remove(y);
            let cur = row[x];
            let next = match cur {
                None => Some((p.z, e.c)),
                Some((z, ch)) => if p.z > z {
                    Some((p.z, e.c))
                } else {
                    Some((z, ch))
                },
            };
            row.set(x, next);
            data.insert(y, row);
            assert(data@ =~= before.update(y as int, row));
        }
        i = i + 1;
    }
    proof {
        assert(entities@.take(entities.len() as int) =~= entities@);
        assert(grid_view(data) =~~= raster(entities@, width as int, height as int));
    }
    data
}

/// The depth `z` scaled linearly from the full range of `i16` onto `0..=255`.
pub open spec fn shade(z: i16) -> int {
    ((z - i16::MIN) * 255) / (i16::MAX - i16::MIN)
}

/// The colour intensity for depth `z`: farther is darker, closer is brighter.
pub fn depth_shade(z: i16) -> (r: u8)
    ensures
        r == shade(z),
{
    let offset: i32 = z as i32 - i16::MIN as i32;
    assert(0 <= offset * 255 <= 65535 * 255) by (nonlinear_arith)
        requires
            0 <= offset <= 65535,
    ;
    let scaled: i32 = offset * 255;
    let q: i32 = scaled / (i16::MAX as i32 - i16::MIN as i32);
    assert(0 <= q <= 255) by (nonlinear_arith)
        requires
            q == scaled / 65535,
            0 <= scaled <= 65535 * 255,
    ;
    q as u8
}

/// Closer particles never get a darker colour than farther ones.
pub proof fn lemma_shade_monotonic(d1: i16, d2: i16)
    requires
        d1 < d2,
    ensures
        0 <= shade(d1) <= shade(d2) <= 255,
{
    let a: int = (d1 - i16::MIN) * 255;
    let b: int = (d2 - i16::MIN) * 255;
    assert(0 <= a <= b <= 65535 * 255) by (nonlinear_arith)
        requires
            a == (d1 - i16::MIN) * 255,
            b == (d2 - i16::MIN) * 255,
            i16::MIN <= d1 < d2 <= i16::MAX,
    ;
    vstd::arithmetic::div_mod::lemma_div_is_ordered(a, b, 65535);
    assert(b / 65535 <= 255) by (nonlinear_arith)
        requires
            0 <= b <= 65535 * 255,
    ;
    assert(0 <= a / 65535) by (nonlinear_arith)
        requires
            0 <= a,
    ;
}


/// Relies on `String::push`: appends one character.
pub assume_specification[ String::push ](string: &mut String, ch: char)
    ensures
        final(string)@ == old(string)@.push(ch),
;

/// Relies on `String::push_str`: appends the characters of `other`.
pub assume_specification[ String::push_str ](string: &mut String, other: &str)
    ensures
        final(string)@ == old(string)@ + other@,
;

/// The escape sequence that ends a styled segment.
pub open spec fn reset_code() -> Seq<char> {
    seq!['\x1B', '[', '0', 'm']
}

/// What a styled glyph can look like: the glyph alone when styling is off,
/// else an escape sequence, the glyph, and the reset sequence.
pub open spec fn is_painted(glyph: char, t: Seq<char>) -> bool {
    ||| t == seq![glyph]
    ||| (t.len() > 5 && t[0] == '\x1B' && t.subrange(t.len() - 5, t.len() as int) == seq![glyph]
        + reset_code())
}

/// Relies on `colored::Colorize::truecolor` and `ColoredString`'s `Display`:
/// the glyph is wrapped in an escape sequence (true colour, or the nearest
/// basic colour where the terminal lacks it) and the reset sequence, or left
/// bare where the environment turns colour off.
#[verifier::external_body]
fn paint(glyph: char, red: u8, green: u8, blue: u8) -> (r: String)
    ensures
        is_painted(glyph, r@),
{
    colored::Colorize::truecolor(String::from(glyph).as_str(), red, green, blue).to_string()
}

/// The text of one cell: a space when empty, else its glyph, styled by depth
/// when `color` is set.
pub open spec fn cell_fits(cell: Cell, color: bool, t: Seq<char>) -> bool {
    match cell {
        None => t == seq![' '],
        Some((_, glyph)) => if color {
            is_painted(glyph, t)
        } else {
            t == seq![glyph]
        },
    }
}

/// `t` holds one text per cell of `grid`, each fitting its cell.
pub open spec fn texts_fit(grid: Seq<Seq<Cell>>, color: bool, t: Seq<Seq<Seq<char>>>) -> bool {
    &&& t.len() == grid.len()
    &&& forall|y: int| 0 <= y < grid.len() ==> #[trigger] t[y].len() == grid[y].len()
    &&& forall|y: int, x: int|
        0 <= y < grid.len() && 0 <= x < grid[y].len() ==> cell_fits(
            grid[y][x],
            color,
            #[trigger] t[y][x],
        )
}

/// The cell texts of one row, concatenated.
pub open spec fn row_text(cells: Seq<Seq<char>>) -> Seq<char>
    decreases cells.len(),
{
    if cells.len() == 0 {
        Seq::empty()
    } else {
        row_text(cells.drop_last()) + cells.last()
    }
}

/// Each row's text followed by a newline.
pub open spec fn frame_text(rows: Seq<Seq<Seq<char>>>) -> Seq<char>
    decreases rows.len(),
{
    if rows.len() == 0 {
        Seq::empty()
    } else {
        frame_text(rows.drop_last()) + row_text(rows.last()) + seq!['\n']
    }
}

/// `out` is a frame of `grid`: every row's cell texts followed by a newline.
pub open spec fn renders_as(grid: Seq<Seq<Cell>>, color: bool, out: Seq<char>) -> bool {
    exists|t: Seq<Seq<Seq<char>>>| #[trigger] texts_fit(grid, color, t) && out == frame_text(t)
}

/// Serialises a grid into text, one line per row.
pub fn render_grid(grid: &Vec<Vec<Cell>>, color: bool) -> (out: String)
    ensures
        renders_as(grid_view(*grid), color, out@),
{
    let ghost g = grid_view(*grid);
    let mut out = String::new();
    let ghost mut texts: Seq<Seq<Seq<char>>> = Seq::empty();
    let mut r: usize = 0;
    while r < grid.len()
        invariant
            g == grid_view(*grid),
            r <= grid.len(),
            texts.len() == r,
            forall|y: int| 0 <= y < r ==> #[trigger] texts[y].len() == g[y].len(),
            forall|y: int, x: int|
                0 <= y < r && 0 <= x < g[y].len() ==> cell_fits(g[y][x], color, #[trigger] texts[y][x]),
            out@ == frame_text(texts),
        decreases grid.len() - r,
    {
        let row = &grid[r];
        let ghost mut cells: Seq<Seq<char>> = Seq::empty();
        let mut c: usize = 0;
        while c < row.len()
            invariant
                g == grid_view(*grid),
                r < grid.len(),
                row@ == g[r as int],
                c <= row.len(),
                cells.len() == c,
                forall|x: int| 0 <= x < c ==> cell_fits(g[r as int][x], color, #[trigger] cells[x]),
                out@ == frame_text(texts) + row_text(cells),
            decreases row.len() - c,
        {
            let ghost prev_cells = cells;
            match row[c] {
                None => {
                    out.push(' ');
                    proof {
                        cells = cells.push(seq![' ']);
                    }
                },
                Some((z, glyph)) => {
                    if color {
                        let blue = depth_shade(z);
                        let s = paint(glyph, 0, blue / 2, blue);
                        out.push_str(s.as_str());
                        proof {
                            cells = cells.push(s@);
                        }
                    } else {
                        out.push(glyph);
                        proof {
                            cells = cells.push(seq![glyph]);
                        }
                    }
                },
            }
            proof {
                assert(cells.drop_last() =~= prev_cells);
                assert(out@ =~= frame_text(texts) + row_text(cells));
            }
            c = c + 1;
        }
        out.push('\n');
        proof {
            let prev = texts;
            texts = texts.push(cells);
            assert(texts.drop_last() =~= prev);
            assert(out@ =~= frame_text(texts));
        }
        r = r + 1;
    }
    assert(texts_fit(g, color, texts));
    out
}

/// Particle `e` stands on column `x`, row `y`.
pub open spec fn stands_at(e: (Pos, RainEntity), x: int, y: int) -> bool {
    e.0.x == x && e.0.y == y
}

/// A cell is empty exactly when no particle stands on it; otherwise it shows
/// the glyph of a particle standing there whose depth is the greatest there.
pub proof fn lemma_cell_shows_deepest(s: Seq<(Pos, RainEntity)>, x: int, y: int)
    ensures
        cell_of(s, x, y) is None <==> forall|k: int| 0 <= k < s.len() ==> !stands_at(#[trigger] s[k], x, y),
        cell_of(s, x, y) matches Some((z, c)) ==> {
            &&& exists|k: int|
                0 <= k < s.len() && stands_at(#[trigger] s[k], x, y) && s[k].0.z == z && s[k].1.c == c
            &&& forall|k: int| 0 <= k < s.len() && stands_at(#[trigger] s[k], x, y) ==> s[k].0.z <= z
        },
    decreases s.len(),
{
    if s.len() > 0 {
        let rest = s.drop_last();
        lemma_cell_shows_deepest(rest, x, y);
        assert forall|k: int| 0 <= k < rest.len() implies #[trigger] rest[k] == s[k] by {}
        let n = s.len() - 1;
        if let Some((z, c)) = cell_of(s, x, y) {
            if cell_of(s, x, y) == cell_of(rest, x, y) {
                let k = choose|k: int|
                    0 <= k < rest.len() && stands_at(#[trigger] rest[k], x, y) && rest[k].0.z == z
                        && rest[k].1.c == c;
                assert(s[k] == rest[k]);
            } else {
                assert(stands_at(s[n], x, y));
            }
            assert forall|k: int| 0 <= k < s.len() && stands_at(#[trigger] s[k], x, y) implies s[k].0.z
                <= z by {
                if k < n {
                    assert(s[k] == rest[k]);
                }
            }
        } else {
            assert forall|k: int| 0 <= k < s.len() implies !stands_at(#[trigger] s[k], x, y) by {
                if k < n {
                    assert(s[k] == rest[k]);
                }
            }
        }
        if forall|k: int| 0 <= k < s.len() ==> !stands_at(#[trigger] s[k], x, y) {
            assert forall|k: int| 0 <= k < rest.len() implies !stands_at(#[trigger] rest[k], x, y) by {
                assert(s[k] == rest[k]);
            }
        }
    }
}

/// A particle strictly deeper than every other particle on its cell is the one
/// shown there, whatever order the particles are drawn in.
pub proof fn lemma_deeper_particle_shown(s: Seq<(Pos, RainEntity)>, i: int)
    requires
        0 <= i < s.len(),
        forall|k: int|
            0 <= k < s.len() && k != i && stands_at(#[trigger] s[k], s[i].0.x as int, s[i].0.y as int)
                ==> s[k].0.z < s[i].0.z,
    ensures
        cell_of(s, s[i].0.x as int, s[i].0.y as int) == Some((s[i].0.z, s[i].1.c)),
{
    let x = s[i].0.x as int;
    let y = s[i].0.y as int;
    lemma_cell_shows_deepest(s, x, y);
    assert(stands_at(s[i], x, y));
    let (z, c) = cell_of(s, x, y).unwrap();
    let k = choose|k: int| 0 <= k < s.len() && stands_at(#[trigger] s[k], x, y) && s[k].0.z == z && s[k].1.c == c;
    assert(k == i);
}

/// Without colour a grid has one frame: two renderings of it are equal.
pub proof fn lemma_plain_frame_unique(grid: Seq<Seq<Cell>>, out1: Seq<char>, out2: Seq<char>)
    requires
        renders_as(grid, false, out1),
        renders_as(grid, false, out2),
    ensures
        out1 == out2,
{
    let t1 = choose|t: Seq<Seq<Seq<char>>>| #[trigger] texts_fit(grid, false, t) && out1 == frame_text(t);
    let t2 = choose|t: Seq<Seq<Seq<char>>>| #[trigger] texts_fit(grid, false, t) && out2 == frame_text(t);
    assert forall|y: int| 0 <= y < grid.len() implies #[trigger] t1[y] == t2[y] by {
        assert forall|x: int| 0 <= x < grid[y].len() implies #[trigger] t1[y][x] == t2[y][x] by {
            assert(cell_fits(grid[y][x], false, t1[y][x]));
            assert(cell_fits(grid[y][x], false, t2[y][x]));
        }
        assert(t1[y] =~= t2[y]);
    }
    assert(t1 =~= t2);
}

} // verus!
