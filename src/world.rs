//! The simulation grid: the live particles, their motion, spawning and
//! resizing.
use vstd::prelude::*;
use crate::entity::RainEntity;
use crate::geometry::{Pos, next_x, next_y, shift_fits, shifted};
use crate::raster::{Cell, raster, rasterize, render_grid, renders_as};

verus! {

/// Why a world could not be created or resized.
#[derive(Debug, Clone, Copy, PartialEq, Eq, Structural)]
pub enum WorldError {
    /// A width or a height of zero.
    InvalidDimension,
}

/// Where new particles start in depth.
#[derive(Debug, Clone, Copy, PartialEq, Eq, Structural)]
pub enum SpawnDepth {
    /// Every particle starts at depth zero.
    Level,
    /// Depth drawn uniformly from `SCATTER_MIN..=SCATTER_MAX`.
    Scattered,
}

/// Bounds of the depth drawn for a scattered spawn, inclusive.
pub const SCATTER_MIN: i16 = -16384;
pub const SCATTER_MAX: i16 = 16383;

/// Run settings that the simulation reads.
#[derive(Debug, Clone, Copy, PartialEq, Eq, Structural)]
pub struct Opts {
    /// Render glyphs without depth colouring.
    pub no_color: bool,
    /// Chance, in percent, that a column spawns a particle on a tick.
    pub spawn_rate: u8,
    /// Milliseconds between ticks.
    pub update_rate: u64,
    /// Starting depth of spawned particles.
    pub spawn_depth: SpawnDepth,
}

/// The particle at `p` lies on a `width` by `height` grid.
pub open spec fn in_grid(p: Pos, width: int, height: int) -> bool {
    0 <= p.x < width && 0 <= p.y < height
}

/// The particle `e` is still on the grid after one tick of its velocity.
pub open spec fn survives(e: (Pos, RainEntity), width: int, height: int) -> bool {
    0 <= next_x(e.0, e.1.velocity) < width && 0 <= next_y(e.0, e.1.velocity) < height
}

/// One tick for one particle: its new state, or `None` once it leaves the grid.
pub open spec fn step(e: (Pos, RainEntity), width: int, height: int) -> Option<(Pos, RainEntity)> {
    if survives(e, width, height) {
        Some((shifted(e.0, e.1.velocity), e.1))
    } else {
        None
    }
}

/// The particles after one tick: each one moved, those off the grid dropped,
/// the order kept.
pub open spec fn advanced(s: Seq<(Pos, RainEntity)>, width: int, height: int) -> Seq<
    (Pos, RainEntity),
> {
    s.filter_map(|e: (Pos, RainEntity)| step(e, width, height))
}

/// The particles of `s` that lie on a `width` by `height` grid, in order.
pub open spec fn retained(s: Seq<(Pos, RainEntity)>, width: int, height: int) -> Seq<
    (Pos, RainEntity),
> {
    s.filter(|e: (Pos, RainEntity)| in_grid(e.0, width, height))
}

/// The particles of one spawn step: on the top row of a grid `width` wide, at
/// most one per column in increasing column order, freshly generated, starting
/// at a depth that `depth` allows.
pub open spec fn spawned_ok(s: Seq<(Pos, RainEntity)>, width: int, depth: SpawnDepth) -> bool {
    &&& forall|k: int| 0 <= k < s.len() ==> spawn_fits(#[trigger] s[k], width, depth)
    &&& forall|j: int, k: int| 0 <= j < k < s.len() ==> #[trigger] s[j].0.x < #[trigger] s[k].0.x
}

/// One freshly spawned particle: on the top row of a grid `width` wide, freshly
/// generated, at a starting depth that `depth` allows.
pub open spec fn spawn_fits(e: (Pos, RainEntity), width: int, depth: SpawnDepth) -> bool {
    &&& e.0.y == 0
    &&& 0 <= e.0.x < width
    &&& e.1.is_generated()
    &&& depth == SpawnDepth::Level ==> e.0.z == 0
    &&& SCATTER_MIN <= e.0.z <= SCATTER_MAX
}

/// Exactly one spawned particle for each of the first `width` columns.
pub open spec fn spawned_everywhere(s: Seq<(Pos, RainEntity)>, width: int) -> bool {
    s.len() == width && forall|k: int| 0 <= k < width ==> #[trigger] s[k].0.x == k
}

/// The mathematical value of a world.
pub struct RainMapView {
    pub entities: Seq<(Pos, RainEntity)>,
    pub width: int,
    pub height: int,
}

impl RainMapView {
    /// Positive bounds whose coordinates fit `i32`, and every particle on the
    /// grid.
    pub open spec fn wf(self) -> bool {
        &&& 0 < self.width <= i32::MAX
        &&& 0 < self.height <= i32::MAX
        &&& forall|i: int|
            0 <= i < self.entities.len() ==> in_grid(
                #[trigger] self.entities[i].0,
                self.width,
                self.height,
            )
    }

    /// The grid that the particles project to.
    pub open spec fn grid(self) -> Seq<Seq<Cell>> {
        raster(self.entities, self.width, self.height)
    }
}

/// The world: a set of particles on a grid of `width` columns and `height` rows.
pub struct RainMap {
    entities: Vec<(Pos, RainEntity)>,
    height: usize,
    width: usize,
}

impl View for RainMap {
    type V = RainMapView;

    closed spec fn view(&self) -> RainMapView {
        RainMapView {
            entities: self.entities@,
            width: self.width as int,
            height: self.height as int,
        }
    }
}

impl RainMap {
    /// An empty world, or `InvalidDimension` when a bound is zero.
    pub fn new(width: usize, height: usize) -> (r: Result<RainMap, WorldError>)
        requires
            width <= i32::MAX,
            height <= i32::MAX,
        ensures
            width == 0 || height == 0 <==> r is Err,
            r is Err ==> r == Err::<RainMap, WorldError>(WorldError::InvalidDimension),
            r matches Ok(m) ==> m@.wf() && m@.entities.len() == 0 && m@.width == width
                && m@.height == height,
    {
        if width == 0 || height == 0 {
            return Err(WorldError::InvalidDimension);
        }
        Ok(RainMap { entities: Vec::new(), width, height })
    }

    pub fn width(&self) -> (r: usize)
        ensures
            r == self@.width,
    {
        self.width
    }

    pub fn height(&self) -> (r: usize)
        ensures
            r == self@.height,
    {
        self.height
    }

    /// The live particles, in storage order.
    pub fn entities(&self) -> (r: &Vec<(Pos, RainEntity)>)
        ensures
            r@ == self@.entities,
    {
        &self.entities
    }

    /// Whether `pos` lies on the grid.
    pub fn contains(&self, pos: &Pos) -> (r: bool)
        ensures
            r == in_grid(*pos, self@.width, self@.height),
    {
        pos.x >= 0 && pos.y >= 0 && (pos.x as usize) < self.width && (pos.y as usize) < self.height
    }

    /// Moves every particle by its velocity and drops those that leave the
    /// grid; the survivors keep their order.
    pub fn update(&mut self)
        requires
            old(self)@.wf(),
        ensures
            final(self)@.wf(),
            final(self)@.width == old(self)@.width,
            final(self)@.height == old(self)@.height,
            final(self)@.entities == advanced(old(self)@.entities, old(self)@.width, old(self)@.height),
    {
        let ghost w = self@.width;
        let ghost h = self@.height;
        let mut kept: Vec<(Pos, RainEntity)> = Vec::new();
        let mut i: usize = 0;
        while i < self.entities.len()
            invariant
                self@ == old(self)@,
                self@.wf(),
                w == self.width,
                h == self.height,
                i <= self.entities.len(),
                kept@ == advanced(self.entities@.take(i as int), w, h),
                forall|k: int| 0 <= k < kept@.len() ==> in_grid(#[trigger] kept@[k].0, w, h),
            decreases self.entities.len() - i,
        {
            let (p, e) = self.entities[i];
            let nx: i64 = p.x as i64 + e.velocity.x as i64;
            let ny: i64 = p.y as i64 - e.velocity.y as i64;
            proof {
                let t = self.entities@.take(i + 1);
                assert(t.drop_last() =~= self.entities@.take(i as int));
                assert(t.last() == (p, e));
            }
            if 0 <= nx && nx < self.width as i64 && 0 <= ny && ny < self.height as i64 {
                let mut q = p;
                assert(shift_fits(q, e.velocity));
                q.shift(&e.velocity);
                kept.push((q, e));
            }
            i = i + 1;
        }
        proof {
            assert(self.entities@.take(self.entities.len() as int) =~= self.entities@);
        }
        self.entities = kept;
    }

    /// Changes the bounds and drops every particle that no longer lies on the
    /// grid. A zero bound is refused and nothing changes.
    pub fn resize(&mut self, width: usize, height: usize) -> (r: Result<(), WorldError>)
        requires
            old(self)@.wf(),
            width <= i32::MAX,
            height <= i32::MAX,
        ensures
            width == 0 || height == 0 <==> r is Err,
            r is Err ==> r == Err::<(), WorldError>(WorldError::InvalidDimension) && final(self)@
                == old(self)@,
            r is Ok ==> final(self)@.width == width && final(self)@.height == height
                && final(self)@.entities == retained(old(self)@.entities, width as int, height as int),
            final(self)@.wf(),
    {
        if width == 0 || height == 0 {
            return Err(WorldError::InvalidDimension);
        }
        self.width = width;
        self.height = height;
        let mut kept: Vec<(Pos, RainEntity)> = Vec::new();
        let mut i: usize = 0;
        while i < self.entities.len()
            invariant
                self.entities@ == old(self)@.entities,
                self.width == width,
                self.height == height,
                0 < width <= i32::MAX,
                0 < height <= i32::MAX,
                i <= self.entities.len(),
                kept@ == retained(self.entities@.take(i as int), width as int, height as int),
                forall|k: int| 0 <= k < kept@.len() ==> in_grid(#[trigger] kept@[k].0, width as int, height as int),
            decreases self.entities.len() - i,
        {
            let e = self.entities[i];
            proof {
                let t = self.entities@.take(i + 1);
                assert(t.drop_last() =~= self.entities@.take(i as int));
                assert(t.last() == e);
                reveal(Seq::filter);
            }
            if self.contains(&e.0) {
                kept.push(e);
            }
            i = i + 1;
        }
        proof {
            assert(self.entities@.take(self.entities.len() as int) =~= self.entities@);
        }
        self.entities = kept;
        Ok(())
    }

    /// Gives each column, with chance `opts.spawn_rate` percent, one new
    /// particle on the top row; new particles go after the existing ones.
    pub fn hydrate(&mut self, opts: &Opts)
        requires
            old(self)@.wf(),
            opts.spawn_rate <= 100,
        ensures
            final(self)@.wf(),
            final(self)@.width == old(self)@.width,
            final(self)@.height == old(self)@.height,
            old(self)@.entities.len() <= final(self)@.entities.len(),
            final(self)@.entities.take(old(self)@.entities.len() as int) == old(self)@.entities,
            spawned_ok(
                final(self)@.entities.skip(old(self)@.entities.len() as int),
                old(self)@.width,
                opts.spawn_depth,
            ),
            opts.spawn_rate == 100 ==> spawned_everywhere(
                final(self)@.entities.skip(old(self)@.entities.len() as int),
                old(self)@.width,
            ),
            opts.spawn_rate == 0 ==> final(self)@ == old(self)@,
    {
        let ghost n = self.entities@.len();
        let mut x: usize = 0;
        while x < self.width
            invariant
                self.width == old(self).width,
                self.height == old(self).height,
                old(self)@.wf(),
                opts.spawn_rate <= 100,
                x <= self.width,
                n == old(self)@.entities.len(),
                n <= self.entities@.len(),
                self.entities@.take(n as int) == old(self)@.entities,
                spawned_ok(self.entities@.skip(n as int), self.width as int, opts.spawn_depth),
                forall|k: int|
                    0 <= k < self.entities@.skip(n as int).len() ==> #[trigger] self.entities@.skip(
                        n as int,
                    )[k].0.x < x,
                opts.spawn_rate == 100 ==> spawned_everywhere(self.entities@.skip(n as int), x as int),
                opts.spawn_rate == 0 ==> self.entities@.len() == n,
            decreases self.width - x,
        {
            let ghost before = self.entities@;
            if crate::chance::draw_ratio(opts.spawn_rate as u32, 100) {
                let z: i16 = match opts.spawn_depth {
                    SpawnDepth::Level => 0,
                    SpawnDepth::Scattered => crate::chance::draw_between(
                        SCATTER_MIN as i32,
                        SCATTER_MAX as i32,
                    ) as i16,
                };
                let e = RainEntity::new();
                self.entities.push((Pos::new(x as i32, 0, z), e));
                proof {
                    let item = (Pos { x: x as i32, y: 0, z }, e);
                    let prev = before.skip(n as int);
                    let sp = self.entities@.skip(n as int);
                    assert(self.entities@.take(n as int) =~= before.take(n as int));
                    assert(sp =~= prev.push(item));
                    assert forall|j: int, k: int| 0 <= j < k < sp.len() implies #[trigger] sp[j].0.x
                        < #[trigger] sp[k].0.x by {
                        if k == sp.len() - 1 {
                            assert(sp[j] == prev[j]);
                            assert(prev[j].0.x < x);
                        } else {
                            assert(sp[j] == prev[j]);
                            assert(sp[k] == prev[k]);
                        }
                    }
                    assert forall|k: int| 0 <= k < sp.len() implies #[trigger] sp[k].0.x < x + 1 by {
                        if k < prev.len() {
                            assert(sp[k] == prev[k]);
                        }
                    }
                    assert forall|k: int| 0 <= k < sp.len() implies spawn_fits(
                        #[trigger] sp[k],
                        self.width as int,
                        opts.spawn_depth,
                    ) by {
                        if k < prev.len() {
                            assert(sp[k] == prev[k]);
                        }
                    }
                }
            }
            x = x + 1;
        }
        proof {
            assert(self.entities@ =~= self.entities@.take(n as int) + self.entities@.skip(n as int));
            if opts.spawn_rate == 0 {
                assert(self.entities@ =~= old(self)@.entities);
            }
            assert forall|i: int| 0 <= i < self.entities@.len() implies in_grid(
                #[trigger] self.entities@[i].0,
                self@.width,
                self@.height,
            ) by {
                if i < n {
                    assert(self.entities@[i] == self.entities@.take(n as int)[i]);
                    assert(in_grid(old(self)@.entities[i].0, self@.width, self@.height));
                } else {
                    assert(self.entities@[i] == self.entities@.skip(n as int)[i - n]);
                    assert(spawn_fits(self.entities@.skip(n as int)[i - n], self@.width, opts.spawn_depth));
                }
            }
        }
    }

    /// The current frame as text, one line per row. Each cell shows the
    /// deepest particle on it, or a space.
    pub fn render(&self, opts: &Opts) -> (r: String)
        ensures
            renders_as(self@.grid(), !opts.no_color, r@),
    {
        let g = rasterize(&self.entities, self.width, self.height);
        render_grid(&g, !opts.no_color)
    }

}

/// After a tick every particle lies on the grid; a particle stays, moved by
/// its velocity, exactly when its moved position is on the grid; and nothing
/// stays that was not such a particle.
pub proof fn lemma_advance_keeps_exactly_survivors(s: Seq<(Pos, RainEntity)>, width: int, height: int)
    requires
        0 < width <= i32::MAX,
        0 < height <= i32::MAX,
    ensures
        forall|k: int|
            0 <= k < advanced(s, width, height).len() ==> in_grid(
                #[trigger] advanced(s, width, height)[k].0,
                width,
                height,
            ),
        forall|j: int|
            0 <= j < s.len() && survives(#[trigger] s[j], width, height) ==> advanced(
                s,
                width,
                height,
            ).contains((shifted(s[j].0, s[j].1.velocity), s[j].1)),
        forall|e: (Pos, RainEntity)|
            #[trigger] advanced(s, width, height).contains(e) ==> exists|t: (Pos, RainEntity)|
                #[trigger] s.contains(t) && survives(t, width, height) && e == (
                    shifted(t.0, t.1.velocity),
                    t.1,
                ),
    decreases s.len(),
{
    let a = advanced(s, width, height);
    assert forall|e: (Pos, RainEntity)| #[trigger] a.contains(e) implies exists|t: (Pos, RainEntity)|
        #[trigger] s.contains(t) && survives(t, width, height) && e == (
            shifted(t.0, t.1.velocity),
            t.1,
        ) by {
        s.lemma_filter_map_contains(|e: (Pos, RainEntity)| step(e, width, height), e);
    }
    if s.len() > 0 {
        let rest = s.drop_last();
        lemma_advance_keeps_exactly_survivors(rest, width, height);
        let ar = advanced(rest, width, height);
        assert forall|k: int| 0 <= k < a.len() implies in_grid(#[trigger] a[k].0, width, height) by {
            if k < ar.len() {
                assert(a[k] == ar[k]);
            }
        }
        assert forall|j: int| 0 <= j < s.len() && survives(#[trigger] s[j], width, height) implies a.contains(
            (shifted(s[j].0, s[j].1.velocity), s[j].1),
        ) by {
            let m = (shifted(s[j].0, s[j].1.velocity), s[j].1);
            if j < s.len() - 1 {
                assert(s[j] == rest[j]);
                let q = choose|q: int| 0 <= q < ar.len() && ar[q] == m;
                assert(a[q] == m);
            } else {
                assert(a[a.len() - 1] == m);
            }
        }
    }
}

/// Resizing keeps exactly the particles that lie on the new grid, each one
/// unchanged, and drops every other one.
pub proof fn lemma_resize_keeps_exactly_inside(s: Seq<(Pos, RainEntity)>, width: int, height: int)
    ensures
        forall|k: int|
            0 <= k < retained(s, width, height).len() ==> in_grid(
                #[trigger] retained(s, width, height)[k].0,
                width,
                height,
            ),
        forall|j: int|
            0 <= j < s.len() ==> (in_grid(#[trigger] s[j].0, width, height) <==> retained(
                s,
                width,
                height,
            ).contains(s[j])),
        forall|e: (Pos, RainEntity)| #[trigger] retained(s, width, height).contains(e) ==> s.contains(e),
{
    let pred = |e: (Pos, RainEntity)| in_grid(e.0, width, height);
    let r = retained(s, width, height);
    assert forall|k: int| 0 <= k < r.len() implies in_grid(#[trigger] r[k].0, width, height) by {
        s.lemma_filter_pred(pred, k);
    }
    assert forall|j: int| 0 <= j < s.len() implies (in_grid(#[trigger] s[j].0, width, height) <==> r.contains(
        s[j],
    )) by {
        if in_grid(s[j].0, width, height) {
            s.lemma_filter_contains(pred, j);
        } else if r.contains(s[j]) {
            let k = choose|k: int| 0 <= k < r.len() && r[k] == s[j];
            s.lemma_filter_pred(pred, k);
        }
    }
    assert forall|e: (Pos, RainEntity)| #[trigger] r.contains(e) implies s.contains(e) by {
        s.lemma_filter_contains_rev(pred, e);
    }
}

} // verus!
