use rainfall::entity::RainEntity;
use rainfall::geometry::{saturating_depth_add, Pos, Velocity};
use rainfall::raster::{depth_shade, rasterize, render_grid};

fn particle(x: i32, y: i32, z: i16, c: char) -> (Pos, RainEntity) {
    (Pos::new(x, y, z), RainEntity { c, velocity: Velocity { x: 0, y: -1, z: 0 } })
}

#[test]
fn deeper_particle_wins_in_either_order() {
    let a = particle(1, 0, 500, 'A');
    let b = particle(1, 0, -20, 'B');
    for es in [vec![a, b], vec![b, a]] {
        let g = rasterize(&es, 3, 1);
        assert_eq!(g, vec![vec![None, Some((500, 'A')), None]]);
    }
}

#[test]
fn equal_depth_keeps_first_drawn() {
    let es = vec![particle(0, 1, 9, 'x'), particle(0, 1, 9, 'y')];
    let g = rasterize(&es, 1, 2);
    assert_eq!(g, vec![vec![None], vec![Some((9, 'x'))]]);
}

#[test]
fn off_grid_particles_are_skipped() {
    let es = vec![particle(-1, 0, 0, 'a'), particle(2, 0, 0, 'b'), particle(0, 5, 0, 'c')];
    assert_eq!(rasterize(&es, 2, 1), vec![vec![None, None]]);
}

#[test]
fn grid_serialises_row_by_row() {
    let g = vec![vec![Some((3, '#')), None], vec![None, Some((-3, '@'))]];
    assert_eq!(render_grid(&g, false), "# \n @\n");
    assert_eq!(render_grid(&Vec::new(), false), "");
}

#[test]
fn shade_spans_the_byte_range() {
    assert_eq!(depth_shade(i16::MIN), 0);
    assert_eq!(depth_shade(i16::MAX), 255);
    assert_eq!(depth_shade(0), 127);
    assert_eq!(depth_shade(-16384), 63);
}

#[test]
fn shade_never_decreases_with_depth() {
    let mut last = depth_shade(i16::MIN);
    let mut z = i16::MIN as i32;
    while z <= i16::MAX as i32 {
        let s = depth_shade(z as i16);
        assert!(s >= last);
        last = s;
        z += 97;
    }
}

#[test]
fn depth_addition_saturates() {
    assert_eq!(saturating_depth_add(1, 2), 3);
    assert_eq!(saturating_depth_add(32000, 5000), i16::MAX);
    assert_eq!(saturating_depth_add(-32000, -5000), i16::MIN);
}

#[test]
fn shift_adds_velocity_with_falling_rows() {
    let mut p = Pos::new(5, 0, 10);
    p.shift(&Velocity { x: -2, y: -3, z: 7 });
    assert_eq!(p, Pos::new(3, 3, 17));
    let mut q = Pos::new(0, 0, 32760);
    q.shift(&Velocity { x: 1, y: -1, z: 5248 });
    assert_eq!(q, Pos::new(1, 1, i16::MAX));
}
