use rainfall::entity::{glyph_palette, RainEntity};
use rainfall::geometry::{Pos, Velocity};
use rainfall::world::{Opts, RainMap, SpawnDepth, WorldError, SCATTER_MAX, SCATTER_MIN};

fn opts(rate: u8, no_color: bool, depth: SpawnDepth) -> Opts {
    Opts { no_color, spawn_rate: rate, update_rate: 50, spawn_depth: depth }
}

fn generated(e: &RainEntity) -> bool {
    glyph_palette().contains(&e.c)
        && (-3..=3).contains(&e.velocity.x)
        && (-3..=-1).contains(&e.velocity.y)
        && (-5248..=5248).contains(&e.velocity.z)
}

#[test]
fn create_rejects_zero_dimension() {
    assert_eq!(RainMap::new(0, 5).err(), Some(WorldError::InvalidDimension));
    assert_eq!(RainMap::new(5, 0).err(), Some(WorldError::InvalidDimension));
    let m = RainMap::new(5, 5).unwrap();
    assert_eq!(m.width(), 5);
    assert_eq!(m.height(), 5);
    assert!(m.entities().is_empty());
}

#[test]
fn failed_resize_leaves_world_unchanged() {
    let mut m = RainMap::new(5, 5).unwrap();
    m.hydrate(&opts(100, true, SpawnDepth::Scattered));
    let before = m.entities().clone();
    assert_eq!(m.resize(0, 5), Err(WorldError::InvalidDimension));
    assert_eq!(m.resize(5, 0), Err(WorldError::InvalidDimension));
    assert_eq!(m.entities(), &before);
    assert_eq!((m.width(), m.height()), (5, 5));
}

#[test]
fn full_rate_spawns_one_per_column() {
    let mut m = RainMap::new(10, 5).unwrap();
    m.hydrate(&opts(100, true, SpawnDepth::Scattered));
    let es = m.entities();
    assert_eq!(es.len(), 10);
    for (k, (p, e)) in es.iter().enumerate() {
        assert_eq!(p.x, k as i32);
        assert_eq!(p.y, 0);
        assert!(p.z >= SCATTER_MIN && p.z <= SCATTER_MAX);
        assert!(generated(e));
    }
}

#[test]
fn zero_rate_spawns_nothing() {
    let mut m = RainMap::new(10, 5).unwrap();
    m.hydrate(&opts(0, true, SpawnDepth::Scattered));
    assert!(m.entities().is_empty());
}

#[test]
fn level_spawn_starts_at_depth_zero() {
    let mut m = RainMap::new(8, 3).unwrap();
    m.hydrate(&opts(100, true, SpawnDepth::Level));
    assert_eq!(m.entities().len(), 8);
    assert!(m.entities().iter().all(|(p, _)| p.z == 0));
}

#[test]
fn spawns_append_after_existing_particles() {
    let mut m = RainMap::new(6, 4).unwrap();
    m.hydrate(&opts(100, true, SpawnDepth::Scattered));
    let first = m.entities().clone();
    m.hydrate(&opts(100, true, SpawnDepth::Scattered));
    assert_eq!(m.entities().len(), 12);
    assert_eq!(&m.entities()[..6], &first[..]);
}

#[test]
fn one_tick_moves_each_particle_by_its_velocity() {
    let mut m = RainMap::new(10, 5).unwrap();
    m.hydrate(&opts(100, true, SpawnDepth::Scattered));
    let before = m.entities().clone();
    m.update();
    let expected: Vec<(Pos, RainEntity)> = before
        .iter()
        .filter_map(|(p, e)| {
            let x = p.x + e.velocity.x;
            let y = p.y - e.velocity.y;
            let z = (p.z as i32 + e.velocity.z as i32).clamp(i16::MIN as i32, i16::MAX as i32) as i16;
            if (0..10).contains(&x) && (0..5).contains(&y) {
                Some((Pos { x, y, z }, *e))
            } else {
                None
            }
        })
        .collect();
    assert_eq!(m.entities(), &expected);
    for (p, e) in m.entities() {
        assert_eq!(p.y, -e.velocity.y);
        assert!(p.y >= 1 && p.y <= 3);
        assert!(p.x >= 0 && p.x < 10);
    }
}

#[test]
fn every_particle_leaves_within_height_ticks() {
    let mut m = RainMap::new(10, 5).unwrap();
    m.hydrate(&opts(100, true, SpawnDepth::Scattered));
    for _ in 0..5 {
        m.update();
        for (p, _) in m.entities() {
            assert!(p.x >= 0 && p.x < 10 && p.y >= 0 && p.y < 5);
        }
    }
    assert!(m.entities().is_empty());
}

#[test]
fn shrinking_keeps_exactly_the_particles_inside() {
    let mut m = RainMap::new(10, 5).unwrap();
    m.hydrate(&opts(100, true, SpawnDepth::Scattered));
    m.update();
    let before = m.entities().clone();
    assert_eq!(m.resize(4, 2), Ok(()));
    let expected: Vec<(Pos, RainEntity)> =
        before.iter().copied().filter(|(p, _)| p.x < 4 && p.y < 2).collect();
    assert_eq!(m.entities(), &expected);
    assert_eq!((m.width(), m.height()), (4, 2));
}

#[test]
fn growing_keeps_every_particle() {
    let mut m = RainMap::new(10, 5).unwrap();
    m.hydrate(&opts(100, true, SpawnDepth::Scattered));
    let before = m.entities().clone();
    assert_eq!(m.resize(20, 30), Ok(()));
    assert_eq!(m.entities(), &before);
}

#[test]
fn contains_checks_both_axes() {
    let m = RainMap::new(3, 2).unwrap();
    assert!(m.contains(&Pos::new(0, 0, 7)));
    assert!(m.contains(&Pos::new(2, 1, -7)));
    assert!(!m.contains(&Pos::new(3, 0, 0)));
    assert!(!m.contains(&Pos::new(0, 2, 0)));
    assert!(!m.contains(&Pos::new(-1, 0, 0)));
}

#[test]
fn plain_render_shows_glyphs_and_spaces() {
    let mut m = RainMap::new(3, 2).unwrap();
    m.hydrate(&opts(100, true, SpawnDepth::Scattered));
    let glyphs: String = m.entities().iter().map(|(_, e)| e.c).collect();
    let frame = m.render(&opts(1, true, SpawnDepth::Scattered));
    assert_eq!(frame, format!("{glyphs}\n   \n"));
}

#[test]
fn render_twice_is_identical() {
    let mut m = RainMap::new(12, 6).unwrap();
    m.hydrate(&opts(100, true, SpawnDepth::Scattered));
    m.update();
    m.hydrate(&opts(50, true, SpawnDepth::Scattered));
    let plain = opts(1, true, SpawnDepth::Scattered);
    assert_eq!(m.render(&plain), m.render(&plain));
    let colored = opts(1, false, SpawnDepth::Scattered);
    assert_eq!(m.render(&colored), m.render(&colored));
}

#[test]
fn colored_render_wraps_glyphs_in_escape_codes() {
    colored::control::set_override(true);
    let mut m = RainMap::new(2, 1).unwrap();
    m.hydrate(&opts(100, true, SpawnDepth::Level));
    let es = m.entities().clone();
    let frame = m.render(&opts(1, false, SpawnDepth::Level));
    // depth 0 shades to blue 127, green 63; without true-colour support the
    // nearest basic colour is used instead
    let wrapped = |c: char, code: &str| format!("\x1b[{code}m{c}\x1b[0m");
    let row = |code: &str| format!("{}{}\n", wrapped(es[0].1.c, code), wrapped(es[1].1.c, code));
    assert!(frame == row("38;2;0;63;127") || frame == row("34"), "{frame:?}");
}

#[test]
fn velocity_and_entity_are_drawn_in_range() {
    for _ in 0..200 {
        let v = Velocity::new();
        assert!((-3..=3).contains(&v.x) && (-3..=-1).contains(&v.y));
        assert!((-5248..=5248).contains(&v.z));
        assert!(generated(&RainEntity::new()));
    }
}
