use cosmic_space::effects::Color;
use cosmic_space::geometry::Vec3;
use cosmic_space::objects::{particle_from_draws, ParticleDraws, SpaceObject, SpaceObjectType, TrailParticle};
use cosmic_space::space::SpaceDefinition;
use cosmic_space::system::{object_from_draws, SpawnDraws};

fn object(velocity: Vec3) -> SpaceObject {
    SpaceObject {
        id: 5,
        object_type: SpaceObjectType::NeonComet,
        position: Vec3::new(0, 0, 50_000),
        velocity,
        acceleration: 999,
        max_speed: 1000,
        rotation: Vec3::new(0, 0, 0),
        size: 10_000,
        target_size: 20_000,
        growth_rate: 2_000,
        scale: 0,
        opacity: 500,
        age: 0,
        max_lifetime: 10_000,
        active: true,
        passed_plane: false,
        distance_traveled_ratio: 0,
        color: Color { r: 100, g: 990, b: 0 },
        exit_x: 0,
        exit_y: 0,
        trail: Vec::new(),
    }
}

#[test]
fn speed_never_exceeds_cap() {
    let space = SpaceDefinition::new(25, 60);
    let mut o = object(Vec3::new(1, 1, 1));
    o.step(1000, &space, 40_000, 500);
    let v = o.velocity;
    let speed2 = (v.x as i128).pow(2) + (v.y as i128).pow(2) + (v.z as i128).pow(2);
    assert!(speed2 <= 1000 * 1000);
    assert!(speed2 > 0);
    assert_eq!(o.age, 1000);
    assert_eq!(o.size, 12_000);
}

#[test]
fn particle_draws_give_exact_particle() {
    let o = object(Vec3::new(1000, -2000, 5000));
    let d = ParticleDraws {
        roll: 10,
        back: 500,
        jx: 100,
        jy: -100,
        jz: 0,
        lifetime: 800,
        cr: -150,
        cg: 50,
        cb: -10,
        share: 200,
    };
    let p: TrailParticle = particle_from_draws(&o, d).expect("roll under chance");
    assert_eq!(p.position, Vec3::new(-100, 200, 49_500));
    assert_eq!(p.velocity, Vec3::new(900, -1700, 4000));
    assert_eq!(p.lifetime, 800);
    assert_eq!(p.max_lifetime, 800);
    assert_eq!(p.fade_factor, 1000);
    assert_eq!(p.size, 2000);
    assert_eq!(p.color, Color { r: 0, g: 1000, b: 0 });
    // chance is 10_000 * 300 / 20_000 = 150
    assert!(particle_from_draws(&o, ParticleDraws { roll: 150, ..d }).is_none());
    assert!(particle_from_draws(&o, ParticleDraws { roll: 149, ..d }).is_some());
}

#[test]
fn spawn_draws_give_exact_object() {
    let space = SpaceDefinition::new(25, 60);
    let d = SpawnDraws {
        start_x: 0,
        start_y: 0,
        exit_x: 0,
        exit_y: 0,
        aim_at_observer: false,
        speed: 30_000,
        delay: 700,
        lifetime: 20_000,
        size: 5_000,
        growth: 3_000,
        acceleration: 6_000,
        rot_x: 1,
        rot_y: 2,
        rot_z: 3,
    };
    let o = object_from_draws(&space, 40_000, SpaceObjectType::PolygonalCrystal, 12, d);
    assert_eq!(o.id, 12);
    assert_eq!(o.object_type, SpaceObjectType::PolygonalCrystal);
    assert_eq!(o.position, Vec3::new(0, 0, 100_000));
    assert_eq!(o.velocity, Vec3::new(0, 0, -30_000));
    assert_eq!(o.age, -700);
    assert_eq!(o.max_lifetime, 20_000);
    assert_eq!(o.max_speed, 75_000);
    assert_eq!(o.size, 0);
    assert_eq!(o.color, Color { r: 200, g: 400, b: 1000 });
    let side = object_from_draws(&space, 40_000, SpaceObjectType::NeonComet, 1, SpawnDraws { exit_x: 93_750, ..d });
    // Heads toward the exit: lateral speed 30_000 * 3/5 = 18_000, depth speed -24_000.
    assert_eq!(side.velocity, Vec3::new(18_000, 0, -24_000));
    let clamped = object_from_draws(&space, 10_000, SpaceObjectType::NeonComet, 1, SpawnDraws { exit_x: 93_750, ..d });
    assert_eq!(clamped.velocity, Vec3::new(10_000, 0, -24_000));
    // Aiming at the observer keeps the exit point but heads for the observer.
    let aimed = object_from_draws(&space, 40_000, SpaceObjectType::NeonComet, 1,
        SpawnDraws { exit_x: 93_750, aim_at_observer: true, ..d });
    assert_eq!(aimed.exit_x, 93_750);
    assert_eq!(aimed.velocity, Vec3::new(0, 0, -30_000));
}

#[test]
fn trail_fade_follows_lifetime() {
    use_trail_fade();
}

fn use_trail_fade() {
    let mut o = object(Vec3::new(0, 0, -20_000));
    o.trail.push(TrailParticle {
        position: Vec3::new(0, 0, 0),
        velocity: Vec3::new(0, 0, 1000),
        lifetime: 1000,
        max_lifetime: 1000,
        size: 10,
        initial_size: 10,
        color: Color { r: 0, g: 0, b: 0 },
        fade_factor: 1000,
    });
    let t = cosmic_space::objects::advance_trail(&o.trail, 250);
    assert_eq!(t.len(), 1);
    assert_eq!(t[0].lifetime, 750);
    assert_eq!(t[0].fade_factor, 750);
    assert_eq!(t[0].position, Vec3::new(0, 0, 250));
    assert!(cosmic_space::objects::advance_trail(&t, 750).is_empty());
}
