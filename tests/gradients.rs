use hypr_island::{ConfigError, GradientCache, Rgba};

fn magenta() -> Rgba {
    Rgba::from_rgb(255, 0, 255)
}

fn cyan() -> Rgba {
    Rgba::from_rgb(0, 255, 255)
}

#[test]
fn too_few_steps_is_refused() {
    assert_eq!(GradientCache::new(0).err(), Some(ConfigError::TooFewSteps));
    assert_eq!(GradientCache::new(1).err(), Some(ConfigError::TooFewSteps));
    assert!(GradientCache::new(2).is_ok());
}

#[test]
fn gradient_is_cached_and_repeatable() {
    let mut cache = GradientCache::new(20).unwrap();
    let first = cache.get_or_create_gradient(magenta(), cyan());
    assert_eq!(cache.len(), 1);
    let second = cache.get_or_create_gradient(magenta(), cyan());
    assert_eq!(first, second);
    assert_eq!(cache.len(), 1);
    assert!(cache.contains(magenta(), cyan()));
    assert!(!cache.contains(cyan(), magenta()));
}

#[test]
fn reversed_pair_is_a_separate_entry() {
    let mut cache = GradientCache::new(20).unwrap();
    let forward = cache.get_or_create_gradient(magenta(), cyan());
    let backward = cache.get_or_create_gradient(cyan(), magenta());
    assert_ne!(forward, backward);
    assert_eq!(backward[0], cyan());
    assert_eq!(backward[19], magenta());
    assert_eq!(cache.len(), 2);
    assert!(cache.contains(cyan(), magenta()));
}

#[test]
fn gradient_endpoints_are_exact() {
    let mut cache = GradientCache::new(20).unwrap();
    let g = cache.get_or_create_gradient(magenta(), cyan());
    assert_eq!(g.len(), 20);
    assert_eq!(g[0], magenta());
    assert_eq!(g[19], cyan());
    let mut two = GradientCache::new(2).unwrap();
    let top = Rgba::from_rgb(1, 2, 3);
    let bottom = Rgba::from_rgb(250, 128, 7);
    assert_eq!(two.get_or_create_gradient(top, bottom), vec![top, bottom]);
}

#[test]
fn gradient_values_round_to_nearest() {
    let mut cache = GradientCache::new(20).unwrap();
    let g = cache.get_or_create_gradient(magenta(), cyan());
    // Step 1: 255 * 18 / 19 = 241.58 and 255 / 19 = 13.42.
    assert_eq!(g[1], Rgba::from_rgb(242, 13, 255));
    // Step 10: 255 * 9 / 19 = 120.79 and 255 * 10 / 19 = 134.21.
    assert_eq!(g[10], Rgba::from_rgb(121, 134, 255));
    let mut three = GradientCache::new(3).unwrap();
    let mid = three.get_or_create_gradient(Rgba::from_rgb(0, 0, 0), Rgba::from_rgb(1, 3, 255));
    // Halves round up: 0.5, 1.5, 127.5.
    assert_eq!(mid[1], Rgba::from_rgb(1, 2, 128));
}

#[test]
fn gradient_is_opaque() {
    let mut cache = GradientCache::new(4).unwrap();
    let top = Rgba { r: 10, g: 20, b: 30, a: 0 };
    let bottom = Rgba { r: 40, g: 50, b: 60, a: 7 };
    let g = cache.get_or_create_gradient(top, bottom);
    assert!(g.iter().all(|c| c.a == 255));
    assert_eq!(g[0], Rgba::from_rgb(10, 20, 30));
    assert_eq!(g[3], Rgba::from_rgb(40, 50, 60));
}

#[test]
fn alpha_is_part_of_the_key() {
    let mut cache = GradientCache::new(4).unwrap();
    let clear = Rgba { r: 255, g: 0, b: 255, a: 0 };
    cache.get_or_create_gradient(magenta(), cyan());
    assert!(!cache.contains(clear, cyan()));
    cache.get_or_create_gradient(clear, cyan());
    assert_eq!(cache.len(), 2);
}
