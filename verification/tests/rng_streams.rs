use hekate_sim::rng::{
    derive_seed, derive_stream, fnv1a, splitmix64, uniform01_numerator, STREAM_COMPLIANCE,
    STREAM_DEMAND, STREAM_MANEUVER, STREAM_PEDESTRIAN_DEMAND, STREAM_PROFILE,
};
use rand_chacha::rand_core::Rng;

/// A uniform value in `[0, 1)` from a stream's next 53-bit numerator.
fn uniform01(rng: &mut rand_chacha::ChaCha20Rng) -> f64 {
    uniform01_numerator(rng) as f64 * (1.0 / (1u64 << 53) as f64)
}

fn draw(root: u64, name: &str, id: u32) -> u64 {
    let mut rng = derive_stream(root, name, id);
    rng.next_u64()
}

#[test]
fn same_inputs_reproduce_a_stream() {
    let mut first = derive_stream(42, STREAM_DEMAND, 0);
    let mut second = derive_stream(42, STREAM_DEMAND, 0);
    for _ in 0..16 {
        assert_eq!(first.next_u64(), second.next_u64());
    }
}

#[test]
fn named_streams_and_identifiers_are_independent() {
    assert_ne!(draw(42, STREAM_DEMAND, 0), draw(42, STREAM_PROFILE, 0));
    assert_ne!(draw(42, STREAM_DEMAND, 0), draw(42, STREAM_DEMAND, 1));
    assert_ne!(draw(42, STREAM_DEMAND, 0), draw(43, STREAM_DEMAND, 0));
    assert_ne!(draw(42, STREAM_COMPLIANCE, 0), draw(42, STREAM_PROFILE, 0));
}

#[test]
fn maneuver_stream_is_independent_of_the_other_named_streams() {
    let maneuver = draw(42, STREAM_MANEUVER, 0);
    for name in [
        STREAM_DEMAND,
        STREAM_PEDESTRIAN_DEMAND,
        STREAM_PROFILE,
        STREAM_COMPLIANCE,
    ] {
        assert_ne!(maneuver, draw(42, name, 0), "{name}");
    }
}

#[test]
fn pedestrian_streams_are_independent_of_vehicle_streams() {
    assert_ne!(
        draw(42, STREAM_PEDESTRIAN_DEMAND, 0),
        draw(42, STREAM_DEMAND, 0)
    );
    assert_ne!(
        draw(42, STREAM_PEDESTRIAN_DEMAND, 0),
        draw(42, STREAM_PROFILE, 0)
    );
    assert_ne!(
        draw(42, STREAM_PEDESTRIAN_DEMAND, 0),
        draw(42, STREAM_PEDESTRIAN_DEMAND, 1)
    );
}

fn vehicle_streams(root: u64, id: u32, pedestrian_draws: usize) -> Vec<Vec<u64>> {
    let mut pedestrian = derive_stream(root, STREAM_PEDESTRIAN_DEMAND, id);
    for _ in 0..pedestrian_draws {
        let _ = uniform01(&mut pedestrian);
    }
    [STREAM_DEMAND, STREAM_PROFILE, STREAM_COMPLIANCE]
        .into_iter()
        .map(|name| {
            let mut rng = derive_stream(root, name, id);
            (0..8).map(|_| rng.next_u64()).collect()
        })
        .collect()
}

#[test]
fn extra_pedestrian_draws_do_not_perturb_vehicle_streams() {
    assert_eq!(vehicle_streams(23, 2, 0), vehicle_streams(23, 2, 7));
}

fn streams_beside_compliance(
    root: u64,
    vehicle_id: u32,
    pedestrian_id: u32,
    pedestrian_draws: usize,
) -> (Vec<u64>, Vec<u64>, Vec<u64>) {
    let mut pedestrian = derive_stream(root, STREAM_COMPLIANCE, pedestrian_id);
    for _ in 0..pedestrian_draws {
        let _ = uniform01(&mut pedestrian);
    }
    let sequence = |name: &str| {
        let mut rng = derive_stream(root, name, vehicle_id);
        (0..8).map(|_| rng.next_u64()).collect()
    };
    (
        sequence(STREAM_DEMAND),
        sequence(STREAM_PROFILE),
        sequence(STREAM_COMPLIANCE),
    )
}

#[test]
fn pedestrian_compliance_draws_do_not_perturb_other_streams() {
    assert_eq!(
        streams_beside_compliance(31, 1, 2, 0),
        streams_beside_compliance(31, 1, 2, 4)
    );
}

fn demand_and_profile(root: u64, id: u32, compliance_draws: usize) -> (Vec<u64>, Vec<u64>) {
    let mut demand = derive_stream(root, STREAM_DEMAND, id);
    let demand_values = (0..8).map(|_| demand.next_u64()).collect();

    let mut compliance = derive_stream(root, STREAM_COMPLIANCE, id);
    for _ in 0..compliance_draws {
        let _ = uniform01(&mut compliance);
    }

    let mut profile = derive_stream(root, STREAM_PROFILE, id);
    let profile_values = (0..8).map(|_| profile.next_u64()).collect();
    (demand_values, profile_values)
}

#[test]
fn an_extra_compliance_draw_does_not_perturb_demand_or_profile() {
    assert_eq!(demand_and_profile(17, 3, 0), demand_and_profile(17, 3, 5));
}

#[test]
fn uniform_values_stay_in_the_unit_interval() {
    let mut rng = derive_stream(7, STREAM_PROFILE, 3);
    for _ in 0..1000 {
        let value = uniform01(&mut rng);
        assert!((0.0..1.0).contains(&value));
    }
}

#[test]
fn fnv1a_matches_the_published_offset_and_vectors() {
    // The empty string hashes to the offset basis; "a" is the published
    // FNV-1a 64 test vector.
    assert_eq!(fnv1a(""), 0xcbf2_9ce4_8422_2325);
    assert_eq!(fnv1a("a"), 0xaf63_dc4c_8601_ec8c);
}

#[test]
fn splitmix64_matches_the_reference_finalizer() {
    // SplitMix64 seeded with 0 yields 0xe220a8397b1dcdaf as its first output.
    assert_eq!(splitmix64(0), 0xe220_a839_7b1d_cdaf);
}

#[test]
fn derive_seed_mixes_the_name_the_root_and_the_identifier() {
    let expected = splitmix64(fnv1a(STREAM_DEMAND) ^ 42 ^ 3u64.wrapping_mul(0x9e37_79b9_7f4a_7c15));
    assert_eq!(derive_seed(42, STREAM_DEMAND, 3), expected);
    assert_ne!(derive_seed(42, STREAM_DEMAND, 3), derive_seed(42, STREAM_DEMAND, 4));
}

#[test]
fn a_drawn_word_advances_the_stream() {
    // Drawing from a derived stream yields its first word and moves past it,
    // so two successive numerators come from two different words.
    let mut reference = derive_stream(5, STREAM_PROFILE, 1);
    let first_word = reference.next_u64();
    let second_word = reference.next_u64();
    let mut rng = derive_stream(5, STREAM_PROFILE, 1);
    assert_eq!(uniform01_numerator(&mut rng), first_word >> 11);
    assert_eq!(uniform01_numerator(&mut rng), second_word >> 11);
    assert!(uniform01_numerator(&mut rng) < 1u64 << 53);
}
