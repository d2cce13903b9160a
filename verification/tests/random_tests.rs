use chip8rtic::random::Random;

#[test]
fn seeded_sequence() {
    let mut random = Random::new();
    let outputs: Vec<u32> = (0..6).map(|_| random.rand()).collect();
    assert_eq!(outputs, vec![0, 210066564, 1160386676, 309281181, 2968221517, 3649497734]);
}

#[test]
fn range_is_output_modulo_255() {
    let mut random = Random::new();
    let outputs: Vec<u8> = (0..6).map(|_| random.range()).collect();
    assert_eq!(outputs, vec![0, 114, 251, 96, 97, 209]);
}

#[test]
fn range_stays_below_255() {
    let mut random = Random::new();
    for _ in 0..10_000 {
        assert!(random.range() < 255);
    }
}

#[test]
fn two_generators_agree() {
    let mut a = Random::new();
    let mut b = Random::new();
    for _ in 0..100 {
        assert_eq!(a.rand(), b.rand());
    }
}
