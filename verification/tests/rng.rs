use asynchronix::executor::rng::Rng;

#[test]
fn rng_gen_bounded_chi2() {
    const RNG_SEED: u64 = 12345;
    const DICE_ROLLS: u64 = 1_000_000;
    const DICE_FACES: u64 = 6; // beware: modify the p-values if you change this.
    const CHI2_PVAL_LOWER: f64 = 0.210; // critical chi2 for lower p-value = 0.001 and DoF = DICE_FACES - 1
    const CHI2_PVAL_UPPER: f64 = 20.515; // critical chi2 for upper p-value = 0.999 and DoF = DICE_FACES - 1.

    let mut rng = Rng::new(RNG_SEED);

    let mut tally = [0u64; 6];

    for _ in 0..DICE_ROLLS {
        let face = rng.gen_bounded(DICE_FACES);
        tally[face as usize] += 1;
    }

    let expected = DICE_ROLLS as f64 / DICE_FACES as f64;

    let chi2 = (0..DICE_FACES).fold(0f64, |chi2, face| {
        let actual = tally[face as usize] as f64;

        chi2 + (actual - expected) * (actual - expected) / expected
    });

    println!("tally = {:?}", tally);
    println!("chi2 = {}", chi2);

    assert!(chi2 > CHI2_PVAL_LOWER);
    assert!(chi2 < CHI2_PVAL_UPPER);
}

#[test]
fn rng_first_number_of_a_seed() {
    // The seed advances by a fixed increment; the number is the folded product
    // of the seed and of its scrambled value.
    let seed = 12345u64.wrapping_add(0xa0761d6478bd642f);
    let product = (seed as u128) * ((seed ^ 0xe7037ed1a0b428db) as u128);
    let expected = ((product >> 64) as u64) ^ (product as u64);

    let mut rng = Rng::new(12345);
    assert_eq!(rng.gen(), expected);
}

#[test]
fn rng_bounded_number_is_scaled() {
    let mut a = Rng::new(7);
    let mut b = Rng::new(7);
    for bound in 1..100u64 {
        let number = a.gen();
        let bounded = b.gen_bounded(bound);
        assert_eq!(bounded as u128, ((number as u128) * (bound as u128)) >> 64);
        assert!(bounded < bound);
    }
}
