use plinko::prp::SwapOrNot;

#[test]
fn test_swap_or_not_inverse() {
    let key = [0u8; 16];
    let domain = 1000u64;
    let prp = SwapOrNot::new(key, domain);

    for x in 0..100 {
        let y = prp.forward(x);
        let x_recovered = prp.inverse(y);
        assert_eq!(x, x_recovered, "PRP inverse failed for x={}", x);
    }
}

#[test]
fn test_swap_or_not_is_permutation() {
    let key = [1u8; 16];
    let domain = 100u64;
    let prp = SwapOrNot::new(key, domain);

    let mut outputs: Vec<u64> = (0..domain).map(|x| prp.forward(x)).collect();
    outputs.sort();
    outputs.dedup();
    assert_eq!(outputs.len(), domain as usize, "PRP is not a permutation");
}

#[test]
fn round_count_is_six_per_bit_plus_six() {
    assert_eq!(SwapOrNot::new([0u8; 16], 0).num_rounds(), 6);
    assert_eq!(SwapOrNot::new([0u8; 16], 1).num_rounds(), 6);
    assert_eq!(SwapOrNot::new([0u8; 16], 2).num_rounds(), 12);
    assert_eq!(SwapOrNot::new([0u8; 16], 16).num_rounds(), 30);
    assert_eq!(SwapOrNot::new([0u8; 16], 17).num_rounds(), 36);
    assert_eq!(SwapOrNot::new([0u8; 16], 100).num_rounds(), 48);
    assert_eq!(SwapOrNot::new([0u8; 16], 1000).num_rounds(), 66);
    assert_eq!(SwapOrNot::new([0u8; 16], 1024).num_rounds(), 66);
    assert_eq!(SwapOrNot::new([0u8; 16], 65537).num_rounds(), 108);
    assert_eq!(SwapOrNot::new([0u8; 16], (1 << 53) + 1).num_rounds(), 330);
    assert_eq!(SwapOrNot::new([0u8; 16], u64::MAX).num_rounds(), 390);
    assert_eq!(SwapOrNot::new([0u8; 16], 1000).domain(), 1000);
}

#[test]
fn permutation_known_answers() {
    let prp = SwapOrNot::new([0u8; 16], 1000);
    let images: Vec<u64> = (0..5).map(|x| prp.forward(x)).collect();
    assert_eq!(images, vec![82, 636, 765, 656, 627]);
    let preimages: Vec<u64> = (0..5).map(|y| prp.inverse(y)).collect();
    assert_eq!(preimages, vec![196, 81, 269, 84, 910]);
    // round 0 has the key 875, pairs 7 with 868, and swaps the pair
    assert_eq!(prp.round(0, 7), 868);
    assert_eq!(prp.round(0, 868), 7);

    let prp = SwapOrNot::new([1u8; 16], 100);
    let images: Vec<u64> = (0..5).map(|x| prp.forward(x)).collect();
    assert_eq!(images, vec![57, 88, 97, 36, 16]);
}

#[test]
fn every_round_is_an_involution() {
    let prp = SwapOrNot::new([7u8; 16], 37);
    for round in 0..prp.num_rounds() {
        for x in 0..37 {
            let y = prp.round(round, x);
            assert!(y < 37);
            assert_eq!(prp.round(round, y), x);
        }
    }
}

fn is_bijection(key: [u8; 16], domain: u64) -> bool {
    let prp = SwapOrNot::new(key, domain);
    let mut seen = vec![false; domain as usize];
    for x in 0..domain {
        let y = prp.forward(x);
        if y >= domain || seen[y as usize] || prp.inverse(y) != x {
            return false;
        }
        seen[y as usize] = true;
    }
    seen.into_iter().all(|hit| hit)
}

#[test]
fn permutation_is_a_bijection_on_small_domains() {
    assert!(is_bijection([3u8; 16], 1));
    assert!(is_bijection([3u8; 16], 2));
    assert!(is_bijection([3u8; 16], 16));
    assert!(is_bijection([3u8; 16], 100));
    assert!(is_bijection([0u8; 16], 1000));
    assert!(is_bijection([3u8; 16], 1024));
}

#[test]
fn permutation_inverts_on_a_large_domain() {
    let prp = SwapOrNot::new([3u8; 16], 65537);
    for x in (0..65537u64).step_by(331) {
        let y = prp.forward(x);
        assert!(y < 65537);
        assert_eq!(prp.inverse(y), x);
        assert_eq!(prp.forward(prp.inverse(x)), x);
    }
}

#[test]
fn permutation_works_at_the_top_of_the_range() {
    let prp = SwapOrNot::new([9u8; 16], u64::MAX);
    for x in [0u64, 1, u64::MAX / 2, u64::MAX - 2, u64::MAX - 1] {
        let y = prp.forward(x);
        assert!(y < u64::MAX);
        assert_eq!(prp.inverse(y), x);
    }
}
