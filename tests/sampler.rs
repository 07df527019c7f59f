use alt_recipes::sampler::{offer_draw, sample_distinct, sample_from_draws};

fn assert_distinct_below(ids: &[usize], n: usize) {
    for (i, a) in ids.iter().enumerate() {
        assert!(*a < n);
        for b in &ids[i + 1..] {
            assert_ne!(a, b);
        }
    }
}

#[test]
fn draws_are_reduced_and_repeats_rejected() {
    let draws = vec![7u32, 2, 12, 9, 4, 3, 0];
    assert_eq!(sample_from_draws(5, 3, &draws), vec![2, 4, 3]);
}

#[test]
fn draws_stop_counting_once_full() {
    let draws = vec![0u32, 1, 2, 3, 4];
    assert_eq!(sample_from_draws(10, 2, &draws), vec![0, 1]);
}

#[test]
fn too_few_distinct_draws_leave_a_short_batch() {
    let draws = vec![5u32, 10, 15, 1];
    assert_eq!(sample_from_draws(5, 3, &draws), vec![0, 1]);
}

#[test]
fn zero_wanted_takes_nothing() {
    assert_eq!(sample_from_draws(4, 0, &vec![1u32, 2, 3]), Vec::<usize>::new());
}

#[test]
fn offer_keeps_a_new_index_only() {
    let mut held = vec![1usize];
    offer_draw(&mut held, 4, 3, 5);
    assert_eq!(held, vec![1]);
    offer_draw(&mut held, 4, 3, 6);
    assert_eq!(held, vec![1, 2]);
    offer_draw(&mut held, 4, 2, 7);
    assert_eq!(held, vec![1, 2]);
}

#[test]
fn random_batches_are_distinct_and_in_range() {
    for k in 1..=5usize {
        let ids = sample_distinct(5, k, 100_000).expect("the draw cap is generous");
        assert_eq!(ids.len(), k);
        assert_distinct_below(&ids, 5);
    }
    let ids = sample_distinct(150, 3, 100_000).unwrap();
    assert_eq!(ids.len(), 3);
    assert_distinct_below(&ids, 150);
}

#[test]
fn no_draws_allowed_gives_none() {
    assert_eq!(sample_distinct(5, 3, 0), None);
}

#[test]
fn whole_catalog_in_one_batch() {
    let ids = sample_distinct(1, 1, 10).unwrap();
    assert_eq!(ids, vec![0]);
}

#[test]
fn five_choose_three_covers_every_combination() {
    let mut counts = std::collections::HashMap::new();
    for _ in 0..1000 {
        let mut ids = sample_distinct(5, 3, 100_000).unwrap();
        assert_eq!(ids.len(), 3);
        assert_distinct_below(&ids, 5);
        ids.sort();
        *counts.entry(ids).or_insert(0u32) += 1;
    }
    assert_eq!(counts.len(), 10);
    let expected = 100.0f64;
    let chi2: f64 = counts
        .values()
        .map(|c| {
            let d = *c as f64 - expected;
            d * d / expected
        })
        .sum();
    // Nine degrees of freedom: 27.9 is the 0.001 tail.
    assert!(chi2 < 27.9, "chi-square {}", chi2);
}
