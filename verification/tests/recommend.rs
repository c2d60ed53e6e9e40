use wordle::ranking::ranking;
use wordle::recommend::{compute_letter_weight, compute_next_guess_grade, recommend};

fn words(list: &[&str]) -> Vec<String> {
    list.iter().map(|w| w.to_string()).collect()
}

fn pool() -> Vec<String> {
    words(&["CRANE", "CRATE", "SLATE", "TRACE", "BRACE"])
}

#[test]
fn the_weight_table_counts_letters_by_place() {
    let table = compute_letter_weight(&pool());
    assert_eq!(table.total, 5);
    assert_eq!(table.counts[0][2], 2); // C first
    assert_eq!(table.counts[0][18], 1); // S first
    assert_eq!(table.counts[0][19], 1); // T first
    assert_eq!(table.counts[0][1], 1); // B first
    assert_eq!(table.counts[1][17], 4); // R second
    assert_eq!(table.counts[1][11], 1); // L second
    assert_eq!(table.counts[2][0], 5); // A third
    assert_eq!(table.counts[3][13], 1); // N fourth
    assert_eq!(table.counts[3][19], 2); // T fourth
    assert_eq!(table.counts[3][2], 2); // C fourth
    assert_eq!(table.counts[4][4], 5); // E last
    for place in 0..5 {
        assert_eq!(table.counts[place].iter().sum::<usize>(), 5);
    }
}

#[test]
fn the_weight_table_of_an_empty_pool_is_all_zero() {
    let table = compute_letter_weight(&Vec::new());
    assert_eq!(table.total, 0);
    for place in 0..5 {
        for letter in 0..26 {
            assert_eq!(table.counts[place][letter], 0);
        }
    }
}

#[test]
fn a_grade_is_the_sum_of_the_counts_of_the_letters() {
    let table = compute_letter_weight(&pool());
    assert_eq!(compute_next_guess_grade("CRANE", &table), 17);
    assert_eq!(compute_next_guess_grade("CRATE", &table), 18);
    assert_eq!(compute_next_guess_grade("SLATE", &table), 14);
    assert_eq!(compute_next_guess_grade("TRACE", &table), 17);
    assert_eq!(compute_next_guess_grade("BRACE", &table), 17);
    // A word from outside the pool is graded against the same table.
    assert_eq!(compute_next_guess_grade("MOLDY", &table), 0);
    assert_eq!(compute_next_guess_grade("GRAPE", &table), 14);
}

#[test]
fn recommend_sorts_by_score_and_keeps_the_order_of_ties() {
    assert_eq!(
        recommend(&pool(), 5),
        words(&["CRATE", "CRANE", "TRACE", "BRACE", "SLATE"])
    );
}

#[test]
fn recommend_returns_no_more_than_asked_for() {
    assert_eq!(recommend(&pool(), 3), words(&["CRATE", "CRANE", "TRACE"]));
    assert_eq!(recommend(&pool(), 1), words(&["CRATE"]));
    assert!(recommend(&pool(), 0).is_empty());
}

#[test]
fn recommend_returns_the_whole_pool_where_it_is_short() {
    assert_eq!(recommend(&pool(), 10).len(), 5);
    assert_eq!(recommend(&words(&["CRANE", "BRACE"]), 5), words(&["CRANE", "BRACE"]));
    assert!(recommend(&Vec::new(), 5).is_empty());
}

#[test]
fn recommend_returns_members_of_the_pool_by_falling_score() {
    let pool = words(&[
        "ALLOY", "LLAMA", "CRANE", "SLATE", "EERIE", "TRUCK", "TRICK", "BRICK", "GRAPE", "APPLE",
        "AMPLE", "ANGLE",
    ]);
    let table = compute_letter_weight(&pool);
    for n in 0..15 {
        let picks = recommend(&pool, n);
        assert_eq!(picks.len(), n.min(pool.len()));
        for pick in &picks {
            assert!(pool.contains(pick));
        }
        for pair in picks.windows(2) {
            assert!(
                compute_next_guess_grade(&pair[0], &table)
                    >= compute_next_guess_grade(&pair[1], &table)
            );
        }
    }
}

#[test]
fn ranking_puts_the_heaviest_first() {
    assert_eq!(ranking(&vec![17, 18, 14, 17, 17]), vec![1, 0, 3, 4, 2]);
    assert_eq!(ranking(&vec![1, 2, 3]), vec![2, 1, 0]);
    assert_eq!(ranking(&vec![3, 2, 1]), vec![0, 1, 2]);
}

#[test]
fn ranking_keeps_equal_weights_in_order() {
    assert_eq!(ranking(&vec![5, 5, 5, 5]), vec![0, 1, 2, 3]);
    assert_eq!(ranking(&vec![0, 7, 0, 7]), vec![1, 3, 0, 2]);
}

#[test]
fn ranking_of_nothing_is_empty() {
    assert!(ranking(&Vec::new()).is_empty());
    assert_eq!(ranking(&vec![u128::MAX]), vec![0]);
}

#[test]
fn ranking_sorts_long_lists() {
    let weights: Vec<u128> = (0..5000u128).map(|i| (i * 7919) % 1000).collect();
    let order = ranking(&weights);
    assert_eq!(order.len(), weights.len());
    let mut seen = vec![false; weights.len()];
    for place in &order {
        assert!(!seen[*place]);
        seen[*place] = true;
    }
    for pair in order.windows(2) {
        let (a, b) = (pair[0], pair[1]);
        assert!(weights[a] > weights[b] || (weights[a] == weights[b] && a < b));
    }
}
