use wordle::game::Game;
use wordle::secret::word_of_day;

fn get_seed_random_word(list: &Vec<String>, seed: u64, day: usize) -> String {
    Game::get_seed_random_word(list, seed, day)
}

fn answers() -> Vec<String> {
    [
        "CRANE", "SLATE", "TRACE", "BRACE", "GRAPE", "APPLE", "AMPLE", "ANGLE", "TRUCK", "TRICK",
        "BRICK", "ALLOY", "LLAMA", "EERIE", "SPEAK", "ERASE", "MOLDY", "CARGO", "ACORN", "OCEAN",
    ]
    .iter()
    .map(|w| w.to_string())
    .collect()
}

#[test]
fn the_same_seed_and_day_give_the_same_word() {
    let list = answers();
    let first = get_seed_random_word(&list, 101, 1);
    for _ in 0..10 {
        assert_eq!(get_seed_random_word(&list, 101, 1), first);
    }
    assert_eq!(Game::get_seed_random_word(&list, 101, 1), first);
}

#[test]
fn every_day_has_a_word_of_the_list() {
    let list = answers();
    for day in 1..=list.len() {
        assert!(list.contains(&get_seed_random_word(&list, 101, day)));
    }
}

#[test]
fn the_days_run_through_the_whole_list() {
    let list = answers();
    for seed in [0u64, 1, 101, 20220123, u64::MAX] {
        let mut picked: Vec<String> =
            (1..=list.len()).map(|day| get_seed_random_word(&list, seed, day)).collect();
        picked.sort();
        let mut sorted = list.clone();
        sorted.sort();
        assert_eq!(picked, sorted);
    }
}

#[test]
fn the_seed_shuffles_the_list() {
    let list = answers();
    let picked: Vec<String> =
        (1..=list.len()).map(|day| get_seed_random_word(&list, 101, day)).collect();
    assert_ne!(picked, list);
    let other: Vec<String> =
        (1..=list.len()).map(|day| get_seed_random_word(&list, 102, day)).collect();
    assert_ne!(picked, other);
}

#[test]
fn a_list_of_one_word_has_one_day() {
    let list = vec!["CRANE".to_string()];
    assert_eq!(get_seed_random_word(&list, 7, 1), "CRANE");
}

#[test]
fn the_word_of_a_day_is_the_word_at_its_place_in_the_order() {
    let list = answers();
    let order: Vec<usize> = vec![3, 0, 19, 7];
    assert_eq!(word_of_day(&list, &order, 1), "BRACE");
    assert_eq!(word_of_day(&list, &order, 2), "CRANE");
    assert_eq!(word_of_day(&list, &order, 3), "OCEAN");
    assert_eq!(word_of_day(&list, &order, 4), "ANGLE");
}
