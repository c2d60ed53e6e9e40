use wordle::game::Game;
use wordle::stats::{copy_words, GameRecord, GameState, StateFile, Stats};

fn words(list: &[&str]) -> Vec<String> {
    list.iter().map(|w| w.to_string()).collect()
}

fn played(answer: &str, guesses: &[&str]) -> Game {
    let mut game = Game::new(answer.to_string(), false, Vec::new(), Vec::new());
    for guess in guesses {
        game.play(guess);
        game.is_game_over(guess);
    }
    game
}

fn record(stats: &mut Stats, answer: &str, guesses: &[&str]) {
    let game = played(answer, guesses);
    assert!(stats.has_room(game.guesses.len(), game.is_win));
    stats.update(&game.guesses, game.answer.clone(), game.is_win);
}

fn listed(stats: &Stats) -> Vec<(String, usize)> {
    stats.get_frequent_words()
}

fn pair(word: &str, count: usize) -> (String, usize) {
    (word.to_string(), count)
}

fn game_record(answer: &str, guesses: &[&str]) -> GameRecord {
    GameRecord { answer: answer.to_string(), guesses: words(guesses) }
}

#[test]
fn new_stats_are_empty() {
    let stats = Stats::new();
    assert_eq!(stats.get_wins(), 0);
    assert_eq!(stats.get_fails(), 0);
    assert_eq!(stats.get_total_tries(), 0);
    assert!(stats.get_frequent_words().is_empty());
    let state = stats.save();
    assert_eq!(state.total_rounds, Some(0));
    assert!(state.games.unwrap().is_empty());
}

#[test]
fn a_win_counts_its_guesses() {
    let mut stats = Stats::new();
    record(&mut stats, "BRACE", &["CRANE", "SLATE", "BRACE"]);
    assert_eq!(stats.get_wins(), 1);
    assert_eq!(stats.get_fails(), 0);
    assert_eq!(stats.get_total_tries(), 3);
}

#[test]
fn a_loss_counts_no_guesses() {
    let mut stats = Stats::new();
    record(&mut stats, "GRAPE", &["CRANE", "TRACE"]);
    assert_eq!(stats.get_wins(), 0);
    assert_eq!(stats.get_fails(), 1);
    assert_eq!(stats.get_total_tries(), 0);
}

#[test]
fn frequent_words_come_by_count_and_then_by_alphabet() {
    let mut stats = Stats::new();
    record(&mut stats, "BRACE", &["CRANE", "SLATE", "BRACE"]);
    record(&mut stats, "GRAPE", &["CRANE", "TRACE"]);
    assert_eq!(
        listed(&stats),
        vec![pair("CRANE", 2), pair("BRACE", 1), pair("SLATE", 1), pair("TRACE", 1)]
    );
    record(&mut stats, "TRACE", &["TRACE", "TRACE", "SLATE"]);
    assert_eq!(
        listed(&stats),
        vec![pair("TRACE", 3), pair("CRANE", 2), pair("SLATE", 2), pair("BRACE", 1)]
    );
}

#[test]
fn a_word_guessed_twice_in_a_round_counts_twice() {
    let mut stats = Stats::new();
    record(&mut stats, "SLATE", &["CRANE", "CRANE", "CRANE"]);
    assert_eq!(listed(&stats), vec![pair("CRANE", 3)]);
}

#[test]
fn a_round_without_a_guess_is_recorded() {
    let mut stats = Stats::new();
    stats.update(&Vec::new(), "SLATE".to_string(), false);
    assert_eq!(stats.get_fails(), 1);
    assert!(stats.get_frequent_words().is_empty());
    assert_eq!(stats.save().total_rounds, Some(1));
}

#[test]
fn save_lists_the_rounds_in_order() {
    let mut stats = Stats::new();
    record(&mut stats, "BRACE", &["CRANE", "SLATE", "BRACE"]);
    record(&mut stats, "GRAPE", &["CRANE", "TRACE"]);
    let state = stats.save();
    assert_eq!(state.total_rounds, Some(2));
    let games = state.games.unwrap();
    assert_eq!(games.len(), 2);
    assert_eq!(games[0].answer, "BRACE");
    assert_eq!(games[0].guesses, words(&["CRANE", "SLATE", "BRACE"]));
    assert_eq!(games[1].answer, "GRAPE");
    assert_eq!(games[1].guesses, words(&["CRANE", "TRACE"]));
}

#[test]
fn without_a_state_path_nothing_is_loaded() {
    let state = GameState {
        total_rounds: Some(1),
        games: Some(vec![game_record("BRACE", &["BRACE"])]),
    };
    let stats = Stats::load(&None, StateFile::Parsed(state)).unwrap();
    assert_eq!(stats.get_wins(), 0);
    assert_eq!(stats.save().total_rounds, Some(0));
    assert!(Stats::load(&None, StateFile::Invalid).is_some());
    assert!(Stats::load(&None, StateFile::Missing).is_some());
}

#[test]
fn a_missing_state_file_starts_an_empty_state() {
    let path = Some("state.json".to_string());
    let stats = Stats::load(&path, StateFile::Missing).unwrap();
    assert_eq!(stats.get_wins(), 0);
    assert_eq!(stats.get_fails(), 0);
    assert!(stats.get_frequent_words().is_empty());
}

#[test]
fn an_invalid_state_file_loads_nothing() {
    let path = Some("state.json".to_string());
    assert!(Stats::load(&path, StateFile::Invalid).is_none());
}

#[test]
fn a_state_file_without_rounds_starts_an_empty_state() {
    let path = Some("state.json".to_string());
    let state = GameState { total_rounds: None, games: None };
    let stats = Stats::load(&path, StateFile::Parsed(state)).unwrap();
    assert_eq!(stats.get_wins() + stats.get_fails(), 0);
    let state = GameState { total_rounds: Some(9), games: Some(Vec::new()) };
    let stats = Stats::load(&path, StateFile::Parsed(state)).unwrap();
    assert_eq!(stats.get_wins() + stats.get_fails(), 0);
}

#[test]
fn loaded_rounds_are_won_when_the_last_guess_is_the_secret() {
    let path = Some("state.json".to_string());
    let state = GameState {
        total_rounds: Some(3),
        games: Some(vec![
            game_record("BRACE", &["CRANE", "SLATE", "BRACE"]),
            game_record("GRAPE", &["CRANE", "TRACE"]),
            game_record("CRANE", &["CRANE"]),
        ]),
    };
    let stats = Stats::load(&path, StateFile::Parsed(state)).unwrap();
    assert_eq!(stats.get_wins(), 2);
    assert_eq!(stats.get_fails(), 1);
    assert_eq!(stats.get_total_tries(), 4);
    assert_eq!(
        listed(&stats),
        vec![pair("CRANE", 3), pair("BRACE", 1), pair("SLATE", 1), pair("TRACE", 1)]
    );
    let saved = stats.save();
    assert_eq!(saved.total_rounds, Some(3));
    assert_eq!(saved.games.unwrap().len(), 3);
}

#[test]
fn a_loaded_round_without_a_guess_loads_nothing() {
    let path = Some("state.json".to_string());
    let state = GameState {
        total_rounds: Some(2),
        games: Some(vec![game_record("BRACE", &["BRACE"]), game_record("GRAPE", &[])]),
    };
    assert!(Stats::load(&path, StateFile::Parsed(state)).is_none());
}

#[test]
fn loaded_words_need_not_be_words_of_the_game() {
    let path = Some("state.json".to_string());
    let state = GameState {
        total_rounds: None,
        games: Some(vec![game_record("b", &["zeta", "alpha", "b"]), game_record("", &["alpha"])]),
    };
    let stats = Stats::load(&path, StateFile::Parsed(state)).unwrap();
    assert_eq!(stats.get_wins(), 1);
    assert_eq!(stats.get_fails(), 1);
    assert_eq!(listed(&stats), vec![pair("alpha", 2), pair("b", 1), pair("zeta", 1)]);
}

#[test]
fn updates_go_on_after_a_load() {
    let path = Some("state.json".to_string());
    let state = GameState {
        total_rounds: Some(1),
        games: Some(vec![game_record("BRACE", &["CRANE", "BRACE"])]),
    };
    let mut stats = Stats::load(&path, StateFile::Parsed(state)).unwrap();
    record(&mut stats, "SLATE", &["CRANE", "SLATE"]);
    assert_eq!(stats.get_wins(), 2);
    assert_eq!(stats.get_total_tries(), 4);
    assert_eq!(listed(&stats), vec![pair("CRANE", 2), pair("BRACE", 1), pair("SLATE", 1)]);
    assert_eq!(stats.save().total_rounds, Some(2));
}

#[test]
fn the_counters_have_room_for_ordinary_rounds() {
    let stats = Stats::new();
    assert!(stats.has_room(6, true));
    assert!(stats.has_room(6, false));
    assert!(stats.has_room(i32::MAX as usize, true));
    assert!(!stats.has_room(i32::MAX as usize + 1, true));
    assert!(stats.has_room(i32::MAX as usize + 1, false));
}

#[test]
fn copies_hold_the_same_words() {
    let list = words(&["CRANE", "SLATE"]);
    assert_eq!(copy_words(&list), list);
    let round = game_record("BRACE", &["CRANE", "BRACE"]);
    let copy = round.copy();
    assert_eq!(copy.answer, "BRACE");
    assert_eq!(copy.guesses, words(&["CRANE", "BRACE"]));
}

#[test]
fn words_guessed_equally_often_come_in_the_order_of_their_characters() {
    let path = Some("state.json".to_string());
    let state = GameState {
        total_rounds: None,
        games: Some(vec![game_record(
            "x",
            &["b", "a", "B", "ab", "", "\u{e9}", "z", "a", "caf\u{e9}", "cafe"],
        )]),
    };
    let stats = Stats::load(&path, StateFile::Parsed(state)).unwrap();
    let listed = stats.get_frequent_words();
    assert_eq!(listed[0], pair("a", 2));
    let rest: Vec<&str> = listed[1..].iter().map(|entry| entry.0.as_str()).collect();
    assert_eq!(rest, vec!["", "B", "ab", "b", "cafe", "caf\u{e9}", "z", "\u{e9}"]);
    for entry in &listed[1..] {
        assert_eq!(entry.1, 1);
    }
}

#[test]
fn every_word_guessed_is_listed_once() {
    let mut stats = Stats::new();
    record(&mut stats, "BRACE", &["CRANE", "SLATE", "CRANE", "BRACE"]);
    record(&mut stats, "GRAPE", &["SLATE", "TRACE", "CRANE"]);
    let listed = stats.get_frequent_words();
    assert_eq!(
        listed,
        vec![pair("CRANE", 3), pair("SLATE", 2), pair("BRACE", 1), pair("TRACE", 1)]
    );
    assert_eq!(listed.iter().map(|entry| entry.1).sum::<usize>(), 7);
}
