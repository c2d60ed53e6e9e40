use wordle::game::{ErrorType, Game, TRY_CASES};
use wordle::hint::narrow;
use wordle::recommend::recommend;
use wordle::status::LetterStatus::{Green, Red, Unknown, Yellow};

fn words(list: &[&str]) -> Vec<String> {
    list.iter().map(|w| w.to_string()).collect()
}

fn pool() -> Vec<String> {
    words(&["CRANE", "CRATE", "SLATE", "TRACE", "BRACE"])
}

fn round(answer: &str, difficult: bool) -> Game {
    Game::new(answer.to_string(), difficult, pool(), pool())
}

#[test]
fn a_new_round_knows_nothing() {
    let game = round("SLATE", false);
    assert_eq!(game.answer, "SLATE");
    assert!(!game.difficult);
    assert_eq!(game.alphabet, [Unknown; 26]);
    assert!(game.guesses.is_empty());
    assert!(!game.is_win);
    assert_eq!(game.hint_list, pool());
    assert_eq!(game.test_list, pool());
    assert_eq!(game.get_tries(), 0);
}

#[test]
fn play_returns_the_feedback_and_records_the_guess() {
    let mut game = round("TRUCK", false);
    let status = game.play("CRANE");
    assert_eq!(status, [Yellow, Green, Red, Red, Red]);
    assert_eq!(game.get_guess_word_status("CRANE"), status);
    assert_eq!(game.get_tries(), 1);
    assert_eq!(game.guesses[0], ("CRANE".to_string(), status));
    assert_eq!(game.alphabet[2], Yellow);
    assert_eq!(game.alphabet[17], Green);
    assert_eq!(game.alphabet[0], Red);
    let status = game.play("TRICK");
    assert_eq!(status, [Green, Green, Red, Green, Green]);
    assert_eq!(game.get_tries(), 2);
    assert_eq!(game.guesses[1].0, "TRICK");
    // C was Yellow and is Green now; R stays Green.
    assert_eq!(game.alphabet[2], Green);
    assert_eq!(game.alphabet[17], Green);
    assert_eq!(game.alphabet[8], Red);
}

#[test]
fn the_alphabet_never_falls_back() {
    let mut game = round("TRUCK", false);
    let mut before = game.alphabet;
    for guess in ["TRICK", "CRANE", "SLATE", "TRUCK", "BRACE"] {
        game.play(guess);
        for k in 0..26 {
            assert!(game.alphabet[k] >= before[k]);
        }
        before = game.alphabet;
    }
}

#[test]
fn the_round_is_won_by_the_secret() {
    let mut game = round("SLATE", false);
    game.play("CRANE");
    assert!(!game.is_game_over("CRANE"));
    assert!(!game.is_win);
    game.play("SLATE");
    assert!(game.is_game_over("SLATE"));
    assert!(game.is_win);
}

#[test]
fn the_round_is_lost_after_six_guesses() {
    assert_eq!(TRY_CASES, 6);
    let mut game = round("SLATE", false);
    for tries in 1..=6 {
        game.play("CRANE");
        assert_eq!(game.is_game_over("CRANE"), tries >= 6);
    }
    assert!(!game.is_win);
}

#[test]
fn the_first_guess_is_legal_in_hard_mode() {
    let game = round("TRUCK", true);
    assert!(game.check_difficult_mode("SLATE"));
    assert!(game.check_difficult_mode("CRANE"));
}

#[test]
fn hard_mode_holds_the_green_r_of_crane_in_place() {
    let mut game = Game::new(
        "TRUCK".to_string(),
        true,
        words(&["CRANE", "CLOCK", "TRICK", "TRUCK", "TRUSS"]),
        Vec::new(),
    );
    let status = game.play("CRANE");
    assert_eq!(status[1], Green);
    assert!(!game.check_difficult_mode("CLOCK"));
    assert!(!game.check_difficult_mode("TRUSS"));
    assert!(game.check_difficult_mode("TRICK"));
    assert!(game.check_difficult_mode("TRUCK"));
}

#[test]
fn hard_mode_looks_at_the_last_guess_for_green_letters() {
    let mut game = round("TRUCK", true);
    game.play("TRICK");
    game.play("CRANE");
    // T was Green in TRICK, but the last guess is CRANE: only its Green R
    // is locked, and no letter is Yellow in the alphabet.
    assert!(game.check_difficult_mode("BRACE"));
}

#[test]
fn a_guess_of_the_wrong_length_is_refused() {
    let game = round("SLATE", false);
    assert_eq!(game.ask_for_guess("CRAN", &pool()), Err(ErrorType::WrongLength));
    assert_eq!(game.ask_for_guess("CRANES", &pool()), Err(ErrorType::WrongLength));
    assert_eq!(game.ask_for_guess("", &pool()), Err(ErrorType::WrongLength));
    assert_eq!(game.ask_for_guess("12345", &pool()), Err(ErrorType::WrongLength));
}

#[test]
fn a_guess_from_outside_the_list_is_refused() {
    let game = round("SLATE", false);
    assert_eq!(game.ask_for_guess("MOLDY", &pool()), Err(ErrorType::GuessNotInList));
}

#[test]
fn a_guess_is_trimmed_and_put_in_upper_case() {
    let game = round("SLATE", false);
    assert_eq!(game.ask_for_guess("  crane\n", &pool()), Ok("CRANE".to_string()));
    assert_eq!(game.ask_for_guess("c-r a;n1e", &pool()), Ok("CRANE".to_string()));
    assert_eq!(game.ask_for_guess("Slate", &pool()), Ok("SLATE".to_string()));
}

#[test]
fn hard_mode_refuses_a_guess_that_ignores_the_hints() {
    let list = words(&["CRANE", "CLOCK", "TRICK", "TRUCK"]);
    let mut game = Game::new("TRUCK".to_string(), true, list.clone(), list.clone());
    assert_eq!(game.ask_for_guess("clock", &list), Ok("CLOCK".to_string()));
    game.play("CRANE");
    assert_eq!(game.ask_for_guess("clock", &list), Err(ErrorType::HintUnused));
    assert_eq!(game.ask_for_guess("trick", &list), Ok("TRICK".to_string()));
    // The list is looked at before the hints.
    assert_eq!(game.ask_for_guess("moldy", &list), Err(ErrorType::GuessNotInList));
}

#[test]
fn without_hard_mode_the_hints_may_be_ignored() {
    let list = words(&["CRANE", "CLOCK", "TRICK", "TRUCK"]);
    let mut game = Game::new("TRUCK".to_string(), false, list.clone(), list.clone());
    game.play("CRANE");
    assert_eq!(game.ask_for_guess("clock", &list), Ok("CLOCK".to_string()));
}

#[test]
fn a_secret_must_be_in_the_list_of_answers() {
    assert_eq!(Game::get_secret_word("slate\n", &pool()), Ok("SLATE".to_string()));
    assert_eq!(Game::get_secret_word("moldy\n", &pool()), Err(ErrorType::AnsNotInList));
    assert_eq!(Game::get_secret_word("slat\n", &pool()), Err(ErrorType::WrongLength));
}

#[test]
fn input_valid_check_looks_the_word_up() {
    assert!(Game::input_valid_check(&"CRANE".to_string(), &pool()));
    assert!(!Game::input_valid_check(&"crane".to_string(), &pool()));
    assert!(!Game::input_valid_check(&"MOLDY".to_string(), &pool()));
    assert!(!Game::input_valid_check(&"CRANE".to_string(), &Vec::new()));
}

#[test]
fn errors_are_invalid_for_programs_and_told_to_players() {
    for error in [
        ErrorType::WrongLength,
        ErrorType::GuessNotInList,
        ErrorType::AnsNotInList,
        ErrorType::HintUnused,
    ] {
        assert_eq!(error.print_error(false), "INVALID");
    }
    assert_eq!(
        ErrorType::WrongLength.print_error(true),
        "The length of a word should be 5, please try another word!"
    );
    assert_eq!(
        ErrorType::GuessNotInList.print_error(true),
        "Not in the dictionary! Please try another word!"
    );
    assert_eq!(
        ErrorType::AnsNotInList.print_error(true),
        "Not in the dictionary! Please enter another answer!"
    );
    assert_eq!(
        ErrorType::HintUnused.print_error(true),
        "You must use the hint in difficult mode."
    );
}

#[test]
fn get_hint_narrows_the_pool_of_the_round() {
    let mut game = round("SLATE", false);
    let status = game.play("CRANE");
    assert_eq!(status, [Red, Red, Green, Red, Green]);
    assert_eq!(game.get_hint("CRANE", status), words(&["SLATE"]));
    // The pool itself stays as it was until the caller replaces it.
    assert_eq!(game.hint_list, pool());
}

#[test]
fn get_recommend_words_recommends_five() {
    let mut game = round("SLATE", false);
    let list = words(&["CRANE", "CRATE", "SLATE", "TRACE", "BRACE", "GRACE", "GRATE"]);
    // CRATE, GRACE and GRATE score 25, TRACE and BRACE 24, CRANE 23 and
    // SLATE 19.
    assert_eq!(
        game.get_recommend_words(&list),
        words(&["CRATE", "GRACE", "GRATE", "TRACE", "BRACE"])
    );
    let short = words(&["SLATE", "BRACE"]);
    assert_eq!(game.get_recommend_words(&short), short);
}

#[test]
fn the_solver_needs_one_guess_for_the_secret_itself() {
    let mut game = round("SLATE", false);
    assert_eq!(game.over_all_game_numbers("SLATE"), 1);
    assert_eq!(game.get_tries(), 1);
    assert_eq!(game.guesses[0].0, "SLATE");
    // Both pools are narrowed by the feedback for the secret.
    assert_eq!(game.hint_list, words(&["SLATE"]));
    assert_eq!(game.test_list, words(&["SLATE"]));
}

#[test]
fn the_solver_needs_two_guesses_where_one_candidate_is_left() {
    let mut game = round("SLATE", false);
    assert_eq!(game.over_all_game_numbers("CRANE"), 2);
    assert_eq!(game.guesses.len(), 2);
    assert_eq!(game.guesses[0].0, "CRANE");
    assert_eq!(game.guesses[1].0, "SLATE");
    assert_eq!(game.guesses[1].1, [Green; 5]);
}

#[test]
fn the_solver_plays_the_first_of_two_equal_candidates() {
    // SLATE leaves CRANE and BRACE, which score alike; CRANE stands first
    // and is played, and BRACE is what is left after it.
    let mut game = round("BRACE", false);
    assert_eq!(game.over_all_game_numbers("SLATE"), 3);
    assert_eq!(game.guesses.len(), 3);
    assert_eq!(game.guesses[0].0, "SLATE");
    assert_eq!(game.guesses[1].0, "CRANE");
    assert_eq!(game.guesses[2].0, "BRACE");
    assert_eq!(game.hint_list, words(&["BRACE"]));
    assert_eq!(game.test_list, words(&["BRACE"]));
    assert!(!game.is_win);
}

#[test]
fn the_solver_appends_its_guesses_to_the_history() {
    let mut game = round("BRACE", false);
    game.play("TRACE");
    let tries = game.over_all_game_numbers("SLATE");
    assert_eq!(game.guesses.len(), 1 + tries as usize);
    assert_eq!(game.guesses[0].0, "TRACE");
    assert_eq!(game.guesses[1].0, "SLATE");
    assert_eq!(game.guesses.last().unwrap().0, "BRACE");
}

#[test]
fn the_solver_plays_the_secret_last_and_only_once() {
    for answer in pool() {
        for first in pool() {
            let mut game = round(&answer, false);
            let tries = game.over_all_game_numbers(&first) as usize;
            assert_eq!(game.guesses.len(), tries);
            assert_eq!(game.guesses[0].0, first);
            assert_eq!(game.guesses[tries - 1].0, answer);
            for guess in &game.guesses[..tries - 1] {
                assert_ne!(guess.0, answer);
            }
            assert!(game.hint_list.contains(&answer));
            assert_eq!(game.hint_list, game.test_list);
        }
    }
}

#[test]
fn the_solver_plays_the_top_recommendation_of_the_narrowed_pool() {
    let list = words(&[
        "ALLOY", "LLAMA", "CRANE", "SLATE", "EERIE", "TRUCK", "TRICK", "BRICK", "GRAPE", "APPLE",
        "AMPLE", "ANGLE", "BRACE", "TRACE", "CRATE",
    ]);
    for answer in &list {
        let mut game = Game::new(answer.clone(), false, list.clone(), list.clone());
        let tries = game.over_all_game_numbers("MOLDY") as usize;
        assert_eq!(game.guesses.len(), tries);
        let mut narrowed = list.clone();
        for k in 0..tries {
            if k > 0 {
                assert_eq!(game.guesses[k].0, recommend(&narrowed, 1)[0]);
            }
            narrowed = narrow(&narrowed, &game.guesses[k].0, &game.guesses[k].1);
        }
        assert_eq!(game.hint_list, narrowed);
    }
}

#[test]
fn the_solver_accepts_a_first_guess_from_outside_the_pool() {
    let mut game = round("TRACE", false);
    let tries = game.over_all_game_numbers("MOLDY");
    assert!(tries >= 2);
    assert!(tries <= 6);
}

#[test]
fn the_solver_never_needs_more_guesses_than_the_pool_has_words() {
    for answer in pool() {
        for first in pool() {
            let mut game = round(&answer, false);
            let tries = game.over_all_game_numbers(&first);
            assert!(tries >= 1);
            assert!(tries <= 6);
            assert_eq!(tries == 1, first == answer);
        }
    }
}
