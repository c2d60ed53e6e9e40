use wordle::args::{
    as_day, flag_position, flag_value, get_default_accept_list, get_default_answers_list,
    has_char, has_flag, list_request, parse_u64, ArgError, Config, ListRequest, WordProcessor,
};
use wordle::wordlist::{find_stranger, read_word_list, uppercase_list, ListError};

fn words(list: &[&str]) -> Vec<String> {
    list.iter().map(|w| w.to_string()).collect()
}

fn answers() -> Vec<String> {
    words(&["CRANE", "SLATE", "BRACE"])
}

fn acceptable() -> Vec<String> {
    words(&["BRACE", "CRANE", "GRAPE", "SLATE", "TRACE"])
}

fn begun(args: &[&str]) -> (WordProcessor, Vec<String>) {
    let args = words(args);
    let mut options = WordProcessor::new();
    options.begin(&args, answers(), acceptable());
    (options, args)
}

fn processed(args: &[&str]) -> Result<WordProcessor, ArgError> {
    let (mut options, args) = begun(args);
    options.choose_mode(&args)?;
    options.finish(&args)?;
    Ok(options)
}

fn fault(args: &[&str]) -> Option<ArgError> {
    processed(args).err()
}

#[test]
fn new_options_ask_for_nothing() {
    let options = WordProcessor::new();
    assert!(!options.random_mode);
    assert!(!options.word_mode);
    assert!(!options.meet_word_argument);
    assert!(!options.difficult_mode);
    assert!(!options.stats_mode);
    assert_eq!(options.word_argument, None);
    assert!(!options.seed_mode);
    assert_eq!(options.seed_argument, None);
    assert!(!options.day_mode);
    assert_eq!(options.day_argument, None);
    assert_eq!(options.final_set_file, Some("builtin_word.rs".to_string()));
    assert_eq!(options.acceptable_set_file, Some("builtin_word.rs".to_string()));
    assert!(options.final_set.is_empty());
    assert!(options.acceptable_set.is_empty());
    assert!(!options.state_mode);
    assert_eq!(options.state_path, None);
    assert!(!options.config_mode);
    assert_eq!(options.config_path, None);
    assert!(!options.tui_mode);
    assert!(!options.gui_mode);
    assert!(!options.hint_mode);
    assert!(!options.test_mode);
}

#[test]
fn begin_takes_the_lists_and_seed_101_and_day_1() {
    let (options, _) = begun(&["wordle"]);
    assert_eq!(options.final_set, answers());
    assert_eq!(options.acceptable_set, acceptable());
    assert_eq!(options.seed_argument, Some(101));
    assert_eq!(options.day_argument, Some(1));
    assert!(!options.config_mode);
}

#[test]
fn begin_asks_for_the_configuration_file() {
    let args = words(&["wordle", "-c", "config.json", "-r"]);
    let mut options = WordProcessor::new();
    assert_eq!(options.begin(&args, answers(), acceptable()), Some("config.json".to_string()));
    assert!(options.config_mode);
    let args = words(&["wordle", "--config"]);
    let mut options = WordProcessor::new();
    assert_eq!(options.begin(&args, answers(), acceptable()), None);
    assert!(options.config_mode);
}

#[test]
fn a_configuration_with_a_word_ends_random_mode() {
    let (mut options, _) = begun(&["wordle"]);
    let config = Config {
        random: true,
        difficult: true,
        stats: true,
        day: Some(3),
        seed: Some(7),
        final_set: Some("final.txt".to_string()),
        acceptable_set: None,
        state: Some("state.json".to_string()),
        word: Some("crane".to_string()),
    };
    options.load_config_from_file("config.json".to_string(), Some(config));
    assert!(!options.random_mode);
    assert!(options.difficult_mode);
    assert!(options.stats_mode);
    assert_eq!(options.day_argument, Some(3));
    assert_eq!(options.seed_argument, Some(7));
    assert_eq!(options.final_set_file, Some("final.txt".to_string()));
    assert_eq!(options.acceptable_set_file, None);
    assert_eq!(options.state_path, Some("state.json".to_string()));
    assert_eq!(options.word_argument, Some("crane".to_string()));
    assert_eq!(options.config_path, Some("config.json".to_string()));
    // The lists themselves stay: the files are read when the command line
    // names them.
    assert_eq!(options.final_set, answers());
}

#[test]
fn a_configuration_without_a_word_means_random_mode() {
    let (mut options, _) = begun(&["wordle"]);
    let config = Config {
        random: false,
        difficult: false,
        stats: false,
        day: None,
        seed: None,
        final_set: None,
        acceptable_set: None,
        state: None,
        word: None,
    };
    options.load_config_from_file("config.json".to_string(), Some(config));
    assert!(options.random_mode);
    assert_eq!(options.day_argument, None);
    assert_eq!(options.seed_argument, None);
}

#[test]
fn a_file_without_a_configuration_changes_nothing_but_the_path() {
    let (mut options, _) = begun(&["wordle"]);
    options.load_config_from_file("config.json".to_string(), None);
    assert_eq!(options.config_path, Some("config.json".to_string()));
    assert!(!options.random_mode);
    assert_eq!(options.seed_argument, Some(101));
    assert_eq!(options.day_argument, Some(1));
}

#[test]
fn the_word_option_gives_the_secret() {
    let options = processed(&["wordle", "-w", "crane"]).unwrap();
    assert!(options.word_mode);
    assert!(options.meet_word_argument);
    assert!(!options.random_mode);
    assert_eq!(options.word_argument, Some("crane".to_string()));
    let options = processed(&["wordle", "--word", "SLATE", "-D"]).unwrap();
    assert_eq!(options.word_argument, Some("SLATE".to_string()));
    assert!(options.difficult_mode);
}

#[test]
fn a_word_that_starts_with_no_letter_is_not_taken() {
    let options = processed(&["wordle", "-w", "-D"]).unwrap();
    assert!(options.word_mode);
    assert!(!options.meet_word_argument);
    assert_eq!(options.word_argument, None);
    assert!(options.difficult_mode);
    let options = processed(&["wordle", "-w"]).unwrap();
    assert!(options.word_mode);
    assert!(!options.meet_word_argument);
}

#[test]
fn an_empty_word_is_refused() {
    assert_eq!(fault(&["wordle", "-w", ""]), Some(ArgError::EmptyWord));
}

#[test]
fn statistics_beside_a_given_word_are_refused() {
    assert_eq!(fault(&["wordle", "-w", "crane", "-t"]), Some(ArgError::StatsWithWord));
    assert_eq!(fault(&["wordle", "--stats", "--word", "crane"]), Some(ArgError::StatsWithWord));
    let options = processed(&["wordle", "-t"]).unwrap();
    assert!(options.stats_mode);
    let options = processed(&["wordle", "-t", "-w"]).unwrap();
    assert!(options.stats_mode);
}

#[test]
fn a_word_in_random_mode_is_refused() {
    assert_eq!(fault(&["wordle", "-r", "-w", "crane"]), Some(ArgError::WordInRandomMode));
    assert_eq!(fault(&["wordle", "-w", "-r"]), Some(ArgError::WordInRandomMode));
}

#[test]
fn a_day_or_a_seed_outside_random_mode_is_refused() {
    assert_eq!(fault(&["wordle", "-d", "2"]), Some(ArgError::DayOrSeedWithoutRandom));
    assert_eq!(fault(&["wordle", "-s", "7"]), Some(ArgError::DayOrSeedWithoutRandom));
    assert_eq!(fault(&["wordle", "--seed"]), Some(ArgError::DayOrSeedWithoutRandom));
}

#[test]
fn random_mode_takes_seed_and_day() {
    let options = processed(&["wordle", "-r", "-s", "7", "-d", "2"]).unwrap();
    assert!(options.random_mode);
    assert!(options.seed_mode);
    assert!(options.day_mode);
    assert_eq!(options.seed_argument, Some(7));
    assert_eq!(options.day_argument, Some(2));
    let options = processed(&["wordle", "--random", "--seed", "18446744073709551615"]).unwrap();
    assert_eq!(options.seed_argument, Some(u64::MAX));
    assert_eq!(options.day_argument, Some(1));
    let options = processed(&["wordle", "-r", "-d", "+3"]).unwrap();
    assert_eq!(options.day_argument, Some(3));
}

#[test]
fn a_seed_or_day_that_is_no_number_is_passed_over() {
    let options = processed(&["wordle", "-r", "-s", "seven", "-d", "two"]).unwrap();
    assert!(options.seed_mode);
    assert!(options.day_mode);
    assert_eq!(options.seed_argument, Some(101));
    assert_eq!(options.day_argument, Some(1));
    let options = processed(&["wordle", "-r", "-s", "18446744073709551616"]).unwrap();
    assert_eq!(options.seed_argument, Some(101));
    let options = processed(&["wordle", "-r", "-s", "-5"]).unwrap();
    assert_eq!(options.seed_argument, Some(101));
}

#[test]
fn a_day_outside_the_list_is_refused() {
    assert_eq!(fault(&["wordle", "-r", "-d", "0"]), Some(ArgError::InvalidDay));
    assert_eq!(fault(&["wordle", "-r", "-d", "4"]), Some(ArgError::InvalidDay));
    assert_eq!(fault(&["wordle", "-r", "-d", "-1"]), Some(ArgError::InvalidDay));
    assert_eq!(fault(&["wordle", "-r", "-d", "1-2"]), Some(ArgError::InvalidDay));
    assert_eq!(fault(&["wordle", "-r", "-d", "-s"]), Some(ArgError::InvalidDay));
    assert!(processed(&["wordle", "-r", "-d", "3"]).is_ok());
    // Outside random mode the day is looked at first.
    assert_eq!(fault(&["wordle", "-d", "0"]), Some(ArgError::InvalidDay));
}

#[test]
fn validate_day_wants_a_day_of_the_list() {
    let (mut options, _) = begun(&["wordle"]);
    assert!(options.validate_day());
    options.day_argument = Some(0);
    assert!(!options.validate_day());
    options.day_argument = Some(3);
    assert!(options.validate_day());
    options.day_argument = Some(4);
    assert!(!options.validate_day());
}

#[test]
fn answers_must_be_acceptable_words() {
    let args = words(&["wordle"]);
    let mut options = WordProcessor::new();
    options.begin(&args, words(&["CRANE", "MOLDY", "ZZZZZ"]), acceptable());
    options.choose_mode(&args).unwrap();
    assert_eq!(options.finish(&args), Err(ArgError::NotAcceptable("MOLDY".to_string())));
    assert_eq!(
        options.check_sets(&options.final_set, &options.acceptable_set),
        Err(ArgError::NotAcceptable("MOLDY".to_string()))
    );
    assert_eq!(
        options.check_sets(&words(&["ZZZZZ", "CRANE", "MOLDY"]), &acceptable()),
        Err(ArgError::NotAcceptable("ZZZZZ".to_string()))
    );
    // The lists of the options are as they were.
    assert_eq!(options.final_set, words(&["CRANE", "MOLDY", "ZZZZZ"]));
    assert_eq!(options.acceptable_set, acceptable());
    assert_eq!(options.check_sets(&answers(), &acceptable()), Ok(()));
    assert_eq!(options.check_sets(&Vec::new(), &Vec::new()), Ok(()));
    assert_eq!(
        find_stranger(&words(&["CRANE", "MOLDY", "ZZZZZ"]), &acceptable()),
        Some("MOLDY".to_string())
    );
    assert_eq!(find_stranger(&answers(), &acceptable()), None);
}

#[test]
fn the_state_and_the_interfaces_are_taken_last() {
    let options =
        processed(&["wordle", "-S", "state.json", "-T", "-G", "-H", "--test"]).unwrap();
    assert!(options.state_mode);
    assert_eq!(options.state_path, Some("state.json".to_string()));
    assert!(options.tui_mode);
    assert!(options.gui_mode);
    assert!(options.hint_mode);
    assert!(options.test_mode);
    let options = processed(&["wordle", "--tui", "--state"]).unwrap();
    assert!(options.state_mode);
    assert_eq!(options.state_path, None);
    assert!(options.tui_mode);
    assert!(!options.gui_mode);
    let options = processed(&["wordle", "--gui", "--hint"]).unwrap();
    assert!(options.gui_mode);
    assert!(options.hint_mode);
    assert!(!options.test_mode);
}

#[test]
fn flags_are_found_by_either_spelling() {
    let args = words(&["wordle", "-x", "--random", "-r", "last"]);
    assert_eq!(flag_position(&args, "-r", "--random"), Some(2));
    assert_eq!(flag_position(&args, "-x", "--extra"), Some(1));
    assert_eq!(flag_position(&args, "-q", "--quiet"), None);
    assert!(has_flag(&args, "-r", "--random"));
    assert!(!has_flag(&args, "-R", "--Random"));
    assert_eq!(flag_value(&args, "-r", "--random"), Some("-r".to_string()));
    assert_eq!(flag_value(&args, "last", "last"), None);
    assert_eq!(flag_value(&args, "-q", "--quiet"), None);
    assert_eq!(flag_position(&Vec::new(), "-r", "--random"), None);
}

#[test]
fn a_file_name_has_a_dot() {
    assert!(matches!(list_request(None), ListRequest::Keep));
    assert!(matches!(list_request(Some("words.txt".to_string())), ListRequest::Load(name) if name == "words.txt"));
    assert!(matches!(list_request(Some("words".to_string())), ListRequest::Ignore(name) if name == "words"));
    let args = words(&["wordle", "-f", "final.txt", "--acceptable-set", "acceptable"]);
    assert!(matches!(WordProcessor::final_set_request(&args), ListRequest::Load(name) if name == "final.txt"));
    assert!(matches!(WordProcessor::acceptable_set_request(&args), ListRequest::Ignore(name) if name == "acceptable"));
    let args = words(&["wordle", "-a", "a.txt", "-f"]);
    assert!(matches!(WordProcessor::final_set_request(&args), ListRequest::Keep));
    assert!(matches!(WordProcessor::acceptable_set_request(&args), ListRequest::Load(name) if name == "a.txt"));
    assert!(has_char("a.txt", '.'));
    assert!(!has_char("atxt", '.'));
    assert!(!has_char("", '.'));
}

#[test]
fn a_word_list_is_read_line_by_line() {
    assert_eq!(read_word_list(&words(&["crane", "Slate", "BRACE"])), Ok(answers()));
    assert_eq!(read_word_list(&Vec::new()), Ok(Vec::new()));
}

#[test]
fn a_line_with_two_words_is_refused() {
    assert_eq!(read_word_list(&words(&["crane", "ab cd"])), Err(ListError::ManyWords));
    assert_eq!(read_word_list(&words(&["crane slate"])), Err(ListError::ManyWords));
}

#[test]
fn a_word_of_the_wrong_length_is_refused() {
    assert_eq!(read_word_list(&words(&["crane", "slat"])), Err(ListError::WrongLength));
    assert_eq!(read_word_list(&words(&["cranes"])), Err(ListError::WrongLength));
    assert_eq!(read_word_list(&words(&["cran "])), Err(ListError::WrongLength));
    assert_eq!(read_word_list(&words(&["caf\u{e9}"])), Err(ListError::WrongLength));
    assert_eq!(read_word_list(&words(&[""])), Err(ListError::WrongLength));
    assert_eq!(read_word_list(&words(&["   "])), Err(ListError::WrongLength));
}

#[test]
fn a_word_is_measured_without_the_white_space_around_it() {
    assert_eq!(read_word_list(&words(&["crane ", "\tslate", " brace\r"])), Ok(answers()));
}

#[test]
fn a_word_that_holds_more_than_letters_is_refused() {
    assert_eq!(read_word_list(&words(&["crane", "12345"])), Err(ListError::NotLetters));
    assert_eq!(read_word_list(&words(&["cr-ne"])), Err(ListError::NotLetters));
    assert_eq!(read_word_list(&words(&["caf\u{e9}s"])), Err(ListError::NotLetters));
}

#[test]
fn a_word_that_stands_twice_is_refused() {
    assert_eq!(read_word_list(&words(&["crane", "slate", "CRANE"])), Err(ListError::Duplicated));
}

#[test]
fn the_first_error_of_a_list_is_reported() {
    assert_eq!(read_word_list(&words(&["crane", "crane", "a b"])), Err(ListError::Duplicated));
    assert_eq!(read_word_list(&words(&["a b c", "crane", "crane"])), Err(ListError::ManyWords));
}

#[test]
fn the_checks_of_a_line_come_in_order() {
    // more than one word, then the length, then the letters, then the
    // words read before
    assert_eq!(read_word_list(&words(&["12 45"])), Err(ListError::ManyWords));
    assert_eq!(read_word_list(&words(&["123456"])), Err(ListError::WrongLength));
    assert_eq!(read_word_list(&words(&["12345", "12345"])), Err(ListError::NotLetters));
    assert_eq!(read_word_list(&words(&["crane", " CRANE "])), Err(ListError::Duplicated));
}

#[test]
fn the_options_take_the_answers_from_a_file() {
    let (mut options, _) = begun(&["wordle"]);
    assert_eq!(options.load_answer_list("final.txt", &words(&["slate", "crane"])), Ok(()));
    assert_eq!(options.final_set, words(&["SLATE", "CRANE"]));
    assert_eq!(options.final_set_file, Some("final.txt".to_string()));
    assert_eq!(
        options.load_answer_list("other.txt", &words(&["grape", "grape"])),
        Err(ListError::Duplicated)
    );
    assert_eq!(options.final_set, words(&["SLATE", "CRANE"]));
    assert_eq!(options.final_set_file, Some("final.txt".to_string()));
}

#[test]
fn the_acceptable_words_from_a_file_are_sorted() {
    let (mut options, _) = begun(&["wordle"]);
    assert_eq!(
        options.load_accept_list("acceptable.txt", &words(&["slate", "crane", "brace", "trace"])),
        Ok(())
    );
    assert_eq!(options.acceptable_set, words(&["BRACE", "CRANE", "SLATE", "TRACE"]));
    assert_eq!(options.acceptable_set_file, Some("acceptable.txt".to_string()));
    assert_eq!(
        options.load_accept_list("other.txt", &words(&["a b"])),
        Err(ListError::ManyWords)
    );
    assert_eq!(options.acceptable_set, words(&["BRACE", "CRANE", "SLATE", "TRACE"]));
}

#[test]
fn the_built_in_lists_are_put_in_upper_case() {
    let builtin = ["crane", "slate"];
    assert_eq!(get_default_answers_list(&builtin), words(&["CRANE", "SLATE"]));
    assert_eq!(get_default_accept_list(&builtin), words(&["CRANE", "SLATE"]));
    assert_eq!(uppercase_list(&["a", "B", ""]), words(&["A", "B", ""]));
    assert!(get_default_answers_list(&[]).is_empty());
}

#[test]
fn numbers_are_rows_of_digits() {
    assert_eq!(parse_u64("0"), Some(0));
    assert_eq!(parse_u64("7"), Some(7));
    assert_eq!(parse_u64("101"), Some(101));
    assert_eq!(parse_u64("+42"), Some(42));
    assert_eq!(parse_u64("007"), Some(7));
    assert_eq!(parse_u64("18446744073709551615"), Some(u64::MAX));
    assert_eq!(parse_u64("000000000000000000000000000000000000001"), Some(1));
}

#[test]
fn what_is_no_row_of_digits_is_no_number() {
    for text in ["", "+", "-", "-1", "+-1", "++1", " 1", "1 ", "1_000", "0x10", "1e3", "ten", "1.0"] {
        assert_eq!(parse_u64(text), None);
    }
    // digits of another script are no digits here
    assert_eq!(parse_u64("\u{663}"), None);
    assert_eq!(parse_u64("1\u{663}"), None);
}

#[test]
fn a_number_beyond_the_largest_is_no_number() {
    assert_eq!(parse_u64("18446744073709551616"), None);
    assert_eq!(parse_u64("18446744073709551620"), None);
    assert_eq!(parse_u64("99999999999999999999"), None);
    assert_eq!(parse_u64("184467440737095516150"), None);
    assert_eq!(parse_u64("+18446744073709551616"), None);
}

#[test]
fn numbers_are_read_as_the_standard_library_reads_them() {
    let symbols = ['+', '-', '0', '1', '9', ' ', 'a'];
    let mut texts: Vec<String> = vec![String::new()];
    let mut from = 0;
    for _ in 0..5 {
        let upto = texts.len();
        for i in from..upto {
            for c in symbols {
                let mut text = texts[i].clone();
                text.push(c);
                texts.push(text);
            }
        }
        from = upto;
    }
    for end in 0..200u64 {
        texts.push((u64::MAX - end).to_string());
        texts.push(format!("1844674407370955{:04}", 1500 + end));
        texts.push(format!("+{}", (u64::MAX as u128 + end as u128)));
        texts.push(format!("{}{}", "0".repeat(end as usize), end));
    }
    assert!(texts.len() > 19000);
    for text in &texts {
        assert_eq!(parse_u64(text), text.parse::<u64>().ok());
    }
}

#[test]
fn a_day_is_a_number_of_the_machine() {
    assert_eq!(as_day(None), None);
    assert_eq!(as_day(Some(0)), Some(0));
    assert_eq!(as_day(Some(3)), Some(3));
    assert_eq!(as_day(Some(usize::MAX as u64)), Some(usize::MAX));
}
