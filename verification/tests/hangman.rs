use deet::hangman::{
    count_line_breaks, is_whitespace, pick_a_random_word, word_at, Hangman, Standing,
    NUM_INCORRECT_GUESSES,
};

fn chars(s: &str) -> Vec<char> {
    s.chars().collect()
}

#[test]
fn counts_line_breaks() {
    assert_eq!(count_line_breaks(&chars("")), 0);
    assert_eq!(count_line_breaks(&chars("apple")), 0);
    assert_eq!(count_line_breaks(&chars("apple\npear\n")), 2);
    assert_eq!(count_line_breaks(&chars("\n\n\n")), 3);
}

#[test]
fn takes_the_word_of_a_line_without_the_space_around_it() {
    let text = chars("apple\n  pear \r\n\nplum tree\n");
    assert_eq!(word_at(&text, 0), chars("apple"));
    assert_eq!(word_at(&text, 1), chars("pear"));
    assert_eq!(word_at(&text, 2), chars(""));
    assert_eq!(word_at(&text, 3), chars("plum tree"));
    assert_eq!(word_at(&text, 4), chars(""));
    assert_eq!(word_at(&chars("   "), 0), chars(""));
    assert_eq!(word_at(&chars("\u{a0}x\u{3000}"), 0), chars("x"));
}

#[test]
fn trims_as_the_standard_library_does() {
    for code in 0..0x3100u32 {
        if let Some(c) = char::from_u32(code) {
            assert_eq!(is_whitespace(c), c.is_whitespace(), "{:#x}", code);
        }
    }
    let line = " \t caf\u{e9} \u{2003}\n";
    let text = chars(line);
    assert_eq!(word_at(&text, 0), chars(line.split('\n').next().unwrap().trim()));
}

#[test]
fn picks_one_of_the_words() {
    let text = chars("apple\npear\nplum");
    let mut seen = [false; 3];
    for _ in 0..200 {
        let word: String = pick_a_random_word(&text).into_iter().collect();
        match word.as_str() {
            "apple" => seen[0] = true,
            "pear" => seen[1] = true,
            "plum" => seen[2] = true,
            other => panic!("{:?}", other),
        }
    }
    assert_eq!(seen, [true, true, true]);
    assert_eq!(pick_a_random_word(&chars("only")), chars("only"));
}

#[test]
fn a_new_round_hides_every_letter() {
    let game = Hangman::new(chars("pear"));
    assert_eq!(game.word_so_far(), &chars("____"));
    assert!(game.guessed_letters().is_empty());
    assert_eq!(game.chances_left(), NUM_INCORRECT_GUESSES);
    assert_eq!(NUM_INCORRECT_GUESSES, 5);
}

#[test]
fn a_good_guess_uncovers_one_place() {
    let mut game = Hangman::new(chars("apple"));
    assert_eq!(game.guess('p'), (true, Standing::Open));
    assert_eq!(game.word_so_far(), &chars("_p___"));
    assert_eq!(game.guess('p'), (true, Standing::Open));
    assert_eq!(game.word_so_far(), &chars("_pp__"));
    assert_eq!(game.guess('p'), (false, Standing::Open));
    assert_eq!(game.chances_left(), 4);
    assert_eq!(game.guessed_letters(), &chars("ppp"));
}

#[test]
fn the_round_is_won_when_every_letter_is_found() {
    let mut game = Hangman::new(chars("bee"));
    assert_eq!(game.guess('e'), (true, Standing::Open));
    assert_eq!(game.guess('x'), (false, Standing::Open));
    assert_eq!(game.guess('b'), (true, Standing::Open));
    assert_eq!(game.guess('e'), (true, Standing::Won));
    assert_eq!(game.word_so_far(), &chars("bee"));
    assert_eq!(game.chances_left(), 4);
}

#[test]
fn the_round_is_lost_after_five_wrong_guesses() {
    let mut game = Hangman::new(chars("bee"));
    for (i, c) in "vwxy".chars().enumerate() {
        assert_eq!(game.guess(c), (false, Standing::Open));
        assert_eq!(game.chances_left(), 4 - i as u32);
    }
    assert_eq!(game.guess('z'), (false, Standing::Lost));
    assert_eq!(game.chances_left(), 0);
    assert_eq!(game.word_so_far(), &chars("___"));
}

#[test]
fn an_empty_word_is_won_at_the_first_guess() {
    let mut game = Hangman::new(Vec::new());
    assert_eq!(game.guess('a'), (false, Standing::Won));
    assert_eq!(game.chances_left(), 4);
}
