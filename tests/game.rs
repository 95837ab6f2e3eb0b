use typing_game::{
    drift_from, fade, shift, Game, KeyEvent, Point, ScoreKeeper, Viewport, WordBank,
    WordBankError, WordCompleted, WordState, DRIFT_SPEED, DRIFT_SPEED_MIN, OPAQUE,
};

const STANDARD_1: [&str; 10] = ["ape", "sko", "ball", "tog", "bil", "snø", "hus", "ake", "dag", "sol"];
const STANDARD_2: [&str; 10] =
    ["kake", "hest", "fisk", "gris", "vann", "bekk", "buss", "vott", "måke", "slott"];

fn viewport() -> Viewport {
    Viewport { width: 800_000_000, height: 600_000_000 }
}

fn press(c: char) -> KeyEvent {
    KeyEvent { pressed: true, character: Some(c) }
}

fn single_word_game(word: &'static str) -> Game {
    let bank = WordBank::with_tiers(vec![vec![word]]).unwrap();
    Game::new(bank, 1, viewport()).unwrap()
}

#[test]
fn next_word_is_from_its_tier() {
    let bank = WordBank::standard();
    for _ in 0..50 {
        let w = bank.next_word(1).unwrap();
        assert!(!w.is_empty());
        assert!(STANDARD_1.contains(&w.as_str()));
        let w = bank.next_word(2).unwrap();
        assert!(STANDARD_2.contains(&w.as_str()));
    }
}

#[test]
fn next_word_rejects_unknown_levels() {
    let bank = WordBank::standard();
    assert_eq!(bank.next_word(0), Err(WordBankError::LevelOutOfRange));
    assert_eq!(bank.next_word(3), Err(WordBankError::LevelOutOfRange));
}

#[test]
fn bank_rejects_empty_tiers_and_words() {
    assert!(matches!(WordBank::with_tiers(vec![vec!["a"], vec![]]), Err(WordBankError::EmptyTier)));
    assert!(matches!(WordBank::with_tiers(vec![vec!["a", ""]]), Err(WordBankError::EmptyWord)));
    assert!(WordBank::with_tiers(vec![vec!["a"]]).is_ok());
}

#[test]
fn game_rejects_unknown_level() {
    assert!(matches!(Game::new(WordBank::standard(), 3, viewport()), Err(WordBankError::LevelOutOfRange)));
    assert!(matches!(Game::new(WordBank::standard(), 0, viewport()), Err(WordBankError::LevelOutOfRange)));
}

#[test]
fn new_game_starts_with_one_word_at_top_centre() {
    let g = Game::new(WordBank::standard(), 1, viewport()).unwrap();
    assert_eq!(g.score(), 0);
    assert_eq!(g.level(), 1);
    assert!(g.drifting().is_empty());
    let a = g.active();
    assert_eq!(a.state(), WordState::Falling);
    assert_eq!(a.position(), Point { x: 0, y: 300_000_000 });
    assert_eq!(a.alpha(), OPAQUE);
    assert_eq!(a.matched_text(), "");
    assert!(STANDARD_1.contains(&a.remaining_text()));
}

#[test]
fn typing_ape_scores_thirty() {
    let mut g = single_word_game("ape");
    let vp = viewport();
    assert!(g.type_char('a', vp).is_none());
    assert_eq!(g.active().matched_text(), "a");
    assert_eq!(g.active().remaining_text(), "pe");
    assert!(g.type_char('p', vp).is_none());
    assert_eq!(g.active().matched_text(), "ap");
    let done = g.type_char('e', vp);
    assert_eq!(done, Some(WordCompleted { length: 3 }));
    let gone = &g.drifting()[0];
    assert_eq!(gone.matched_text(), "ape");
    assert_eq!(gone.remaining_text(), "");
    assert!(matches!(gone.state(), WordState::FloatingAway(_)));
    assert_eq!(gone.position(), Point { x: 0, y: 450_000_000 });
    assert_eq!(g.active().state(), WordState::Falling);
    assert_eq!(g.active().remaining_text(), "ape");
    assert_eq!(g.active().id(), 1);
    g.update_score(&vec![WordCompleted { length: 3 }]);
    assert_eq!(g.score(), 30);
}

#[test]
fn frame_types_scores_and_moves() {
    let mut g = single_word_game("ape");
    let keys = vec![
        press('a'),
        KeyEvent { pressed: false, character: Some('p') },
        KeyEvent { pressed: true, character: None },
        press('p'),
        press('x'),
        press('e'),
    ];
    let msgs = g.frame(&keys, 100, viewport());
    assert_eq!(msgs, vec![WordCompleted { length: 3 }]);
    assert_eq!(g.score(), 30);
    assert_eq!(g.drifting().len(), 1);
    let falling: Vec<_> = std::iter::once(g.active())
        .chain(g.drifting().iter())
        .filter(|e| e.state() == WordState::Falling)
        .collect();
    assert_eq!(falling.len(), 1);
    // the new word has fallen 3 units in 100 ms
    assert_eq!(g.active().position(), Point { x: 0, y: 300_000_000 - 3_000_000 });
    assert_eq!(g.drifting()[0].alpha(), 970_000);
}

#[test]
fn mismatch_changes_nothing() {
    let mut g = single_word_game("ape");
    let before = (g.active().position(), g.active().matched_text().to_string());
    assert!(g.type_char('p', viewport()).is_none());
    assert!(g.type_char('A', viewport()).is_none());
    assert_eq!(g.active().position(), before.0);
    assert_eq!(g.active().matched_text(), before.1);
    assert_eq!(g.active().remaining_text(), "ape");
}

#[test]
fn non_ascii_word_counts_characters() {
    let mut g = single_word_game("snø");
    let msgs = g.frame(&vec![press('s'), press('n'), press('ø')], 0, viewport());
    assert_eq!(msgs, vec![WordCompleted { length: 3 }]);
    assert_eq!(g.score(), 30);
}

#[test]
fn drift_has_speed_fifty() {
    for _ in 0..20 {
        let mut g = single_word_game("a");
        g.type_char('a', viewport());
        match g.drifting()[0].state() {
            WordState::FloatingAway(v) => {
                let m2 = (v.dx as i128) * (v.dx as i128) + (v.dy as i128) * (v.dy as i128);
                assert!(m2 <= (DRIFT_SPEED as i128) * (DRIFT_SPEED as i128));
                assert!(m2 >= (DRIFT_SPEED_MIN as i128) * (DRIFT_SPEED_MIN as i128));
            }
            WordState::Falling => panic!("completed word still falling"),
        }
    }
}

#[test]
fn drift_from_exact_values() {
    let v = drift_from(3, 4);
    assert_eq!((v.dx, v.dy), (30_000, 40_000));
    let v = drift_from(-3, 4);
    assert_eq!((v.dx, v.dy), (-30_000, 40_000));
    let v = drift_from(10, 0);
    assert_eq!((v.dx, v.dy), (50_000, 0));
    let v = drift_from(0, -7);
    assert_eq!((v.dx, v.dy), (0, -50_000));
    let v = drift_from(0, 0);
    assert_eq!((v.dx, v.dy), (0, 50_000));
}

#[test]
fn fade_loses_three_percent() {
    assert_eq!(fade(OPAQUE), 970_000);
    assert_eq!(fade(970_000), 940_900);
    assert_eq!(fade(1), 0);
    assert_eq!(fade(0), 0);
    let mut a = OPAQUE;
    let mut exact = 1.0f64;
    for _ in 0..100 {
        a = fade(a);
        exact *= 0.97;
        let diff = (a as f64) / (OPAQUE as f64) - exact;
        assert!(diff <= 1e-9 && diff >= -34e-6);
    }
}

#[test]
fn shift_saturates() {
    assert_eq!(shift(5, -7), -2);
    assert_eq!(shift(i64::MAX, 1), i64::MAX);
    assert_eq!(shift(i64::MIN, -1), i64::MIN);
}

#[test]
fn bounds_include_edges() {
    let vp = Viewport { width: 10, height: 4 };
    assert!(vp.in_bounds(Point { x: 5, y: 2 }));
    assert!(vp.in_bounds(Point { x: -5, y: -2 }));
    assert!(!vp.in_bounds(Point { x: 6, y: 0 }));
    assert!(!vp.in_bounds(Point { x: 0, y: -3 }));
    assert_eq!(vp.top_center(), Point { x: 0, y: 2 });
}

#[test]
fn faded_word_off_screen_is_destroyed() {
    let vp = Viewport { width: 0, height: 0 };
    let bank = WordBank::with_tiers(vec![vec!["a"]]).unwrap();
    let mut g = Game::new(bank, 1, vp).unwrap();
    g.type_char('a', vp);
    assert_eq!(g.drifting().len(), 1);
    let mut frames = 0;
    while g.drifting().len() == 1 {
        let alpha = g.drifting()[0].alpha();
        let inside = vp.in_bounds(g.drifting()[0].position());
        g.advance(0, vp);
        frames += 1;
        if g.drifting().is_empty() {
            assert_eq!(alpha, 0);
            assert!(!inside);
        }
        assert!(frames < 1000);
    }
}

#[test]
fn visible_word_inside_stays() {
    let vp = viewport();
    let mut g = single_word_game("a");
    // fall 150 units first, so that the nudge keeps the word on screen
    g.advance(5_000, vp);
    g.type_char('a', vp);
    assert!(vp.in_bounds(g.drifting()[0].position()));
    for _ in 0..600 {
        g.advance(0, vp);
    }
    assert_eq!(g.drifting().len(), 1);
    assert_eq!(g.drifting()[0].alpha(), 0);
}

#[test]
fn score_keeper_adds_ten_per_character() {
    let mut s = ScoreKeeper::new();
    s.record(WordCompleted { length: 3 });
    assert_eq!(s.score(), 30);
    s.apply(&vec![WordCompleted { length: 4 }, WordCompleted { length: 5 }]);
    assert_eq!(s.score(), 120);
}

#[test]
fn set_level_switches_vocabulary() {
    let mut g = Game::new(WordBank::standard(), 1, viewport()).unwrap();
    assert_eq!(g.set_level(3), Err(WordBankError::LevelOutOfRange));
    assert_eq!(g.level(), 1);
    assert_eq!(g.set_level(2), Ok(()));
    assert_eq!(g.level(), 2);
}

#[test]
fn typing_ape_from_level_one() {
    let vp = viewport();
    let mut g = Game::new(WordBank::standard(), 1, vp).unwrap();
    let mut tries = 0;
    while g.active().remaining_text() != "ape" {
        g = Game::new(WordBank::standard(), 1, vp).unwrap();
        tries += 1;
        assert!(tries < 10_000);
    }
    let msgs = g.frame(&vec![press('a')], 0, vp);
    assert!(msgs.is_empty());
    assert_eq!(g.active().matched_text(), "a");
    g.frame(&vec![press('p')], 0, vp);
    assert_eq!(g.active().matched_text(), "ap");
    let msgs = g.frame(&vec![press('e')], 0, vp);
    assert_eq!(msgs, vec![WordCompleted { length: 3 }]);
    assert_eq!(g.score(), 30);
    assert_eq!(g.drifting()[0].matched_text(), "ape");
    assert_eq!(g.active().state(), WordState::Falling);
    assert_eq!(g.active().matched_text(), "");
    assert!(STANDARD_1.contains(&g.active().remaining_text()));
}

#[test]
fn one_word_falls_at_every_frame() {
    let vp = viewport();
    let mut g = Game::new(WordBank::standard(), 2, vp).unwrap();
    for round in 0..30 {
        let word: Vec<char> = g.active().remaining_text().chars().collect();
        let keys: Vec<KeyEvent> = word.iter().map(|&c| press(c)).collect();
        g.frame(&keys, 16, vp);
        let falling = std::iter::once(g.active())
            .chain(g.drifting().iter())
            .filter(|e| e.state() == WordState::Falling)
            .count();
        assert_eq!(falling, 1);
        assert_eq!(g.active().id(), round + 1);
    }
}
