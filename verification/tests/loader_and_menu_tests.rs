use nox_futura::main_menu::{
    descriptive_noun, menu_frame, menu_result, second_noun, tagline, tagline_word, MenuResult, MenuState, NOUN_COUNT,
};
use nox_futura::playgame::loadstate::{loader_step, GameLoader, LoadState, LoaderAction};

#[test]
fn loader_starts_waits_then_installs_once() {
    let mut started = false;
    let mut loader: GameLoader<String> = GameLoader::new();
    assert!(matches!(loader_step(&mut started, &mut loader), LoaderAction::StartLoader));
    assert!(started);
    loader.state = LoadState::Loading;
    assert!(matches!(loader_step(&mut started, &mut loader), LoaderAction::Wait));
    assert!(matches!(loader.state, LoadState::Loading));
    loader.state = LoadState::Loaded { game: "saved".to_string() };
    match loader_step(&mut started, &mut loader) {
        LoaderAction::Install { game } => assert_eq!(game, "saved"),
        _ => panic!("the loaded game is installed"),
    }
    assert!(matches!(loader.state, LoadState::Idle));
    assert!(matches!(loader_step(&mut started, &mut loader), LoaderAction::Wait));
}

#[test]
fn menu_layout_and_choices() {
    assert_eq!(menu_frame((80, 50)), (15, 65, 15, 35));
    assert_eq!(menu_result(Some(0)), MenuResult::MakeWorld);
    assert_eq!(menu_result(Some(1)), MenuResult::ResumeGame);
    assert_eq!(menu_result(Some(2)), MenuResult::Quit);
    assert_eq!(menu_result(Some(3)), MenuResult::Continue);
    assert_eq!(menu_result(None), MenuResult::Continue);
}

#[test]
fn tagline_words() {
    assert_eq!(tagline_word(1), "Histories");
    assert_eq!(tagline_word(4), "Annals");
    assert_eq!(tagline_word(8), "Stories");
    assert_eq!(tagline_word(9), "");
}

#[test]
fn descriptive_nouns() {
    assert_eq!(NOUN_COUNT, 19);
    assert_eq!(descriptive_noun(0), "Stupidity");
    assert_eq!(descriptive_noun(18), "Unthinkingness");
}

#[test]
fn tagline_joins_a_word_and_two_different_nouns() {
    assert_eq!(tagline(2, 0, 3), "Chronicles of Stupidity and Foolishness");
    assert_eq!(second_noun(3, &vec![3, 3, 5, 1]), Some(5));
    assert_eq!(second_noun(3, &vec![3, 3]), None);
    assert_eq!(second_noun(3, &vec![]), None);
}

#[test]
fn menu_background_redraws_on_resize_or_timeout() {
    let mut m = MenuState::new();
    assert_eq!((m.last_size, m.seed), ((0, 0), 42));
    let (r, redraw) = m.tick((80, 50), false, None);
    assert!(matches!(r, MenuResult::Continue));
    assert!(redraw);
    assert_eq!((m.last_size, m.seed), ((80, 50), 43));
    let (r, redraw) = m.tick((80, 50), false, Some(1));
    assert!(matches!(r, MenuResult::ResumeGame));
    assert!(!redraw);
    assert_eq!(m.seed, 43);
    let (_, redraw) = m.tick((80, 50), true, None);
    assert!(redraw);
    assert_eq!(m.seed, 44);
}
