use chunk_stream::score::calculate_digits;
use chunk_stream::states::{switch_state, AppState};

#[test]
fn digits_of_zero_are_empty() {
    assert!(calculate_digits(0).is_empty());
}

#[test]
fn digits_come_most_significant_first() {
    assert_eq!(calculate_digits(7), vec![7]);
    assert_eq!(calculate_digits(10), vec![1, 0]);
    assert_eq!(calculate_digits(1024), vec![1, 0, 2, 4]);
    assert_eq!(calculate_digits(4_294_967_295), vec![4, 2, 9, 4, 9, 6, 7, 2, 9, 5]);
}

#[test]
fn escape_toggles_menu_and_game() {
    assert_eq!(AppState::default(), AppState::MainMenu);
    assert_eq!(switch_state(AppState::MainMenu, true), (AppState::InGame, false));
    assert_eq!(switch_state(AppState::InGame, true), (AppState::MainMenu, true));
    assert_eq!(switch_state(AppState::GameOver, true), (AppState::GameOver, false));
    assert_eq!(switch_state(AppState::InGame, false), (AppState::InGame, false));
    assert_eq!(switch_state(AppState::MainMenu, false), (AppState::MainMenu, false));
}
