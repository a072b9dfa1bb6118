use peek::nav::{KeyEvent, Mode, NavigationState, Outcome};
use peek::window::{Command, Window, Windows};

fn cmd(text: &str) -> Command {
    Command::plain(text.to_string())
}

fn window_with(name: &str, texts: &[&str]) -> Window {
    let commands: Vec<Command> = texts.iter().map(|t| cmd(t)).collect();
    Window::new(name.to_string(), commands, 0, None)
}

fn state_with(windows: Vec<Window>) -> NavigationState {
    let mut ws = Windows::new();
    for w in windows {
        ws.push(w);
    }
    assert!(ws.is_well_formed());
    NavigationState::new(ws)
}

#[test]
fn down_len_times_returns_to_start() {
    let mut st = state_with(vec![window_with("w", &["one", "two", "three"])]);
    assert_eq!(st.step(KeyEvent::Confirm), Outcome::Continue);
    assert_eq!(st.mode, Mode::InsideWindow(0));
    // move off the original position first, so the cycle starts mid-list
    assert_eq!(st.step(KeyEvent::Down), Outcome::Continue);
    let start = st.windows.windows[0].selected;
    for _ in 0..3 {
        assert_eq!(st.step(KeyEvent::Down), Outcome::Continue);
    }
    assert_eq!(st.windows.windows[0].selected, start);
}

#[test]
fn inner_navigation_wraps_both_ways() {
    let mut st = state_with(vec![window_with("w", &["a", "b"])]);
    st.step(KeyEvent::Confirm);
    assert_eq!(st.windows.windows[0].selected, 0);
    st.step(KeyEvent::Up);
    assert_eq!(st.windows.windows[0].selected, 1);
    st.step(KeyEvent::Down);
    assert_eq!(st.windows.windows[0].selected, 0);
    st.step(KeyEvent::Down);
    assert_eq!(st.windows.windows[0].selected, 1);
}

#[test]
fn menu_navigation_wraps_both_ways() {
    let mut st = state_with(vec![window_with("a", &["x"]), window_with("b", &["y"])]);
    assert_eq!(st.outer_selected, 0);
    st.step(KeyEvent::Down);
    assert_eq!(st.outer_selected, 1);
    st.step(KeyEvent::Down);
    assert_eq!(st.outer_selected, 0);
    st.step(KeyEvent::Up);
    assert_eq!(st.outer_selected, 1);
    st.step(KeyEvent::Up);
    assert_eq!(st.outer_selected, 0);
}

#[test]
fn single_command_confirm_is_stable_under_navigation() {
    let mut st = state_with(vec![window_with("w", &["only one"])]);
    st.step(KeyEvent::Confirm);
    st.step(KeyEvent::Up);
    st.step(KeyEvent::Down);
    st.step(KeyEvent::Down);
    st.step(KeyEvent::Up);
    let out = st.step(KeyEvent::Confirm);
    assert_eq!(out, Outcome::Chosen("only one".to_string()));
}

#[test]
fn empty_collection_menu_stays_navigable() {
    let mut st = state_with(vec![]);
    assert_eq!(st.step(KeyEvent::Down), Outcome::Continue);
    assert_eq!(st.outer_selected, 0);
    assert_eq!(st.step(KeyEvent::Up), Outcome::Continue);
    assert_eq!(st.outer_selected, 0);
    assert_eq!(st.step(KeyEvent::Confirm), Outcome::Continue);
    assert_eq!(st.mode, Mode::Menu);
    assert_eq!(st.step(KeyEvent::EditInPlace), Outcome::Continue);
    assert_eq!(st.step(KeyEvent::Quit), Outcome::Quit);
}

#[test]
fn empty_window_inner_keys_are_noops() {
    let mut st = state_with(vec![window_with("empty", &[])]);
    st.step(KeyEvent::Confirm);
    assert_eq!(st.mode, Mode::InsideWindow(0));
    assert_eq!(st.step(KeyEvent::Down), Outcome::Continue);
    assert_eq!(st.step(KeyEvent::Up), Outcome::Continue);
    assert_eq!(st.step(KeyEvent::Confirm), Outcome::Continue);
    assert_eq!(st.windows.windows[0].selected, 0);
    assert_eq!(st.step(KeyEvent::Quit), Outcome::Continue);
    assert_eq!(st.mode, Mode::Menu);
}

#[test]
fn confirm_returns_selected_command() {
    let mut st = state_with(vec![window_with("w", &["first", "second", "third"])]);
    st.step(KeyEvent::Confirm);
    st.step(KeyEvent::Down);
    st.step(KeyEvent::Down);
    let out = st.step(KeyEvent::Confirm);
    assert_eq!(out, Outcome::Chosen("third".to_string()));
}

#[test]
fn quit_inside_window_returns_to_menu() {
    let mut st = state_with(vec![window_with("a", &["x"]), window_with("b", &["y"])]);
    st.step(KeyEvent::Down);
    st.step(KeyEvent::Confirm);
    assert_eq!(st.mode, Mode::InsideWindow(1));
    assert_eq!(st.step(KeyEvent::Quit), Outcome::Continue);
    assert_eq!(st.mode, Mode::Menu);
    assert_eq!(st.outer_selected, 1);
}

#[test]
fn edit_keys_carry_the_window_source() {
    let backed = Window::new(
        "w".to_string(),
        vec![cmd("x")],
        0,
        Some("/home/user/.w.borrow".to_string()),
    );
    let mut st = state_with(vec![backed]);
    assert_eq!(
        st.step(KeyEvent::EditInPlace),
        Outcome::Edit(Some("/home/user/.w.borrow".to_string()), false)
    );
    assert_eq!(st.mode, Mode::Menu);
    assert_eq!(
        st.step(KeyEvent::EditAndExit),
        Outcome::Edit(Some("/home/user/.w.borrow".to_string()), true)
    );
    st.step(KeyEvent::Confirm);
    assert_eq!(
        st.step(KeyEvent::EditInPlace),
        Outcome::Edit(Some("/home/user/.w.borrow".to_string()), false)
    );
}

#[test]
fn synthetic_window_edit_carries_no_source() {
    let mut st = state_with(vec![window_with("history", &["ls"])]);
    assert_eq!(st.step(KeyEvent::EditInPlace), Outcome::Edit(None, false));
}

#[test]
fn other_characters_are_ignored() {
    let mut st = state_with(vec![window_with("w", &["x", "y"])]);
    assert_eq!(st.step(KeyEvent::Char('z')), Outcome::Continue);
    assert_eq!(st.outer_selected, 0);
    st.step(KeyEvent::Confirm);
    assert_eq!(st.step(KeyEvent::Char('q')), Outcome::Continue);
    assert_eq!(st.windows.windows[0].selected, 0);
}
