use fuzzy_select::selector::{Match, Selector, SelectorMode};
use fuzzy_select::ui::{calculate_window_size, Action, Key, UI};

const HL: &str = "\x1b[1m\x1b[4m";
const SEL: &str = "\x1b[48;5;1m";
const RESET: &str = "\x1b[0m";
const ERASE: &str = "\x1b[1G\x1b[2K";

fn ui(mode: SelectorMode, words: &[&str], size: usize) -> UI {
    let items = words.iter().map(|w| w.to_string()).collect();
    UI::new(Selector::new(mode, items), size)
}

fn view(ms: &[Match]) -> Vec<(usize, Vec<(usize, usize)>)> {
    ms.iter().map(|m| (m.index, m.highlight.clone())).collect()
}

fn drawn(a: Action) -> String {
    match a {
        Action::Draw(s) => s,
        Action::Exit { .. } => panic!("the session ended"),
    }
}

fn visible_texts(u: &UI) -> Vec<String> {
    let items = u.selector().items();
    u.visible_matches().iter().map(|m| items[m.index].clone()).collect()
}

#[test]
fn end_to_end_fixed_down_enter() {
    let mut u = ui(SelectorMode::FixedString, &["a", "boo", "foo", "gloo"], 10);
    u.start();
    drawn(u.handle_key(Key::Char('o')));
    drawn(u.handle_key(Key::Char('o')));
    assert_eq!(u.pattern(), "oo");
    assert_eq!(visible_texts(&u), vec!["boo", "foo", "gloo"]);
    assert_eq!(view(u.visible_matches()), vec![(1, vec![(1, 3)]), (2, vec![(1, 3)]), (3, vec![(2, 4)])]);
    assert_eq!(u.selected(), 0);
    drawn(u.handle_key(Key::Down));
    assert_eq!(u.selected(), 1);
    match u.handle_key(Key::Enter) {
        Action::Exit { committed, .. } => assert_eq!(committed, Some("foo".to_string())),
        Action::Draw(_) => panic!("enter must end the session"),
    }
}

#[test]
fn selection_clamps_when_matches_shrink() {
    let mut u = ui(SelectorMode::FixedString, &["ab", "ac", "ad"], 10);
    u.start();
    drawn(u.handle_key(Key::Down));
    drawn(u.handle_key(Key::Down));
    assert_eq!(u.selected(), 2);
    drawn(u.handle_key(Key::Char('a')));
    assert_eq!(u.selected(), 2);
    drawn(u.handle_key(Key::Char('c')));
    assert_eq!(visible_texts(&u), vec!["ac"]);
    assert_eq!(u.selected(), 0);
    drawn(u.handle_key(Key::Char('x')));
    assert!(u.visible_matches().is_empty());
    assert_eq!(u.selected(), 0);
    match u.handle_key(Key::Enter) {
        Action::Exit { committed, .. } => assert_eq!(committed, None),
        Action::Draw(_) => panic!("enter must end the session"),
    }
}

#[test]
fn interrupt_and_escape_discard() {
    for key in [Key::Interrupt, Key::Escape] {
        let mut u = ui(SelectorMode::FixedString, &["a", "b"], 10);
        u.start();
        match u.handle_key(key) {
            Action::Exit { committed, cleanup } => {
                assert_eq!(committed, None);
                assert_eq!(cleanup, format!("{ERASE}\x1b[s\x1b[1E{ERASE}\x1b[1E{ERASE}\x1b[u"));
            }
            Action::Draw(_) => panic!("the key must end the session"),
        }
    }
}

#[test]
fn backspace_edits_pattern() {
    let mut u = ui(SelectorMode::FixedString, &["ab", "b"], 10);
    u.start();
    drawn(u.handle_key(Key::Char('a')));
    assert_eq!(visible_texts(&u), vec!["ab"]);
    let frame = drawn(u.handle_key(Key::Backspace));
    assert_eq!(u.pattern(), "");
    assert_eq!(visible_texts(&u), vec!["ab", "b"]);
    assert!(frame.starts_with(&format!("{ERASE}> \x1b[s\x1b[1E")));
    drawn(u.handle_key(Key::Backspace));
    assert_eq!(u.pattern(), "");
}

#[test]
fn ignored_keys_change_nothing() {
    let mut u = ui(SelectorMode::FixedString, &["ab"], 10);
    u.start();
    assert_eq!(drawn(u.handle_key(Key::Other)), "");
    assert_eq!(drawn(u.handle_key(Key::Char('\u{7}'))), "");
    assert_eq!(drawn(u.handle_key(Key::Char('é'))), "");
    assert_eq!(u.pattern(), "");
}

#[test]
fn up_down_without_matches_do_nothing() {
    let mut u = ui(SelectorMode::FixedString, &["ab"], 10);
    u.start();
    drawn(u.handle_key(Key::Char('z')));
    assert_eq!(drawn(u.handle_key(Key::Up)), "");
    assert_eq!(drawn(u.handle_key(Key::Down)), "");
}

#[test]
fn moving_redraws_two_lines() {
    let mut u = ui(SelectorMode::FixedString, &["a", "boo", "foo", "gloo"], 10);
    u.start();
    drawn(u.handle_key(Key::Char('o')));
    drawn(u.handle_key(Key::Char('o')));
    let frame = drawn(u.handle_key(Key::Down));
    let old_line = format!("\x1b[s\x1b[1E{ERASE}b{HL}oo{RESET}\x1b[u");
    let new_line = format!("\x1b[s\x1b[2E{ERASE}{SEL}f{RESET}{HL}{SEL}oo{RESET}\x1b[u");
    assert_eq!(frame, format!("{old_line}{new_line}"));
}

#[test]
fn first_frame_draws_prompt_and_items() {
    let mut u = ui(SelectorMode::FixedString, &["ab", "c"], 10);
    let frame = u.start();
    let expected = format!(
        "> \x1b[s\x1b[1E{ERASE}{SEL}ab{RESET}\x1b[1E{ERASE}c\x1b[1E\x1b[u"
    );
    assert_eq!(frame, expected);
}

#[test]
fn typing_erases_stale_lines() {
    let mut u = ui(SelectorMode::FixedString, &["ab", "c"], 10);
    u.start();
    let frame = drawn(u.handle_key(Key::Char('a')));
    let expected = format!(
        "a\x1b[s\x1b[1E{ERASE}{HL}{SEL}a{RESET}{SEL}b{RESET}\x1b[1E{ERASE}\x1b[1E\x1b[u"
    );
    assert_eq!(frame, expected);
}

#[test]
fn scrolling_at_the_edges() {
    let mut u = ui(SelectorMode::FixedString, &["a1", "a2", "a3", "a4"], 2);
    u.start();
    assert_eq!(visible_texts(&u), vec!["a1", "a2"]);
    drawn(u.handle_key(Key::Down));
    assert_eq!(u.selected(), 1);
    drawn(u.handle_key(Key::Down));
    assert_eq!(visible_texts(&u), vec!["a2", "a3"]);
    assert_eq!(u.selected(), 1);
    drawn(u.handle_key(Key::Down));
    drawn(u.handle_key(Key::Down));
    assert_eq!(visible_texts(&u), vec!["a3", "a4"]);
    drawn(u.handle_key(Key::Up));
    assert_eq!(u.selected(), 0);
    drawn(u.handle_key(Key::Up));
    assert_eq!(visible_texts(&u), vec!["a2", "a3"]);
    assert_eq!(u.selected(), 0);
    match u.handle_key(Key::Enter) {
        Action::Exit { committed, .. } => assert_eq!(committed, Some("a2".to_string())),
        Action::Draw(_) => panic!("enter must end the session"),
    }
}

#[test]
fn window_size_from_terminal() {
    assert_eq!(calculate_window_size(5, 30), (20, 0));
    assert_eq!(calculate_window_size(10, 20), (9, 0));
    assert_eq!(calculate_window_size(28, 30), (2, 1));
    assert_eq!(calculate_window_size(29, 30), (2, 2));
    assert_eq!(calculate_window_size(40, 30), (2, 2));
}
