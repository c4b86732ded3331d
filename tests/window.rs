use fuzzy_select::sliding_window::SlidingWindow;
use fuzzy_select::ui::window::Window;

#[test]
fn scrolling_past_the_end_self_corrects() {
    let items = [1, 2, 3];
    let mut w = SlidingWindow::new(3);
    for _ in 0..5 {
        w.scroll_down();
    }
    assert_eq!(w.offset(), 5);
    let shown = w.apply(&items);
    assert_eq!(shown, &[1, 2, 3]);
    assert_eq!(w.offset(), 0);
}

#[test]
fn window_shows_min_of_size_and_len() {
    let items = [1, 2, 3, 4, 5];
    let mut w = SlidingWindow::new(2);
    assert_eq!(w.apply(&items), &[1, 2]);
    w.scroll_down();
    w.scroll_down();
    assert_eq!(w.apply(&items), &[3, 4]);
    for _ in 0..10 {
        w.scroll_down();
    }
    assert_eq!(w.apply(&items), &[4, 5]);
    assert_eq!(w.offset(), 3);
    let short = [7];
    assert_eq!(w.apply(&short), &[7]);
    assert_eq!(w.offset(), 0);
}

#[test]
fn scroll_up_stops_at_zero() {
    let items = [1, 2, 3, 4];
    let mut w = SlidingWindow::new(2);
    w.scroll_up();
    assert_eq!(w.offset(), 0);
    w.scroll_down();
    w.scroll_up();
    w.scroll_up();
    assert_eq!(w.apply(&items), &[1, 2]);
}

#[test]
fn empty_input_gives_empty_window() {
    let items: [u8; 0] = [];
    let mut w = SlidingWindow::new(4);
    w.scroll_down();
    assert!(w.apply(&items).is_empty());
    assert_eq!(w.offset(), 0);
}

#[test]
fn ui_window_behaves_alike() {
    let items = [1, 2, 3];
    let mut w = Window::new(2);
    for _ in 0..5 {
        w.scroll_down();
    }
    assert_eq!(w.apply(&items), &[2, 3]);
    w.scroll_up();
    assert_eq!(w.apply(&items), &[1, 2]);
}
