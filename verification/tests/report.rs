use swarm_core::report::{push_decimal, render_stats};
use swarm_core::substrate::Stats;

#[test]
fn push_decimal_appends_the_digits() {
    let mut text = String::from("n=");
    push_decimal(&mut text, 0);
    assert_eq!(text, "n=0");
    push_decimal(&mut text, 9);
    push_decimal(&mut text, 10);
    push_decimal(&mut text, 1_234_567_890);
    assert_eq!(text, "n=09101234567890");
    let mut text = String::new();
    push_decimal(&mut text, usize::MAX);
    assert_eq!(text, usize::MAX.to_string());
}

#[test]
fn render_stats_labels_each_count() {
    let s = Stats { particles: 12, forming: 5, floating: 7, text_coords: 300 };
    assert_eq!(render_stats(s), "particles: 12, forming: 5, floating: 7, text_coords: 300");
}
