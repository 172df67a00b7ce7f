use bartog::card::Suit;
use bartog::log::{describe_draw, describe_play, describe_wild, EventLog, LOG_WINDOW};

#[test]
fn event_lines_use_the_right_article() {
    assert_eq!(describe_play(0, 0), "Cpu 0 played an Ace of Clubs");
    assert_eq!(describe_play(3, 20), "You played an Eight of Diamonds");
    assert_eq!(describe_play(1, 41), "Cpu 1 played a Three of Spades");
    assert_eq!(describe_play(2, 38), "Cpu 2 played a King of Hearts");
    assert_eq!(describe_draw(2), "Cpu 2 drew a card");
    assert_eq!(describe_wild(3, Suit::Hearts), "You selected Hearts");
}

#[test]
fn log_window_scrolls_within_the_lines() {
    let mut log = EventLog::new();
    assert!(log.visible().is_empty());
    log.scroll_down();
    log.scroll_up();
    for i in 0..12 {
        log.push(format!("line {}", i));
    }
    assert_eq!(log.len(), 12);
    let v = log.visible();
    assert_eq!(v.len(), LOG_WINDOW);
    assert_eq!(v[0], "line 0");
    for _ in 0..20 {
        log.scroll_down();
    }
    assert_eq!(log.visible(), vec!["line 11".to_string()]);
    log.scroll_up();
    assert_eq!(log.visible()[0], "line 10");
}
