use resize_tree::policy::{Dimensions, ResizeDecision, MAX_HEIGHT};

fn dims(width: u32, height: u32) -> Dimensions {
    Dimensions { width, height }
}

#[test]
fn landscape_is_strictly_wider() {
    assert!(dims(3000, 2000).is_landscape());
    assert!(!dims(2000, 3000).is_landscape());
    assert!(!dims(500, 500).is_landscape());
}

#[test]
fn landscape_above_threshold_resizes_to_height() {
    assert_eq!(dims(5000, 2161).decide(MAX_HEIGHT), ResizeDecision::ResizeToHeight(2160));
    assert!(dims(5000, 2161).should_resize());
}

#[test]
fn landscape_at_threshold_copies() {
    assert_eq!(dims(5000, 2160).decide(MAX_HEIGHT), ResizeDecision::Copy);
    assert!(!dims(5000, 2160).should_resize());
}

#[test]
fn landscape_compares_short_edge_only() {
    // the long edge far above the threshold does not matter
    assert_eq!(dims(100000, 1000).decide(MAX_HEIGHT), ResizeDecision::Copy);
}

#[test]
fn portrait_above_threshold_resizes_to_width() {
    assert_eq!(dims(2161, 4000).decide(MAX_HEIGHT), ResizeDecision::ResizeToWidth(2160));
    assert!(dims(2161, 4000).should_resize());
}

#[test]
fn portrait_at_threshold_copies() {
    assert_eq!(dims(2160, 9000).decide(MAX_HEIGHT), ResizeDecision::Copy);
}

#[test]
fn square_counts_as_portrait() {
    assert_eq!(dims(3000, 3000).decide(MAX_HEIGHT), ResizeDecision::ResizeToWidth(2160));
    assert_eq!(dims(2160, 2160).decide(MAX_HEIGHT), ResizeDecision::Copy);
}

#[test]
fn other_thresholds() {
    assert_eq!(dims(800, 600).decide(500), ResizeDecision::ResizeToHeight(500));
    assert_eq!(dims(600, 800).decide(500), ResizeDecision::ResizeToWidth(500));
    assert_eq!(dims(800, 600).decide(600), ResizeDecision::Copy);
    assert!(dims(800, 601).should_resize_at(600));
}

#[test]
fn geometry_texts() {
    assert_eq!(ResizeDecision::ResizeToHeight(2160).geometry(), Some("x2160".to_string()));
    assert_eq!(ResizeDecision::ResizeToWidth(2160).geometry(), Some("2160".to_string()));
    assert_eq!(ResizeDecision::ResizeToWidth(7).geometry(), Some("7".to_string()));
    assert_eq!(ResizeDecision::Copy.geometry(), None);
}
