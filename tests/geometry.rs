use focus_nav::layout::{navigate_grid, navigate_list};
use focus_nav::spatial::{find_nearest_in_direction, is_in_direction, score_no_worse};
use focus_nav::types::{Rect, WASDKey};

fn r(x: i32, y: i32) -> Rect {
    Rect { x, y, width: 10, height: 10 }
}

#[test]
fn test_grid_navigation() {
    let columns = 3;
    let total = 9;
    assert_eq!(navigate_grid(4, total, columns, WASDKey::W), Some(1));
    assert_eq!(navigate_grid(4, total, columns, WASDKey::S), Some(7));
    assert_eq!(navigate_grid(4, total, columns, WASDKey::A), Some(3));
    assert_eq!(navigate_grid(4, total, columns, WASDKey::D), Some(5));
    assert_eq!(navigate_grid(0, total, columns, WASDKey::W), None);
    assert_eq!(navigate_grid(0, total, columns, WASDKey::A), None);
}

#[test]
fn test_vertical_list_navigation() {
    let total = 5;
    assert_eq!(navigate_list(2, total, true, WASDKey::W), Some(1));
    assert_eq!(navigate_list(2, total, true, WASDKey::S), Some(3));
    assert_eq!(navigate_list(2, total, true, WASDKey::A), None);
    assert_eq!(navigate_list(2, total, true, WASDKey::D), None);
    assert_eq!(navigate_list(0, total, true, WASDKey::W), None);
    assert_eq!(navigate_list(4, total, true, WASDKey::S), None);
}

#[test]
fn test_directional_filtering() {
    assert!(is_in_direction(0, 0, 5, 0, 1, 0));
    assert!(is_in_direction(0, 0, 5, 1, 1, 0));
    assert!(!is_in_direction(0, 0, -5, 0, 1, 0));
}

#[test]
fn grid_short_last_row_and_edges() {
    assert_eq!(navigate_grid(1, 5, 3, WASDKey::S), Some(4));
    assert_eq!(navigate_grid(2, 5, 3, WASDKey::S), None);
    assert_eq!(navigate_grid(2, 5, 3, WASDKey::D), None);
    assert_eq!(navigate_grid(4, 5, 3, WASDKey::D), None);
    assert_eq!(navigate_grid(8, 9, 3, WASDKey::S), None);
    assert_eq!(navigate_grid(0, 0, 3, WASDKey::D), None);
}

#[test]
fn horizontal_list_moves() {
    assert_eq!(navigate_list(2, 5, false, WASDKey::A), Some(1));
    assert_eq!(navigate_list(2, 5, false, WASDKey::D), Some(3));
    assert_eq!(navigate_list(2, 5, false, WASDKey::W), None);
    assert_eq!(navigate_list(4, 5, false, WASDKey::D), None);
    assert_eq!(navigate_list(0, 0, true, WASDKey::S), None);
}

#[test]
fn score_comparison_is_exact() {
    assert!(score_no_worse(9, 0, 16, 0));
    assert!(!score_no_worse(16, 0, 9, 0));
    assert!(score_no_worse(2, 1, 8, 0));
    assert!(!score_no_worse(8, 0, 2, 1));
    assert!(score_no_worse(25, 0, 16, 1));
    assert!(score_no_worse(16, 1, 25, 0));
    assert!(!score_no_worse(26, 0, 16, 1));
}

#[test]
fn nothing_behind_is_chosen() {
    let cands = vec![("behind".to_string(), r(-50, 0)), ("above".to_string(), r(0, -50))];
    assert_eq!(find_nearest_in_direction(&r(0, 0), &cands, WASDKey::D), None);
    let cands = vec![("level".to_string(), r(0, 0))];
    assert_eq!(find_nearest_in_direction(&r(0, 0), &cands, WASDKey::D), None);
}

#[test]
fn aligned_candidate_wins() {
    let cands = vec![
        ("off".to_string(), r(40, 30)),
        ("aligned".to_string(), r(60, 0)),
        ("behind".to_string(), r(-5, 0)),
    ];
    assert_eq!(find_nearest_in_direction(&r(0, 0), &cands, WASDKey::D), Some("aligned".to_string()));
    let cands = vec![("first".to_string(), r(0, 40)), ("twin".to_string(), r(0, 40))];
    assert_eq!(find_nearest_in_direction(&r(0, 0), &cands, WASDKey::S), Some("first".to_string()));
    let cands = vec![("near".to_string(), r(3, 20)), ("far".to_string(), r(0, 100))];
    assert_eq!(find_nearest_in_direction(&r(0, 0), &cands, WASDKey::S), Some("near".to_string()));
}

#[test]
fn centre_is_doubled() {
    assert_eq!(Rect { x: 1, y: 2, width: 3, height: 5 }.center(), (5, 9));
}
