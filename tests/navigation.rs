use focus_nav::domain::Domain;
use focus_nav::navigator::{focus_arrived, DomainNavigator, FALLBACK_DOMAIN_ID};
use focus_nav::types::{ElementType, GateDirection, LayoutMode, ListDirection, NavigationResult, Rect, WASDKey};

fn vertical() -> LayoutMode {
    LayoutMode::List { direction: ListDirection::Vertical }
}

fn rect(x: i32, y: i32, w: i32, h: i32) -> Option<Rect> {
    Some(Rect { x, y, width: w, height: h })
}

#[test]
fn test_domain_registration() {
    let mut nav = DomainNavigator::new();
    nav.register_domain("test-domain".to_string(), None, LayoutMode::List { direction: ListDirection::Vertical })
        .unwrap();
    assert_eq!(nav.get_active_domain_id(), Some("test-domain".to_string()));
}

#[test]
fn test_button_registration() {
    let mut nav = DomainNavigator::new();
    nav.register_domain("test-domain".to_string(), None, LayoutMode::List { direction: ListDirection::Vertical })
        .unwrap();
    nav.register_button("test-domain".to_string(), "btn-1".to_string(), None, 0).unwrap();
    let cursor = nav.get_cursor_position().unwrap();
    assert_eq!(cursor.element_id, "btn-1");
    assert_eq!(cursor.element_type, ElementType::Button);
}

#[test]
fn test_list_navigation() {
    let mut nav = DomainNavigator::new();
    nav.register_domain("test-domain".to_string(), None, LayoutMode::List { direction: ListDirection::Vertical })
        .unwrap();
    for i in 0..3 {
        nav.register_button("test-domain".to_string(), format!("btn-{}", i), None, i).unwrap();
    }
    let cursor = nav.get_cursor_position().unwrap();
    assert_eq!(cursor.element_id, "btn-0");
    let result = nav.handle_wasd_input(WASDKey::S);
    if let NavigationResult::CursorMoved { element_id, .. } = result {
        assert_eq!(element_id, "btn-1");
    } else {
        panic!("Expected CursorMoved");
    }
    let result = nav.handle_wasd_input(WASDKey::S);
    if let NavigationResult::CursorMoved { element_id, .. } = result {
        assert_eq!(element_id, "btn-2");
    } else {
        panic!("Expected CursorMoved");
    }
    let result = nav.handle_wasd_input(WASDKey::S);
    assert!(matches!(result, NavigationResult::BoundaryReached));
}

#[test]
fn test_button_unregister_reregister_preserves_cursor() {
    let mut nav = DomainNavigator::new();
    nav.register_domain("test-domain".to_string(), None, LayoutMode::List { direction: ListDirection::Horizontal })
        .unwrap();
    nav.register_button("test-domain".to_string(), "btn-min".to_string(), None, 0).unwrap();
    nav.register_button("test-domain".to_string(), "btn-max".to_string(), None, 1).unwrap();
    nav.register_button("test-domain".to_string(), "btn-close".to_string(), None, 2).unwrap();
    nav.handle_wasd_input(WASDKey::D);
    let cursor = nav.get_cursor_position().unwrap();
    assert_eq!(cursor.element_id, "btn-max");
    nav.unregister_button("test-domain", "btn-min").unwrap();
    nav.unregister_button("test-domain", "btn-max").unwrap();
    nav.unregister_button("test-domain", "btn-close").unwrap();
    assert!(nav.get_cursor_position().is_none());
    nav.register_button("test-domain".to_string(), "btn-min".to_string(), None, 0).unwrap();
    nav.register_button("test-domain".to_string(), "btn-max".to_string(), None, 1).unwrap();
    nav.register_button("test-domain".to_string(), "btn-close".to_string(), None, 2).unwrap();
    let cursor = nav.get_cursor_position().unwrap();
    assert_eq!(
        cursor.element_id, "btn-max",
        "Cursor should be restored to the same button after re-registration"
    );
}

#[test]
fn duplicate_domain_fails_and_count_follows() {
    let mut nav = DomainNavigator::new();
    nav.register_domain("a".to_string(), None, vertical()).unwrap();
    nav.register_domain("b".to_string(), None, vertical()).unwrap();
    let err = nav.register_domain("a".to_string(), None, vertical()).unwrap_err();
    assert_eq!(err, "Domain 'a' already exists");
    assert_eq!(nav.get_all_domain_ids(), vec!["a".to_string(), "b".to_string()]);
    nav.unregister_domain("a").unwrap();
    assert_eq!(nav.get_all_domain_ids(), vec!["b".to_string()]);
    assert_eq!(nav.unregister_domain("a").unwrap_err(), "Domain 'a' not found");
    nav.register_domain("a".to_string(), None, vertical()).unwrap();
    assert_eq!(nav.get_all_domain_ids().len(), 2);
}

#[test]
fn other_element_first_leaves_cursor_unset() {
    let mut nav = DomainNavigator::new();
    nav.register_domain("d".to_string(), None, vertical()).unwrap();
    nav.register_button("d".to_string(), "x".to_string(), None, 0).unwrap();
    nav.register_button("d".to_string(), "y".to_string(), None, 1).unwrap();
    nav.handle_wasd_input(WASDKey::S);
    assert_eq!(nav.get_cursor_position().unwrap().element_id, "y");
    nav.unregister_button("d", "y").unwrap();
    nav.unregister_button("d", "x").unwrap();
    assert!(nav.get_cursor_position().is_none());
    nav.register_button("d".to_string(), "x".to_string(), None, 0).unwrap();
    assert!(nav.get_cursor_position().is_none());
    nav.register_button("d".to_string(), "z".to_string(), None, 2).unwrap();
    assert!(nav.get_cursor_position().is_none());
    nav.register_button("d".to_string(), "y".to_string(), None, 1).unwrap();
    let c = nav.get_cursor_position().unwrap();
    assert_eq!(c.domain_id, "d");
    assert_eq!(c.element_id, "y");
    let info = nav.get_domain_info("d").unwrap();
    let ids: Vec<String> = info.buttons.iter().map(|b| b.id.clone()).collect();
    assert_eq!(ids, vec!["x".to_string(), "y".to_string(), "z".to_string()]);
}

#[test]
fn elements_kept_sorted_by_order() {
    let mut nav = DomainNavigator::new();
    nav.register_domain("d".to_string(), None, vertical()).unwrap();
    nav.register_button("d".to_string(), "c".to_string(), None, 5).unwrap();
    nav.register_button("d".to_string(), "a".to_string(), None, 1).unwrap();
    nav.register_button("d".to_string(), "b".to_string(), None, 5).unwrap();
    let info: Domain = nav.get_domain_info("d").unwrap();
    let ids: Vec<String> = info.buttons.iter().map(|b| b.id.clone()).collect();
    assert_eq!(ids, vec!["a".to_string(), "c".to_string(), "b".to_string()]);
    assert_eq!(
        nav.register_button("d".to_string(), "a".to_string(), None, 0).unwrap_err(),
        "Button 'a' already exists in domain 'd'"
    );
    assert_eq!(
        nav.register_button("e".to_string(), "a".to_string(), None, 0).unwrap_err(),
        "Domain 'e' not found"
    );
    assert_eq!(nav.unregister_button("d", "q").unwrap_err(), "Button 'q' not found in domain 'd'");
    assert_eq!(nav.update_button_bounds("d", "q", None).unwrap_err(), "Button 'q' not found in domain 'd'");
    assert_eq!(nav.update_domain_bounds("e", None).unwrap_err(), "Domain 'e' not found");
    assert_eq!(nav.update_layout_mode("e", LayoutMode::Spatial).unwrap_err(), "Domain 'e' not found");
    assert_eq!(nav.set_active_domain("e".to_string()).unwrap_err(), "Domain 'e' not found");
    assert_eq!(nav.set_cursor_position("d", "q").unwrap_err(), "Element 'q' not found in domain 'd'");
    assert_eq!(nav.set_cursor_position("e", "q").unwrap_err(), "Domain 'e' not found");
}

#[test]
fn fallback_domain_takes_focus() {
    let mut nav = DomainNavigator::new();
    nav.register_domain(FALLBACK_DOMAIN_ID.to_string(), None, vertical()).unwrap();
    nav.register_button(FALLBACK_DOMAIN_ID.to_string(), "late".to_string(), None, 3).unwrap();
    nav.register_button(FALLBACK_DOMAIN_ID.to_string(), "early".to_string(), None, 1).unwrap();
    nav.register_domain("win".to_string(), None, vertical()).unwrap();
    nav.register_button("win".to_string(), "ok".to_string(), None, 0).unwrap();
    nav.set_cursor_position("win", "ok").unwrap();
    let recovered = nav.unregister_domain("win").unwrap().unwrap();
    assert_eq!(recovered.domain_id, FALLBACK_DOMAIN_ID);
    assert_eq!(recovered.element_id, "early");
    assert_eq!(nav.get_active_domain_id(), Some(FALLBACK_DOMAIN_ID.to_string()));
    assert_eq!(nav.get_cursor_position().unwrap().element_id, "early");
}

#[test]
fn no_fallback_clears_focus() {
    let mut nav = DomainNavigator::new();
    nav.register_domain("win".to_string(), None, vertical()).unwrap();
    nav.register_button("win".to_string(), "ok".to_string(), None, 0).unwrap();
    assert!(nav.unregister_domain("win").unwrap().is_none());
    assert!(nav.get_active_domain_id().is_none());
    assert!(nav.get_cursor_position().is_none());
    nav.register_domain("win".to_string(), None, vertical()).unwrap();
    assert_eq!(nav.get_active_domain_id(), Some("win".to_string()));
}

#[test]
fn switch_to_domain_outcomes() {
    let mut nav = DomainNavigator::new();
    nav.register_domain("a".to_string(), None, vertical()).unwrap();
    nav.register_domain("b".to_string(), None, vertical()).unwrap();
    nav.register_button("b".to_string(), "b2".to_string(), None, 2).unwrap();
    nav.register_button("b".to_string(), "b1".to_string(), None, 1).unwrap();
    match nav.switch_to_domain("b") {
        NavigationResult::DomainSwitched { from_domain, to_domain, new_element_id } => {
            assert_eq!(from_domain, "a");
            assert_eq!(to_domain, "b");
            assert_eq!(new_element_id, "b1");
        }
        other => panic!("unexpected {:?}", other),
    }
    assert_eq!(nav.get_cursor_position().unwrap().element_id, "b1");
    match nav.switch_to_domain("a") {
        NavigationResult::Error { message } => assert_eq!(message, "No elements in domain 'a'"),
        other => panic!("unexpected {:?}", other),
    }
    match nav.switch_to_domain("zz") {
        NavigationResult::Error { message } => assert_eq!(message, "Target domain 'zz' not found"),
        other => panic!("unexpected {:?}", other),
    }
    assert_eq!(nav.get_active_domain_id(), Some("b".to_string()));
}

#[test]
fn cursor_read_twice_is_stable() {
    let mut nav = DomainNavigator::new();
    nav.register_domain("a".to_string(), None, vertical()).unwrap();
    nav.register_button("a".to_string(), "x".to_string(), None, 0).unwrap();
    let first = nav.get_cursor_position().unwrap();
    let second = nav.get_cursor_position().unwrap();
    assert_eq!(first.domain_id, second.domain_id);
    assert_eq!(first.element_id, second.element_id);
}

#[test]
fn no_active_domain_and_empty_domain() {
    let mut nav = DomainNavigator::default();
    assert!(matches!(nav.handle_wasd_input(WASDKey::W), NavigationResult::NoActiveDomain));
    nav.register_domain("a".to_string(), None, vertical()).unwrap();
    assert!(matches!(nav.handle_wasd_input(WASDKey::W), NavigationResult::BoundaryReached));
}

#[test]
fn grid_domain_moves() {
    let mut nav = DomainNavigator::new();
    nav.register_domain("g".to_string(), None, LayoutMode::Grid { columns: 3 }).unwrap();
    for i in 0..5 {
        nav.register_button("g".to_string(), format!("e{}", i), None, i).unwrap();
    }
    nav.set_cursor_position("g", "e1").unwrap();
    match nav.handle_wasd_input(WASDKey::S) {
        NavigationResult::CursorMoved { element_id, .. } => assert_eq!(element_id, "e4"),
        other => panic!("unexpected {:?}", other),
    }
    assert_eq!(nav.get_domain_info("g").unwrap().current_index, 4);
    assert!(matches!(nav.handle_wasd_input(WASDKey::D), NavigationResult::BoundaryReached));
}

#[test]
fn crossing_into_adjacent_domain() {
    let mut nav = DomainNavigator::new();
    nav.register_domain("left".to_string(), None, vertical()).unwrap();
    nav.register_button("left".to_string(), "l0".to_string(), None, 0).unwrap();
    nav.update_domain_bounds("left", rect(0, 0, 100, 100)).unwrap();
    nav.register_domain("right".to_string(), None, vertical()).unwrap();
    nav.register_button("right".to_string(), "r0".to_string(), None, 0).unwrap();
    nav.update_domain_bounds("right", rect(200, 0, 100, 100)).unwrap();
    nav.register_domain("far".to_string(), None, vertical()).unwrap();
    nav.register_button("far".to_string(), "f0".to_string(), None, 0).unwrap();
    nav.update_domain_bounds("far", rect(200, 400, 100, 100)).unwrap();
    match nav.handle_wasd_input(WASDKey::D) {
        NavigationResult::DomainBoundaryCrossed { from_domain, to_domain, direction } => {
            assert_eq!(from_domain, "left");
            assert_eq!(to_domain, "right");
            assert_eq!(direction, "right");
        }
        other => panic!("unexpected {:?}", other),
    }
    assert!(matches!(nav.handle_wasd_input(WASDKey::A), NavigationResult::BoundaryReached));
    nav.domains[0].boundary_lock.push(GateDirection::Right);
    assert!(matches!(nav.handle_wasd_input(WASDKey::D), NavigationResult::BoundaryReached));
}

#[test]
fn spatial_domain_moves() {
    let mut nav = DomainNavigator::new();
    nav.register_domain("s".to_string(), None, LayoutMode::Spatial).unwrap();
    nav.register_button("s".to_string(), "origin".to_string(), rect(0, 0, 10, 10), 0).unwrap();
    nav.register_button("s".to_string(), "diag".to_string(), rect(30, 30, 10, 10), 1).unwrap();
    nav.register_button("s".to_string(), "ahead".to_string(), rect(50, 0, 10, 10), 2).unwrap();
    nav.register_button("s".to_string(), "nobounds".to_string(), None, 3).unwrap();
    match nav.handle_wasd_input(WASDKey::D) {
        NavigationResult::CursorMoved { element_id, .. } => assert_eq!(element_id, "ahead"),
        other => panic!("unexpected {:?}", other),
    }
    match nav.handle_wasd_input(WASDKey::A) {
        NavigationResult::CursorMoved { element_id, .. } => assert_eq!(element_id, "origin"),
        other => panic!("unexpected {:?}", other),
    }
    assert!(matches!(nav.handle_wasd_input(WASDKey::W), NavigationResult::BoundaryReached));
}

#[test]
fn key_and_edge_parsing() {
    assert_eq!(WASDKey::from_str("w"), Some(WASDKey::W));
    assert_eq!(WASDKey::from_str("D"), Some(WASDKey::D));
    assert_eq!(WASDKey::from_str("x"), None);
    assert_eq!(WASDKey::from_str("ww"), None);
    assert_eq!(GateDirection::from_str("TOP"), Some(GateDirection::Top));
    assert_eq!(GateDirection::from_str("Bottom"), Some(GateDirection::Bottom));
    assert_eq!(GateDirection::from_str("up"), None);
    assert_eq!(GateDirection::Left.name(), "left");
    assert_eq!(WASDKey::A.direction_vector(), (-1, 0));
    assert_eq!(WASDKey::W.edge(), GateDirection::Top);
}

#[test]
fn focus_arrival_is_reported_once() {
    let mut nav = DomainNavigator::new();
    nav.register_domain("d".to_string(), None, vertical()).unwrap();
    let before = nav.get_cursor_position();
    nav.register_button("d".to_string(), "x".to_string(), None, 0).unwrap();
    let after = nav.get_cursor_position();
    assert!(focus_arrived(&before, &after, "d", "x"));
    let before = nav.get_cursor_position();
    nav.register_button("d".to_string(), "y".to_string(), None, 1).unwrap();
    let after = nav.get_cursor_position();
    assert!(!focus_arrived(&before, &after, "d", "y"));
    assert!(!focus_arrived(&after, &after, "d", "x"));
}
