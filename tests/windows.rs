use focus_nav::ambience::{track_for_domain, AmbienceEngine, AmbientTrack};
use focus_nav::assets::{cache_file_name, url_to_filename, AssetType};
use focus_nav::types::{LayoutMode, ListDirection, WASDKey};
use focus_nav::window::{CompositorSlot, StateManager, WindowState};
use std::hash::{Hash, Hasher};

#[test]
fn windows_fill_slots_left_first() {
    let mut m = StateManager::new();
    let a = m.spawn_window("A".to_string(), Some("btn".to_string()), Some("dom".to_string())).unwrap();
    assert_eq!(a.slot, CompositorSlot::Left);
    assert_eq!(a.title, "Window - A");
    assert_eq!(a.id.len(), 36);
    assert_eq!(a.z_order, 1);
    assert_eq!(a.state, WindowState::Minimized);
    let b = m.spawn_window("B".to_string(), None, None).unwrap();
    assert_eq!(b.slot, CompositorSlot::Right);
    assert_eq!(b.z_order, 2);
    assert_ne!(a.id, b.id);
    assert!(m.spawn_window("C".to_string(), None, None).is_none());
    assert!(!m.is_slot_available(CompositorSlot::Left));
    assert_eq!(m.get_window_in_slot(CompositorSlot::Right).unwrap().id, b.id);
    let closed = m.close_window(&a.id).unwrap();
    assert_eq!(closed.source_element_id, Some("btn".to_string()));
    assert!(m.is_slot_available(CompositorSlot::Left));
    let all = m.get_all_windows();
    assert_eq!(all.len(), 1);
    assert_eq!(all[0].z_order, 1);
    let c = m.spawn_window("C".to_string(), None, None).unwrap();
    assert_eq!(c.slot, CompositorSlot::Left);
    assert_eq!(c.z_order, 2);
}

#[test]
fn window_state_changes() {
    let mut m = StateManager::new();
    assert!(m.spawn_window_with_id("w1".to_string(), "K".to_string(), None, None).is_some());
    assert!(m.spawn_window_with_id("w1".to_string(), "K".to_string(), None, None).is_none());
    let w = m.set_window_state("w1", WindowState::Maximized).unwrap();
    assert_eq!(w.state, WindowState::Maximized);
    assert!(m.set_window_state("nope", WindowState::Hidden).is_none());
    assert!(m.close_window("nope").is_none());
}

#[test]
fn asset_names() {
    assert_eq!(AssetType::Image.extension(), "jpg");
    assert_eq!(AssetType::Other("ogg".to_string()).extension(), "ogg");
    assert_eq!(AssetType::Document.subdirectory(), "documents");
    assert_eq!(AssetType::Other("ogg".to_string()).subdirectory(), "other");
    assert_eq!(AssetType::Video.display_name(), "Video");
    assert_eq!(AssetType::Other("ogg".to_string()).display_name(), "Other(ogg)");
    assert_eq!(cache_file_name(255, &AssetType::Audio), "ff.mp3");
    assert_eq!(cache_file_name(0, &AssetType::Image), "0.jpg");
}

#[test]
fn url_file_name_uses_hash() {
    let url = "https://example.com/a.png";
    let mut h = std::collections::hash_map::DefaultHasher::new();
    url.hash(&mut h);
    let expected = format!("{:x}.jpg", h.finish());
    assert_eq!(url_to_filename(url, &AssetType::Image), expected);
    assert_ne!(url_to_filename(url, &AssetType::Image), url_to_filename("https://example.com/b.png", &AssetType::Image));
}

#[test]
fn ambient_track_follows_domain_name() {
    assert_eq!(track_for_domain("osbar-nav"), AmbientTrack::Home);
    assert_eq!(track_for_domain("window-header-3"), AmbientTrack::WindowHeader);
    assert_eq!(track_for_domain("terminal"), AmbientTrack::Terminal);
    assert_eq!(track_for_domain("settings"), AmbientTrack::Terminal);
    assert_eq!(track_for_domain("osba"), AmbientTrack::Terminal);
}

#[test]
fn names_parse() {
    assert_eq!(LayoutMode::from_name("grid", None), Some(LayoutMode::Grid { columns: 3 }));
    assert_eq!(LayoutMode::from_name("grid", Some(4)), Some(LayoutMode::Grid { columns: 4 }));
    assert_eq!(
        LayoutMode::from_name("list-horizontal", None),
        Some(LayoutMode::List { direction: ListDirection::Horizontal })
    );
    assert_eq!(LayoutMode::from_name("spatial", Some(2)), Some(LayoutMode::Spatial));
    assert_eq!(LayoutMode::from_name("Grid", None), None);
    assert_eq!(WindowState::from_name("Closing"), Some(WindowState::Closing));
    assert_eq!(WindowState::from_name("closing"), None);
    assert_eq!(WASDKey::S.direction_name(), "down");
}

#[test]
fn ambience_switches_only_on_change() {
    let mut engine = AmbienceEngine::new();
    assert_eq!(engine.update_context("osbar-nav"), Some(AmbientTrack::Home));
    assert_eq!(engine.update_context("osbar-2"), None);
    assert_eq!(engine.update_context("term"), Some(AmbientTrack::Terminal));
    assert_eq!(engine.current_track, AmbientTrack::Terminal);
}
