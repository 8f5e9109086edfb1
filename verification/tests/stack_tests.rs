use paint_core::color::Color;
use paint_core::layer_system::{Layer, LayerAction, LayerManager, LayerPanelAction};
use paint_core::paint_engine::PaintStroke;

#[test]
fn layer_allocation_failure_on_degenerate_size() {
    assert!(Layer::new(String::from("a"), 0, 10).is_none());
    assert!(Layer::new(String::from("a"), 10, 0).is_none());
}

#[test]
fn new_layer_defaults() {
    let l = Layer::new(String::from("sketch"), 8, 8).unwrap();
    assert_eq!(l.name, "sketch");
    assert!(l.visible);
    assert_eq!(l.opacity, 255);
    assert_eq!(l.strokes.len(), 0);
    assert_eq!(l.pixmap.width, 8);
    assert_eq!(l.pixmap.height, 8);
}

#[test]
fn layer_add_stroke_keeps_surface_and_history_in_sync() {
    let mut l = Layer::new(String::from("a"), 32, 32).unwrap();
    let mut s = PaintStroke::new(Color::rgba(0, 0, 0, 255), 6);
    s.add_point(16, 16);
    l.add_stroke(s);
    assert_eq!(l.stroke_count(), 1);
    assert!(l.pixmap.pixel(16, 16).a > 0);
}

#[test]
fn layer_clear_resets_surface_and_history() {
    let mut l = Layer::new(String::from("a"), 32, 32).unwrap();
    let mut s = PaintStroke::new(Color::rgba(0, 0, 0, 255), 6);
    s.add_point(16, 16);
    l.add_stroke(s);
    l.clear();
    assert_eq!(l.stroke_count(), 0);
    assert_eq!(l.pixmap.pixel(16, 16), Color::transparent());
}

#[test]
fn stack_allocation_failure_on_degenerate_size() {
    assert!(LayerManager::with_size(0, 0).is_none());
    assert!(LayerManager::with_size(100, 0).is_none());
}

#[test]
fn stack_starts_with_one_default_layer() {
    let m = LayerManager::new();
    assert_eq!(m.layer_count(), 1);
    assert_eq!(m.active_layer_index(), 0);
    assert_eq!(m.get_layer(0).unwrap().name, "Layer 1");
}

#[test]
fn added_layer_becomes_active() {
    let mut m = LayerManager::with_size(64, 64).unwrap();
    let idx = m.add_layer(String::from("ink"));
    assert_eq!(idx, 1);
    assert_eq!(m.layer_count(), 2);
    assert_eq!(m.active_layer_index(), 1);
    assert_eq!(m.get_active_layer().unwrap().name, "ink");
}

#[test]
fn remove_last_layer_is_a_noop() {
    let mut m = LayerManager::with_size(64, 64).unwrap();
    assert!(!m.remove_layer(0));
    assert_eq!(m.layer_count(), 1);
}

#[test]
fn remove_out_of_range_is_a_noop() {
    let mut m = LayerManager::with_size(64, 64).unwrap();
    m.add_layer(String::from("b"));
    assert!(!m.remove_layer(7));
    assert_eq!(m.layer_count(), 2);
}

#[test]
fn layer_count_stays_positive_through_add_remove_sequences() {
    let mut m = LayerManager::with_size(64, 64).unwrap();
    m.add_layer(String::from("b"));
    m.add_layer(String::from("c"));
    m.remove_layer(0);
    m.remove_layer(0);
    m.remove_layer(0);
    m.remove_layer(0);
    assert_eq!(m.layer_count(), 1);
    m.add_layer(String::from("d"));
    m.remove_layer(1);
    m.remove_layer(0);
    assert!(m.layer_count() >= 1);
}

#[test]
fn remove_repairs_active_index() {
    let mut m = LayerManager::with_size(64, 64).unwrap();
    m.add_layer(String::from("b"));
    m.add_layer(String::from("c"));
    // layers: [Layer 1, b, c], active 2.
    assert!(m.remove_layer(2));
    // Removed index was active: previous neighbor, clamped.
    assert_eq!(m.active_layer_index(), 1);
    m.add_layer(String::from("d"));
    // layers: [Layer 1, b, d], active 2. Remove below the active index.
    assert!(m.remove_layer(0));
    assert_eq!(m.active_layer_index(), 1);
    assert_eq!(m.get_active_layer().unwrap().name, "d");
}

#[test]
fn move_layer_up_then_down_restores_order() {
    let mut m = LayerManager::with_size(64, 64).unwrap();
    m.add_layer(String::from("b"));
    m.add_layer(String::from("c"));
    let names = |m: &LayerManager| -> Vec<String> {
        m.get_layers().iter().map(|l| l.name.clone()).collect()
    };
    let before = names(&m);
    assert!(m.move_layer_up(0));
    assert_eq!(names(&m), vec!["b".to_string(), "Layer 1".to_string(), "c".to_string()]);
    assert!(m.move_layer_down(1));
    assert_eq!(names(&m), before);
}

#[test]
fn move_at_boundary_is_a_noop() {
    let mut m = LayerManager::with_size(64, 64).unwrap();
    m.add_layer(String::from("b"));
    assert!(!m.move_layer_up(1));
    assert!(!m.move_layer_down(0));
    assert!(!m.move_layer_up(5));
    assert!(!m.move_layer_down(5));
}

#[test]
fn moving_the_active_layer_keeps_it_active() {
    let mut m = LayerManager::with_size(64, 64).unwrap();
    m.add_layer(String::from("b"));
    m.set_active_layer(0);
    assert!(m.move_layer_up(0));
    assert_eq!(m.active_layer_index(), 1);
    assert_eq!(m.get_active_layer().unwrap().name, "Layer 1");
}

#[test]
fn set_active_layer_rejects_out_of_range() {
    let mut m = LayerManager::with_size(64, 64).unwrap();
    assert!(!m.set_active_layer(3));
    assert_eq!(m.active_layer_index(), 0);
    m.add_layer(String::from("b"));
    assert!(m.set_active_layer(0));
    assert_eq!(m.active_layer_index(), 0);
}

#[test]
fn get_layer_out_of_range_is_none() {
    let m = LayerManager::with_size(64, 64).unwrap();
    assert!(m.get_layer(0).is_some());
    assert!(m.get_layer(1).is_none());
}

#[test]
fn handle_action_add_names_layers_in_sequence() {
    let mut m = LayerManager::with_size(64, 64).unwrap();
    m.handle_action(LayerAction::Add);
    m.handle_action(LayerAction::Add);
    assert_eq!(m.get_layer(1).unwrap().name, "Layer 2");
    assert_eq!(m.get_layer(2).unwrap().name, "Layer 3");
    assert_eq!(m.active_layer_index(), 2);
}

#[test]
fn handle_action_delete_protects_last_layer() {
    let mut m = LayerManager::with_size(64, 64).unwrap();
    m.handle_action(LayerAction::Delete);
    assert_eq!(m.layer_count(), 1);
    m.handle_action(LayerAction::Add);
    m.handle_action(LayerAction::Delete);
    assert_eq!(m.layer_count(), 1);
}

#[test]
fn handle_action_metadata_updates() {
    let mut m = LayerManager::with_size(64, 64).unwrap();
    m.handle_action(LayerAction::SetOpacity(0, 77));
    assert_eq!(m.get_layer(0).unwrap().opacity, 77);
    m.handle_action(LayerAction::SetVisible(0, false));
    assert!(!m.get_layer(0).unwrap().visible);
    m.handle_action(LayerAction::Rename(0, String::from("base")));
    assert_eq!(m.get_layer(0).unwrap().name, "base");
    m.handle_action(LayerAction::SetOpacity(9, 1));
    assert_eq!(m.get_layer(0).unwrap().opacity, 77);
}

#[test]
fn handle_layer_action_toggle_visibility() {
    let mut m = LayerManager::with_size(64, 64).unwrap();
    m.handle_layer_action(LayerPanelAction::ToggleVisibility(0));
    assert!(!m.get_layer(0).unwrap().visible);
    m.handle_layer_action(LayerPanelAction::ToggleVisibility(0));
    assert!(m.get_layer(0).unwrap().visible);
    m.handle_layer_action(LayerPanelAction::Idle);
    assert_eq!(m.layer_count(), 1);
}

#[test]
fn total_stroke_count_sums_all_layers() {
    let mut m = LayerManager::with_size(64, 64).unwrap();
    let mut s1 = PaintStroke::new(Color::rgba(0, 0, 0, 255), 4);
    s1.add_point(5, 5);
    m.add_stroke_to_active(s1);
    m.add_layer(String::from("b"));
    let mut s2 = PaintStroke::new(Color::rgba(0, 0, 0, 255), 4);
    s2.add_point(6, 6);
    m.add_stroke_to_active(s2);
    let mut s3 = PaintStroke::new(Color::rgba(0, 0, 0, 255), 4);
    s3.add_point(7, 7);
    m.add_stroke_to_active(s3);
    assert_eq!(m.total_stroke_count(), 3);
}

#[test]
fn visible_strokes_skip_hidden_layers() {
    let mut m = LayerManager::with_size(64, 64).unwrap();
    let mut s1 = PaintStroke::new(Color::rgba(0, 0, 0, 255), 4);
    s1.add_point(5, 5);
    m.add_stroke_to_active(s1);
    m.add_layer(String::from("b"));
    m.set_layer_opacity(1, 99);
    let mut s2 = PaintStroke::new(Color::rgba(10, 0, 0, 255), 4);
    s2.add_point(6, 6);
    m.add_stroke_to_active(s2);
    let all = m.get_visible_strokes();
    assert_eq!(all.len(), 2);
    assert_eq!(all[0].1, 255);
    assert_eq!(all[1].1, 99);
    assert_eq!(all[1].0.color, Color::rgba(10, 0, 0, 255));
    m.set_layer_visible(0, false);
    let some = m.get_visible_strokes();
    assert_eq!(some.len(), 1);
    assert_eq!(some[0].1, 99);
}

#[test]
fn clear_active_and_clear_all() {
    let mut m = LayerManager::with_size(32, 32).unwrap();
    let mut s1 = PaintStroke::new(Color::rgba(0, 0, 0, 255), 4);
    s1.add_point(5, 5);
    m.add_stroke_to_active(s1);
    m.add_layer(String::from("b"));
    let mut s2 = PaintStroke::new(Color::rgba(0, 0, 0, 255), 4);
    s2.add_point(6, 6);
    m.add_stroke_to_active(s2);
    m.clear_active_layer();
    assert_eq!(m.get_layer(1).unwrap().stroke_count(), 0);
    assert_eq!(m.get_layer(0).unwrap().stroke_count(), 1);
    m.clear_all_layers();
    assert_eq!(m.total_stroke_count(), 0);
}

#[test]
fn resize_discards_content_but_keeps_history() {
    let mut m = LayerManager::with_size(32, 32).unwrap();
    let mut s = PaintStroke::new(Color::rgba(0, 0, 0, 255), 6);
    s.add_point(10, 10);
    m.add_stroke_to_active(s);
    assert!(m.get_layer(0).unwrap().pixmap.pixel(10, 10).a > 0);
    assert!(m.resize(48, 24));
    let l = m.get_layer(0).unwrap();
    assert_eq!(l.pixmap.width, 48);
    assert_eq!(l.pixmap.height, 24);
    assert_eq!(l.pixmap.pixel(10, 10), Color::transparent());
    assert_eq!(l.stroke_count(), 1);
}

#[test]
fn resize_to_degenerate_size_is_a_noop() {
    let mut m = LayerManager::with_size(32, 32).unwrap();
    assert!(!m.resize(0, 10));
    let l = m.get_layer(0).unwrap();
    assert_eq!(l.pixmap.width, 32);
    assert_eq!(l.pixmap.height, 32);
}

#[test]
fn mutable_layer_access() {
    let mut m = LayerManager::with_size(32, 32).unwrap();
    {
        let l = m.get_active_layer_mut().unwrap();
        l.set_opacity(40);
    }
    assert_eq!(m.get_layer(0).unwrap().opacity, 40);
    {
        let l = m.get_layer_mut(0).unwrap();
        l.set_visible(false);
    }
    assert!(!m.get_layer(0).unwrap().visible);
    assert!(m.get_layer_mut(5).is_none());
}
