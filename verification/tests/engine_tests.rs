use paint_core::color::Color;
use paint_core::color_picker::{ColorPickerState, HueSliderState};
use paint_core::font::setup_fonts;
use paint_core::layer_system::{LayerManager, LayerRenameState};
use paint_core::paint_engine::PaintEngine;
use paint_core::tools::{Tool, ToolSettings};

fn opaque_black() -> Color {
    Color::rgba(0, 0, 0, 255)
}

fn opaque_white() -> Color {
    Color::rgba(255, 255, 255, 255)
}

#[test]
fn stroke_lifecycle_idle_drawing_idle() {
    let mut m = LayerManager::with_size(100, 100).unwrap();
    let mut e = PaintEngine::new(100, 100);
    let tools = ToolSettings::default();
    assert!(!e.is_drawing);
    assert!(e.get_current_stroke().is_none());
    e.start_stroke(10, 10, &tools);
    assert!(e.is_drawing);
    assert_eq!(e.get_current_stroke().unwrap().points.len(), 1);
    e.continue_stroke(20, 10);
    assert_eq!(e.get_current_stroke().unwrap().points.len(), 2);
    e.end_stroke(&mut m);
    assert!(!e.is_drawing);
    assert!(e.get_current_stroke().is_none());
    assert_eq!(m.get_layer(0).unwrap().stroke_count(), 1);
}

#[test]
fn horizontal_stroke_paints_the_segment_and_nothing_far_from_it() {
    // 100x100 canvas, one default layer; a stroke from (10,10) to (20,10)
    // with width 10, opaque black.
    let mut m = LayerManager::with_size(100, 100).unwrap();
    let mut e = PaintEngine::new(100, 100);
    let tools = ToolSettings::default();
    assert_eq!(tools.brush_size, 10);
    e.start_stroke(10, 10, &tools);
    e.continue_stroke(20, 10);
    e.end_stroke(&mut m);
    let out = m.composite().unwrap();
    // Pixels well within radius 5 of the segment are opaque black.
    for x in 10..=20 {
        assert_eq!(out.pixel(x, 10), opaque_black(), "on-segment at x = {}", x);
    }
    assert_eq!(out.pixel(15, 12), opaque_black());
    assert_eq!(out.pixel(12, 8), opaque_black());
    // Pixels farther than half the width plus the interpolation margin
    // remain untouched: the composite shows the white background there.
    assert_eq!(out.pixel(15, 20), opaque_white());
    assert_eq!(out.pixel(30, 10), opaque_white());
    assert_eq!(out.pixel(2, 10), opaque_white());
    assert_eq!(out.pixel(70, 70), opaque_white());
}

#[test]
fn single_click_commits_a_visible_dot() {
    let mut m = LayerManager::with_size(100, 100).unwrap();
    let mut e = PaintEngine::new(100, 100);
    let tools = ToolSettings::default();
    e.start_stroke(50, 50, &tools);
    e.end_stroke(&mut m);
    let out = m.composite().unwrap();
    assert_eq!(out.pixel(50, 50), opaque_black());
    assert_eq!(out.pixel(57, 50), opaque_white());
}

#[test]
fn cancel_discards_the_stroke() {
    let mut m = LayerManager::with_size(100, 100).unwrap();
    let mut e = PaintEngine::new(100, 100);
    let tools = ToolSettings::default();
    e.start_stroke(10, 10, &tools);
    e.continue_stroke(20, 20);
    e.cancel_stroke();
    assert!(!e.is_drawing);
    e.end_stroke(&mut m);
    assert_eq!(m.get_layer(0).unwrap().stroke_count(), 0);
    let out = m.composite().unwrap();
    assert_eq!(out.pixel(10, 10), opaque_white());
}

#[test]
fn brush_settings_are_frozen_at_stroke_start() {
    let mut m = LayerManager::with_size(100, 100).unwrap();
    let mut e = PaintEngine::new(100, 100);
    let mut tools = ToolSettings::default();
    tools.set_brush_color(Color::rgba(200, 10, 10, 255));
    e.start_stroke(10, 10, &tools);
    // Tool changes during the stroke must not retroactively affect it.
    tools.set_brush_color(Color::rgba(0, 200, 0, 255));
    tools.set_brush_size(50);
    e.continue_stroke(20, 10);
    e.end_stroke(&mut m);
    let committed = &m.get_layer(0).unwrap().strokes[0];
    assert_eq!(committed.color, Color::rgba(200, 10, 10, 255));
    assert_eq!(committed.stroke_width, 10);
}

#[test]
fn render_preview_shows_uncommitted_stroke() {
    let mut m = LayerManager::with_size(100, 100).unwrap();
    let mut e = PaintEngine::new(100, 100);
    let tools = ToolSettings::default();
    e.start_stroke(30, 30, &tools);
    let preview = e.render_preview(&m).unwrap();
    assert_eq!(preview.pixel(30, 30), opaque_black());
    // Nothing was committed: the stack still composites to plain white.
    assert_eq!(m.get_layer(0).unwrap().stroke_count(), 0);
    let out = m.composite().unwrap();
    assert_eq!(out.pixel(30, 30), opaque_white());
}

#[test]
fn eraser_paints_the_background_color() {
    let mut tools = ToolSettings::default();
    tools.set_tool(Tool::Eraser);
    assert!(tools.is_eraser());
    assert_eq!(tools.get_current_color(), opaque_white());
    tools.set_tool(Tool::Pen);
    assert!(!tools.is_eraser());
}

#[test]
fn pen_color_carries_brush_opacity() {
    let mut tools = ToolSettings::default();
    tools.set_brush_color(Color::rgba(10, 20, 30, 255));
    tools.set_brush_opacity(90);
    assert_eq!(tools.get_current_color(), Color::rgba(10, 20, 30, 90));
}

#[test]
fn brush_size_is_clamped() {
    let mut tools = ToolSettings::default();
    tools.set_brush_size(0);
    assert_eq!(tools.brush_size, 1);
    tools.set_brush_size(1000);
    assert_eq!(tools.brush_size, 200);
    tools.set_brush_size(42);
    assert_eq!(tools.brush_size, 42);
}

#[test]
fn tool_defaults() {
    let tools = ToolSettings::default();
    assert_eq!(tools.current_tool, Tool::Pen);
    assert_eq!(tools.brush_size, 10);
    assert_eq!(tools.brush_opacity, 255);
    assert_eq!(tools.brush_color, opaque_black());
    assert_eq!(tools.background_color, opaque_white());
    assert_eq!(Tool::default(), Tool::Pen);
}

#[test]
fn engine_resize_keeps_stroke_state() {
    let mut e = PaintEngine::new(100, 100);
    let tools = ToolSettings::default();
    e.start_stroke(5, 5, &tools);
    e.resize(200, 150);
    assert_eq!(e.width, 200);
    assert_eq!(e.height, 150);
    assert!(e.is_drawing);
}

#[test]
fn end_stroke_without_drawing_changes_nothing() {
    let mut m = LayerManager::with_size(100, 100).unwrap();
    let mut e = PaintEngine::new(100, 100);
    e.end_stroke(&mut m);
    assert_eq!(m.get_layer(0).unwrap().stroke_count(), 0);
    assert_eq!(m.layer_count(), 1);
}

#[test]
fn ui_state_defaults() {
    assert!(!ColorPickerState::default().is_dragging);
    assert!(!HueSliderState::default().is_dragging);
    let r = LayerRenameState::default();
    assert!(r.editing_layer.is_none());
    assert_eq!(r.temp_name, "");
}

#[test]
fn setup_fonts_bundles_no_data() {
    assert!(setup_fonts().is_empty());
}
