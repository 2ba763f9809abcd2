use particles::atlas::{AtlasInsert, AtlasPx, AtlasRectPx, GlyphAtlas, GlyphKey as AtlasKey};
use particles::button::{button_clicked, button_hovered, ButtonState};
use particles::debug_font::DebugFont;
use particles::dispatch::{
    billboard_vertex_count, billboard_workgroups, nucleus_capacity, reset_workgroups,
    simulation_workgroups, workgroup_count,
};
use particles::events::{InteractionEvent, TargetedEvent};
use particles::input::{MouseButton, MouseButtons};
use particles::layout::{Layout, Overflow};
use particles::node::NodeId;
use particles::particle::{color_charges_attract, is_quark, ColorCharge, ParticleType, QuarkFlavor};
use particles::picking::{decode_pick, PickFormat, PickResult, PickTarget};
use particles::render::{
    batch_draws, grown_capacity, next_power_of_two, scissor_from_bounds, uses_sdf, ClippedDraw,
    RenderMode, ScissorRect,
};
use particles::slider::{slider_dragging, slider_hovered};
use particles::stats::{handle_input, Corner, StatsConfig, StatsDetail};
use particles::text::{atlas_key, place_glyph, quad_indices, FontId, GlyphKey};
use particles::text_input::{
    text_input_blurred, text_input_clicked, text_input_focused, text_input_update,
    text_input_update_allowed, InputState, Key, NamedKey,
};
use particles::toggle::toggle_clicked;

fn ev(target: &str, event: InteractionEvent) -> TargetedEvent {
    TargetedEvent { target: NodeId::new(target.to_string()), event }
}

fn typed(chars: &str, keys: Vec<Key>) -> InputState {
    InputState { characters_typed: chars.chars().collect(), keys_just_pressed: keys }
}

fn edit(value: &str, cursor: usize, input: &InputState, focused: bool) -> (String, usize, bool) {
    let mut v = value.to_string();
    let mut c = cursor;
    let changed = text_input_update("input", &mut v, &mut c, &[], input, focused);
    (v, c, changed)
}

// ---------------------------------------------------------------- particles

#[test]
fn color_codes_roundtrip() {
    let all = [
        ColorCharge::Red,
        ColorCharge::Green,
        ColorCharge::Blue,
        ColorCharge::AntiRed,
        ColorCharge::AntiGreen,
        ColorCharge::AntiBlue,
    ];
    for (i, c) in all.iter().enumerate() {
        assert_eq!(c.to_u32(), i as u32);
        assert_eq!(ColorCharge::from_u32(i as u32), Some(*c));
    }
    assert_eq!(ColorCharge::from_u32(6), None);
    assert_eq!(ColorCharge::from_u32(u32::MAX), None);
}

#[test]
fn particle_type_codes() {
    assert_eq!(ParticleType::QuarkUp.to_u32(), 0);
    assert_eq!(ParticleType::Electron.to_u32(), 2);
    assert_eq!(ParticleType::Neutron.to_u32(), 5);
    assert_eq!(ParticleType::from_u32(4), Some(ParticleType::Proton));
    assert_eq!(ParticleType::from_u32(3), Some(ParticleType::Gluon));
    assert_eq!(ParticleType::from_u32(9), None);
    assert_eq!(QuarkFlavor::Up.to_u32(), 0);
    assert_eq!(QuarkFlavor::Down.to_u32(), 1);
}

#[test]
fn only_quarks_are_quarks() {
    assert!(is_quark(Some(ParticleType::QuarkUp)));
    assert!(is_quark(Some(ParticleType::QuarkDown)));
    assert!(!is_quark(Some(ParticleType::Electron)));
    assert!(!is_quark(Some(ParticleType::Proton)));
    assert!(!is_quark(None));
}

#[test]
fn colour_attraction() {
    let (red, green, blue) = (ColorCharge::Red, ColorCharge::Green, ColorCharge::Blue);
    assert!(color_charges_attract(Some(red), Some(ColorCharge::AntiRed)));
    assert!(color_charges_attract(Some(ColorCharge::AntiBlue), Some(blue)));
    assert!(color_charges_attract(Some(red), Some(green)));
    assert!(color_charges_attract(Some(green), Some(red)));
    assert!(!color_charges_attract(Some(red), Some(red)));
    assert!(!color_charges_attract(Some(ColorCharge::AntiGreen), Some(ColorCharge::AntiGreen)));
    assert!(!color_charges_attract(None, Some(red)));
    assert!(!color_charges_attract(Some(blue), None));
    assert!(!color_charges_attract(None, None));
}

// ---------------------------------------------------------------- atlas

#[test]
fn atlas_rect_accessors() {
    let r = AtlasRectPx::new(AtlasPx::new(3, 4), [10, 20]);
    assert_eq!(r.width(), 10);
    assert_eq!(r.height(), 20);
    assert_eq!(r.max_x(), 13);
    assert_eq!(r.max_y(), 24);
    let edge = AtlasRectPx::new(AtlasPx::new(u32::MAX - 5, 0), [5, 0]);
    assert_eq!(edge.max_x(), u32::MAX);
    assert_eq!(edge.max_y(), 0);
}

#[test]
fn atlas_shelf_packing() {
    let mut atlas = GlyphAtlas::new(64, 64, 1);
    assert_eq!(atlas.width(), 64);
    assert_eq!(atlas.height(), 64);
    assert_eq!(atlas.padding_px(), 1);

    let k1 = AtlasKey::new(1, 10, 16, 0);
    let k2 = AtlasKey::new(1, 11, 16, 0);
    let k3 = AtlasKey::new(1, 12, 16, 0);

    let p1 = match atlas.insert(k1.clone(), [10, 12]) {
        AtlasInsert::Placed(p) => p,
        other => panic!("expected placement, got {:?}", other),
    };
    assert_eq!(p1.rect_px, AtlasRectPx::new(AtlasPx::new(0, 0), [12, 14]));
    assert_eq!(p1.padding_px, 1);
    assert_eq!(p1.uv_px.min, [1, 1]);
    assert_eq!(p1.uv_px.max, [11, 13]);
    assert_eq!(GlyphAtlas::upload_rect_px(p1), p1.rect_px);

    // Same key again: cache hit.
    assert_eq!(atlas.insert(k1.clone(), [10, 12]), AtlasInsert::AlreadyPresent);
    assert_eq!(atlas.get(&k1), Some(p1));

    // Same height: continues the first shelf.
    let p2 = match atlas.insert(k2.clone(), [10, 12]) {
        AtlasInsert::Placed(p) => p,
        other => panic!("expected placement, got {:?}", other),
    };
    assert_eq!(p2.rect_px.min, AtlasPx::new(12, 0));
    assert_eq!(p2.uv_px.min, [13, 1]);

    // Taller: opens a new shelf below.
    let p3 = match atlas.insert(k3.clone(), [10, 20]) {
        AtlasInsert::Placed(p) => p,
        other => panic!("expected placement, got {:?}", other),
    };
    assert_eq!(p3.rect_px, AtlasRectPx::new(AtlasPx::new(0, 14), [12, 22]));
}

#[test]
fn atlas_full_and_empty_bitmaps() {
    let mut atlas = GlyphAtlas::new(32, 32, 2);
    let wide = AtlasKey::new(0, 1, 12, 0);
    assert_eq!(atlas.insert(wide.clone(), [40, 5]), AtlasInsert::Full);
    assert_eq!(atlas.get(&wide), None);

    let space = AtlasKey::new(0, 2, 12, 0);
    match atlas.insert(space.clone(), [0, 5]) {
        AtlasInsert::Placed(p) => {
            assert_eq!(p.rect_px.size, [0, 0]);
            assert_eq!(p.padding_px, 2);
        }
        other => panic!("expected placement, got {:?}", other),
    }

    // Fill the atlas vertically until it reports Full.
    let mut full = false;
    for g in 10..40u32 {
        if atlas.insert(AtlasKey::new(0, g, 12, 0), [28, 10]) == AtlasInsert::Full {
            full = true;
            break;
        }
    }
    assert!(full);
}

#[test]
fn atlas_clear_forgets_glyphs() {
    let mut atlas = GlyphAtlas::new(64, 64, 0);
    let k = AtlasKey::new(5, 6, 7, 8);
    assert!(matches!(atlas.insert(k.clone(), [4, 4]), AtlasInsert::Placed(_)));
    atlas.clear();
    assert_eq!(atlas.get(&k), None);
    match atlas.insert(k.clone(), [4, 4]) {
        AtlasInsert::Placed(p) => assert_eq!(p.rect_px.min, AtlasPx::new(0, 0)),
        other => panic!("expected placement, got {:?}", other),
    }
}

#[test]
fn atlas_placements_do_not_overlap() {
    let mut atlas = GlyphAtlas::new(100, 100, 1);
    let mut rects: Vec<AtlasRectPx> = Vec::new();
    for g in 0..40u32 {
        let w = 3 + (g * 7) % 11;
        let h = 4 + (g * 5) % 9;
        if let AtlasInsert::Placed(p) = atlas.insert(AtlasKey::new(9, g, 14, 0), [w, h]) {
            assert!(p.rect_px.max_x() <= 100 && p.rect_px.max_y() <= 100);
            rects.push(p.rect_px);
        }
    }
    for i in 0..rects.len() {
        for j in (i + 1)..rects.len() {
            let (a, b) = (rects[i], rects[j]);
            let disjoint = a.max_x() <= b.min.x
                || b.max_x() <= a.min.x
                || a.max_y() <= b.min.y
                || b.max_y() <= a.min.y;
            assert!(disjoint, "{:?} overlaps {:?}", a, b);
        }
    }
}

// ---------------------------------------------------------------- text keys

#[test]
fn text_key_maps_to_atlas_key() {
    let k = GlyphKey::new(FontId(7), 42, 16, 0);
    let a = atlas_key(&k);
    assert_eq!(a, AtlasKey::new(7, 42, 16, 0));
    let neg = GlyphKey::new(FontId(7), 42, 16, -1);
    assert_eq!(atlas_key(&neg).variant, 0xFFFF);
    let pos = GlyphKey::new(FontId(7), 42, 16, 32);
    assert_eq!(atlas_key(&pos).variant, 32);
    assert_ne!(atlas_key(&neg), atlas_key(&k));
}

#[test]
fn place_glyph_uploads_once() {
    let mut atlas = GlyphAtlas::new(64, 64, 1);
    let k = GlyphKey::new(FontId(1), 3, 12, 0);
    let (first, upload) = place_glyph(&mut atlas, &k, [6, 8]);
    assert!(upload);
    let first = first.expect("room for the glyph");
    assert_eq!(first.uv_px.min, [1, 1]);
    assert_eq!(first.uv_px.max, [7, 9]);
    let (again, upload_again) = place_glyph(&mut atlas, &k, [6, 8]);
    assert!(!upload_again);
    assert_eq!(again, Some(first));
    let big = GlyphKey::new(FontId(1), 4, 12, 0);
    assert_eq!(place_glyph(&mut atlas, &big, [100, 8]), (None, false));
}

#[test]
fn glyph_quad_indices() {
    assert_eq!(quad_indices(0), [0, 1, 2, 0, 2, 3]);
    assert_eq!(quad_indices(8), [8, 9, 10, 8, 10, 11]);
}

// ---------------------------------------------------------------- debug font

#[test]
fn debug_font_metrics() {
    let f = DebugFont::new();
    let m = f.metrics();
    assert_eq!(m.advance_px, 8);
    assert_eq!(m.height_px, 12);
    assert_eq!(m.baseline_from_top_px, 9);
}

fn px(g: &particles::debug_font::GlyphBitmap, x: u32, y: u32) -> u8 {
    g.pixels[(y * g.size_px[0] + x) as usize]
}

#[test]
fn debug_font_digit_one() {
    let g = DebugFont::new().rasterize_glyph('1', 1);
    assert_eq!(g.ch, '1');
    assert_eq!(g.size_px, [8, 12]);
    assert_eq!(g.pixels.len(), 96);
    assert_eq!(g.bearing_px, [0, -12]);
    assert_eq!(g.advance_px, [8, 0]);
    for y in 0..12 {
        for x in 0..8 {
            let want = if x == 6 && (2..10).contains(&y) { 255 } else { 0 };
            assert_eq!(px(&g, x, y), want, "pixel ({}, {})", x, y);
        }
    }
}

#[test]
fn debug_font_placeholder_box() {
    let g = DebugFont::new().rasterize_glyph('@', 1);
    for y in 0..12u32 {
        for x in 0..8u32 {
            let on_border = ((y == 2 || y == 9) && (1..7).contains(&x))
                || ((x == 1 || x == 6) && (2..10).contains(&y));
            assert_eq!(px(&g, x, y), if on_border { 255 } else { 0 }, "pixel ({}, {})", x, y);
        }
    }
}

#[test]
fn debug_font_space_and_scale() {
    let space = DebugFont::new().rasterize_glyph(' ', 3);
    assert_eq!(space.size_px, [24, 36]);
    assert!(space.pixels.iter().all(|&p| p == 0));
    assert_eq!(space.advance_px, [24, 0]);

    let zero_scale = DebugFont::new().rasterize_glyph('1', 0);
    assert_eq!(zero_scale.size_px, [8, 12]);

    let big = DebugFont::new().rasterize_glyph('1', 2);
    assert_eq!(big.size_px, [16, 24]);
    // The right stroke is two pixels thick at scale 2.
    assert_eq!(px(&big, 12, 10), 255);
    assert_eq!(px(&big, 13, 10), 255);
    assert_eq!(px(&big, 11, 10), 0);
}

#[test]
fn debug_font_punctuation_is_inked() {
    for ch in ['.', '-', '/', '#', '(', '"'] {
        let g = DebugFont::new().rasterize_glyph(ch, 1);
        assert!(g.pixels.iter().any(|&p| p == 255), "{:?} has no ink", ch);
        assert!(g.pixels.iter().all(|&p| p == 0 || p == 255));
    }
}

// ---------------------------------------------------------------- text input

#[test]
fn typing_inserts_at_cursor() {
    let input = typed("xy", vec![]);
    assert_eq!(edit("ab", 1, &input, true), ("axyb".to_string(), 3, true));
}

#[test]
fn typing_multibyte_moves_cursor_by_bytes() {
    let input = typed("é", vec![]);
    assert_eq!(edit("ab", 0, &input, true), ("éab".to_string(), 2, true));
    let input = typed("日", vec![]);
    assert_eq!(edit("", 0, &input, true), ("日".to_string(), 3, true));
}

#[test]
fn unfocused_input_ignores_keys() {
    let input = typed("zz", vec![Key::Named(NamedKey::Backspace)]);
    assert_eq!(edit("abc", 2, &input, false), ("abc".to_string(), 2, false));
}

#[test]
fn backspace_removes_previous_character() {
    let bs = typed("", vec![Key::Named(NamedKey::Backspace)]);
    assert_eq!(edit("abc", 2, &bs, true), ("ac".to_string(), 1, true));
    assert_eq!(edit("aé", 3, &bs, true), ("a".to_string(), 1, true));
    assert_eq!(edit("abc", 0, &bs, true), ("abc".to_string(), 0, false));
    assert_eq!(edit("", 0, &bs, true), ("".to_string(), 0, false));
}

#[test]
fn delete_removes_character_at_cursor() {
    let del = typed("", vec![Key::Named(NamedKey::Delete)]);
    assert_eq!(edit("abc", 1, &del, true), ("ac".to_string(), 1, true));
    assert_eq!(edit("é!", 0, &del, true), ("!".to_string(), 0, true));
    assert_eq!(edit("abc", 3, &del, true), ("abc".to_string(), 3, false));
}

#[test]
fn arrows_home_end_move_cursor() {
    let left = typed("", vec![Key::Named(NamedKey::ArrowLeft)]);
    let right = typed("", vec![Key::Named(NamedKey::ArrowRight)]);
    let home = typed("", vec![Key::Named(NamedKey::Home)]);
    let end = typed("", vec![Key::Named(NamedKey::End)]);
    assert_eq!(edit("aéb", 3, &left, true), ("aéb".to_string(), 1, false));
    assert_eq!(edit("aéb", 1, &right, true), ("aéb".to_string(), 3, false));
    assert_eq!(edit("aéb", 0, &left, true), ("aéb".to_string(), 0, false));
    assert_eq!(edit("aéb", 4, &right, true), ("aéb".to_string(), 4, false));
    assert_eq!(edit("aéb", 2 + 1, &home, true), ("aéb".to_string(), 0, false));
    assert_eq!(edit("aéb", 0, &end, true), ("aéb".to_string(), 4, false));
}

#[test]
fn typing_then_keys_in_one_frame() {
    // Characters are inserted first, then keys apply in order.
    let input = typed(
        "XY",
        vec![Key::Named(NamedKey::Backspace), Key::Named(NamedKey::Home), Key::Character("q".to_string())],
    );
    assert_eq!(edit("ab", 2, &input, true), ("abX".to_string(), 0, true));
}

#[test]
fn type_then_backspace_restores_text() {
    let input = typed("ü", vec![Key::Named(NamedKey::Backspace)]);
    let (v, c, changed) = edit("hello", 2, &input, true);
    assert_eq!((v.as_str(), c), ("hello", 2));
    assert!(changed);
}

#[test]
fn cursor_inside_a_character() {
    // "aé": bytes a | 0xC3 0xA9; byte 2 lies inside 'é'.
    let left = typed("", vec![Key::Named(NamedKey::ArrowLeft)]);
    let right = typed("", vec![Key::Named(NamedKey::ArrowRight)]);
    let bs = typed("", vec![Key::Named(NamedKey::Backspace)]);
    assert!(text_input_update_allowed(&"aé".to_string(), 2, &left));
    assert_eq!(edit("aé", 2, &left, true), ("aé".to_string(), 1, false));
    assert_eq!(edit("aé", 2, &right, true), ("aé".to_string(), 3, false));
    assert_eq!(edit("aé", 2, &bs, true), ("a".to_string(), 1, true));
    let del = typed("", vec![Key::Named(NamedKey::Delete)]);
    assert!(!text_input_update_allowed(&"aé".to_string(), 2, &del));
    assert!(!text_input_update_allowed(&"aé".to_string(), 2, &typed("x", vec![])));
    // Moving onto a boundary first makes a later Delete allowed.
    let left_del = typed("", vec![Key::Named(NamedKey::ArrowLeft), Key::Named(NamedKey::Delete)]);
    assert!(text_input_update_allowed(&"aé".to_string(), 2, &left_del));
    assert_eq!(edit("aé", 2, &left_del, true), ("a".to_string(), 1, true));
}

#[test]
fn cursor_beyond_the_end() {
    let input = typed("xy", vec![]);
    assert!(text_input_update_allowed(&"abc".to_string(), 10, &input));
    assert_eq!(edit("abc", 10, &input, true), ("abc".to_string(), 10, false));
    let left = typed("", vec![Key::Named(NamedKey::ArrowLeft)]);
    assert_eq!(edit("abc", 10, &left, true), ("abc".to_string(), 3, false));
    let end = typed("", vec![Key::Named(NamedKey::End)]);
    assert_eq!(edit("abc", 10, &end, true), ("abc".to_string(), 3, false));
    let bs = typed("", vec![Key::Named(NamedKey::Backspace)]);
    assert!(!text_input_update_allowed(&"abc".to_string(), 10, &bs));
    assert!(text_input_update_allowed(&"".to_string(), 10, &bs));
    assert_eq!(edit("", 10, &bs, true), ("".to_string(), 10, false));
    let home_bs = typed("", vec![Key::Named(NamedKey::Home), Key::Named(NamedKey::Backspace)]);
    assert!(text_input_update_allowed(&"abc".to_string(), 10, &home_bs));
}

#[test]
fn text_input_event_queries() {
    let events = vec![
        ev("name", InteractionEvent::Click),
        ev("email", InteractionEvent::Focus),
        ev("name", InteractionEvent::Blur),
    ];
    assert!(text_input_clicked("name", &events));
    assert!(!text_input_clicked("email", &events));
    assert!(text_input_focused("email", &events));
    assert!(!text_input_focused("name", &events));
    assert!(text_input_blurred("name", &events));
    assert!(!text_input_blurred("email", &events));
}

// ---------------------------------------------------------------- widgets

#[test]
fn button_state_priority() {
    let mut s = ButtonState::default();
    assert_eq!(s, ButtonState::Idle);
    s.update(true, false, true);
    assert_eq!(s, ButtonState::Hovered);
    s.update(true, true, true);
    assert_eq!(s, ButtonState::Pressed);
    s.update(false, true, true);
    assert_eq!(s, ButtonState::Pressed);
    s.update(true, true, false);
    assert_eq!(s, ButtonState::Disabled);
    s.update(false, false, true);
    assert_eq!(s, ButtonState::Idle);
}

#[test]
fn button_event_routing() {
    let events = vec![ev("ok", InteractionEvent::Click), ev("cancel", InteractionEvent::Hover)];
    assert!(button_clicked("ok", &events));
    assert!(!button_clicked("cancel", &events));
    assert!(button_hovered("cancel", &events));
    assert!(!button_hovered("ok", &events));
    assert!(!button_clicked("o", &events));
    assert!(!button_clicked("ok", &[]));
}

#[test]
fn toggle_click_on_knob_counts() {
    let on_knob = vec![ev("dark_mode_knob", InteractionEvent::Click)];
    assert!(toggle_clicked("dark_mode", &on_knob));
    let on_track = vec![ev("dark_mode", InteractionEvent::Click)];
    assert!(toggle_clicked("dark_mode", &on_track));
    let hover = vec![ev("dark_mode", InteractionEvent::Hover)];
    assert!(!toggle_clicked("dark_mode", &hover));
    let other = vec![ev("dark_mode_knob2", InteractionEvent::Click)];
    assert!(!toggle_clicked("dark_mode", &other));
}

#[test]
fn slider_hover_and_drag() {
    let events = vec![
        ev("volume_hitbox", InteractionEvent::Hover),
        ev("volume", InteractionEvent::DragMove),
        ev("gain", InteractionEvent::DragStart),
    ];
    assert!(slider_hovered("volume", &events));
    assert!(!slider_hovered("gain", &events));
    assert!(slider_dragging("volume", &events));
    assert!(slider_dragging("gain", &events));
    assert!(!slider_dragging("pan", &events));
    // The hitbox is the only node a slider names; a drag on it counts.
    let on_hitbox = vec![ev("vol_hitbox", InteractionEvent::DragMove)];
    assert!(slider_dragging("vol", &on_hitbox));
    let hover_hitbox = vec![ev("vol_hitbox", InteractionEvent::Hover)];
    assert!(slider_hovered("vol", &hover_hitbox));
    let container = vec![ev("vol_container", InteractionEvent::Hover)];
    assert!(!slider_hovered("vol", &container));
}

#[test]
fn node_id_roundtrip() {
    let id = NodeId::new("root/child".to_string());
    assert_eq!(id.as_str(), "root/child");
    assert_eq!(id.clone(), id);
    let borrowed: NodeId = NodeId::from("panel");
    assert_eq!(borrowed.as_str(), "panel");
    let from: NodeId = NodeId::from("panel".to_string());
    assert_eq!(from.as_str(), "panel");
    assert_ne!(from, id);
}

// ---------------------------------------------------------------- picking

#[test]
fn pick_decoding() {
    let r = decode_pick(PickFormat::Rgba8, [0x78, 0x56, 0x34, 0x12]);
    assert_eq!(r.id, 0x1234_5678);
    assert!(r.is_hit());
    let r = decode_pick(PickFormat::R32Uint, [0x01, 0, 0, 0x80]);
    assert_eq!(r.id, 0x8000_0001);
    let miss = decode_pick(PickFormat::Rgba8, [0, 0, 0, 0]);
    assert!(!miss.is_hit());
    assert!(!PickResult { id: 0 }.is_hit());
}

#[test]
fn pick_roundtrip_le_bytes() {
    for id in [0u32, 1, 255, 256, 0xDEAD_BEEF, u32::MAX] {
        assert_eq!(decode_pick(PickFormat::Rgba8, id.to_le_bytes()).id, id);
    }
}

#[test]
fn pick_target_sizes() {
    let mut t = PickTarget::new(0, 5);
    assert_eq!((t.width, t.height), (1, 5));
    assert!(!t.resize(1, 5));
    assert!(!t.resize(0, 5));
    assert!(t.resize(640, 480));
    assert_eq!((t.width, t.height), (640, 480));
    assert_eq!(t.read_origin(1000, 10), (639, 10));
    assert_eq!(t.read_origin(3, 479), (3, 479));
    assert_eq!(t.read_origin(3, 480), (3, 479));
}

// ---------------------------------------------------------------- renderer

fn draw(sc: (u32, u32, u32, u32), start: u32, end: u32) -> ClippedDraw {
    ClippedDraw {
        scissor: ScissorRect { x: sc.0, y: sc.1, width: sc.2, height: sc.3 },
        index_start: start,
        index_end: end,
    }
}

#[test]
fn render_mode_selects_sdf() {
    assert!(uses_sdf(RenderMode::Sdf));
    assert!(uses_sdf(RenderMode::Auto));
    assert!(!uses_sdf(RenderMode::Mesh));
}

#[test]
fn scissor_from_pixel_bounds() {
    assert_eq!(
        scissor_from_bounds(10, 20, 110, 70),
        Some(ScissorRect { x: 10, y: 20, width: 100, height: 50 })
    );
    assert_eq!(scissor_from_bounds(10, 20, 10, 70), None);
    assert_eq!(scissor_from_bounds(5, 5, 3, 9), None);
    assert_eq!(scissor_from_bounds(0, 0, i32::MIN, 9), None);
}

#[test]
fn batching_merges_contiguous_same_scissor() {
    let a = (0, 0, 100, 100);
    let b = (10, 10, 20, 20);
    let draws = vec![draw(a, 0, 6), draw(a, 6, 12), draw(b, 12, 18), draw(b, 18, 24), draw(a, 24, 30)];
    assert_eq!(batch_draws(&draws), vec![draw(a, 0, 12), draw(b, 12, 24), draw(a, 24, 30)]);
}

#[test]
fn batching_draws_every_index_once() {
    let a = (0, 0, 50, 50);
    let b = (5, 5, 10, 10);
    let draws = vec![draw(a, 0, 3), draw(a, 3, 9), draw(b, 9, 12), draw(a, 12, 15), draw(a, 15, 15)];
    let expand = |ds: &[ClippedDraw]| -> Vec<(u32, u32)> {
        ds.iter().flat_map(|d| (d.index_start..d.index_end).map(move |i| (d.scissor.x, i))).collect()
    };
    let batches = batch_draws(&draws);
    assert_eq!(expand(&batches), expand(&draws));
    assert_eq!(batches.len(), 3);
}

#[test]
fn batching_keeps_gaps_and_empty() {
    let a = (0, 0, 100, 100);
    let draws = vec![draw(a, 0, 6), draw(a, 12, 18)];
    assert_eq!(batch_draws(&draws), draws);
    assert_eq!(batch_draws(&vec![]), vec![]);
    let one_run: Vec<ClippedDraw> = (0..10).map(|i| draw(a, i * 6, i * 6 + 6)).collect();
    assert_eq!(batch_draws(&one_run), vec![draw(a, 0, 60)]);
}

#[test]
fn buffer_capacity_growth() {
    assert_eq!(next_power_of_two(0), 1);
    assert_eq!(next_power_of_two(1), 1);
    assert_eq!(next_power_of_two(5), 8);
    assert_eq!(next_power_of_two(64), 64);
    assert_eq!(next_power_of_two(65), 128);
    assert_eq!(grown_capacity(1500, 1024), 4096);
    assert_eq!(grown_capacity(100, 1024), 1024);
    assert_eq!(grown_capacity(1024, 1024), 1024);
    assert_eq!(grown_capacity(1025, 1024), 4096);
    let c = grown_capacity(3000, 16);
    assert_eq!(grown_capacity(3000, c), c);
}

// ---------------------------------------------------------------- dispatch

#[test]
fn workgroup_counts() {
    assert_eq!(simulation_workgroups(0), 0);
    assert_eq!(simulation_workgroups(1), 1);
    assert_eq!(simulation_workgroups(256), 1);
    assert_eq!(simulation_workgroups(257), 2);
    assert_eq!(simulation_workgroups(1000), 4);
    assert_eq!(reset_workgroups(100, 600), 3);
    assert_eq!(reset_workgroups(600, 100), 3);
    assert_eq!(billboard_workgroups(130), 3);
    assert_eq!(billboard_vertex_count(7), 42);
    assert_eq!(nucleus_capacity(10), 2);
    assert_eq!(nucleus_capacity(3), 0);
    assert_eq!(workgroup_count(u32::MAX, 1), u32::MAX);
    for n in 0..2000u32 {
        let g = simulation_workgroups(n);
        assert!(g * 256 >= n && g * 256 < n + 256);
    }
}

// ---------------------------------------------------------------- input and stats

#[test]
fn mouse_buttons_across_frames() {
    let mut m = MouseButtons::new();
    assert!(!m.is_button_down(MouseButton::Left));
    m.handle_button(true, MouseButton::Left);
    assert!(m.is_button_down(MouseButton::Left));
    assert!(m.is_button_just_pressed(MouseButton::Left));
    assert!(!m.is_button_down(MouseButton::Right));
    m.begin_frame();
    assert!(m.is_button_down(MouseButton::Left));
    assert!(!m.is_button_just_pressed(MouseButton::Left));
    m.handle_button(false, MouseButton::Left);
    assert!(!m.is_button_down(MouseButton::Left));
    assert!(m.is_button_just_released(MouseButton::Left));
    m.handle_button(true, MouseButton::Other(7));
    assert!(m.is_button_down(MouseButton::Other(7)));
    assert!(!m.is_button_down(MouseButton::Other(8)));
    assert!(!m.is_button_down(MouseButton::Forward));
}

#[test]
fn stats_overlay_controls() {
    let mut c = StatsConfig::default();
    assert_eq!(c, StatsConfig { detail: StatsDetail::Basic, corner: Corner::TopLeft, enabled: true });
    handle_input(&mut c, false, true);
    assert_eq!(c, StatsConfig::default());
    handle_input(&mut c, true, false);
    assert!(!c.enabled);
    handle_input(&mut c, true, false);
    assert!(c.enabled);
    handle_input(&mut c, true, true);
    assert_eq!(c.detail, StatsDetail::Normal);
    handle_input(&mut c, true, true);
    assert_eq!(c.detail, StatsDetail::Detailed);
    handle_input(&mut c, true, true);
    assert_eq!(c.detail, StatsDetail::Minimal);
    handle_input(&mut c, true, true);
    assert_eq!(c, StatsConfig::default());
}

#[test]
fn layout_defaults() {
    assert_eq!(Layout::default(), Layout::Vertical);
    assert_eq!(Overflow::default(), Overflow::Visible);
    assert_eq!(StatsDetail::default(), StatsDetail::Basic);
    assert_eq!(Corner::default(), Corner::TopLeft);
}

#[test]
fn debug_font_letter_cases() {
    let f = DebugFont::new();
    for (lower, upper) in [('a', 'A'), ('g', 'G'), ('m', 'M'), ('z', 'Z'), ('j', 'J')] {
        assert_eq!(f.rasterize_glyph(lower, 2).pixels, f.rasterize_glyph(upper, 2).pixels, "{}", lower);
    }
    let placeholder = f.rasterize_glyph('@', 1).pixels;
    for ch in ['J', 'K', 'Q', 'V', 'W', 'j', 'k', 'q', 'v', 'w'] {
        assert_eq!(f.rasterize_glyph(ch, 1).pixels, placeholder, "{}", ch);
    }
    assert_ne!(f.rasterize_glyph('A', 1).pixels, placeholder);
}

#[test]
fn unchanged_frame_keeps_text() {
    let nav = typed(
        "",
        vec![Key::Named(NamedKey::ArrowLeft), Key::Named(NamedKey::End), Key::Named(NamedKey::Escape)],
    );
    assert_eq!(edit("héllo", 1, &nav, true), ("héllo".to_string(), 6, false));
    let home_last = typed("ab", vec![Key::Named(NamedKey::End), Key::Named(NamedKey::Home)]);
    assert_eq!(edit("xy", 1, &home_last, true), ("xaby".to_string(), 0, true));
    for cursor in [0usize, 1, 3, 4] {
        let all = typed("é", vec![Key::Named(NamedKey::Backspace), Key::Named(NamedKey::Delete)]);
        assert!(text_input_update_allowed(&"aéb".to_string(), cursor, &all));
    }
}
