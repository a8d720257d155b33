use wtm::border::scale_to_dpi;
use wtm::bar::style_for;
use wtm::config::Config;
use wtm::layout::Rect;
use wtm::scene::{
    area, bold_pen, normal_pen, perch, set_accent, style, Align, BarStyle, Draw, Perch, Scene,
    Sheet, Weight,
};
use wtm::window::Window;

#[test]
fn scaling_agrees_with_single_precision() {
    for dpi in [1u32, 72, 96, 100, 110, 119, 120, 144, 168, 192, 240, 288, 333, 480] {
        for v in (-400..2000).chain([9_999, 65_535, 99_999, 16_777_217]) {
            let expected = (v as f32 * (dpi as f32 / 96.0)) as i32;
            assert_eq!(scale_to_dpi(v, dpi), expected, "{} at {}", v, dpi);
            assert_eq!(Sheet { w: 0, h: 0, dpi }.px(v), expected);
        }
    }
}

#[test]
fn style_falls_back() {
    let s = style(&None);
    assert_eq!((s.height, s.bg, s.fg, s.accent), (32, 0x251818, 0xf4d6cd, 0x00F7A27A));
    assert_eq!((s.cell_empty, s.cell_occupied, s.alpha), (0x443131, 0x5a4745, 255));
}

#[test]
fn style_comes_from_the_configuration() {
    let s = style_for(&Config::default());
    assert_eq!((s.height, s.bg, s.fg, s.accent, s.alpha), (32, 0x251818, 0xf4d6cd, 0xf7a27a, 235));
    let mut set: Option<BarStyle> = Some(s);
    set_accent(&mut set, 7);
    assert_eq!(style(&set).accent, 7);
    assert_eq!(style(&set).alpha, 235);
    let mut unset: Option<BarStyle> = None;
    set_accent(&mut unset, 7);
    assert!(unset.is_none());
}

#[test]
fn areas_exclude_far_edges() {
    let a = area(10, 20, 30, 40);
    assert!(a.hit(10, 20) && a.hit(29, 39));
    assert!(!a.hit(30, 20) && !a.hit(10, 40) && !a.hit(9, 20) && !a.hit(10, 19));
}

#[test]
fn panels_are_placed_on_their_monitor() {
    let b = Rect { x: -1920, y: 10, w: 1920, h: 1081 };
    assert_eq!(perch(&b, 600, 400, Perch::Middle), Rect { x: -1260, y: 350, w: 600, h: 400 });
    assert_eq!(perch(&b, 600, 400, Perch::Third), Rect { x: -1260, y: 237, w: 600, h: 400 });
    assert_eq!(perch(&b, 601, 400, Perch::Fifth), Rect { x: -1261, y: 226, w: 601, h: 400 });
}

#[test]
fn marks_are_kept_in_order() {
    let mut k = Scene::new();
    k.chip(area(0, 0, 10, 8), 1, 2);
    k.text("x".to_string(), area(0, 0, 1, 1), 3, bold_pen(15).to(Align::Right).cutting());
    k.window_icon(Window(5), 1, 2, 16);
    k.file_icon("p".to_string(), 3, 4, 16);
    assert_eq!(k.marks.len(), 5);
    assert!(matches!(&k.marks[0], Draw::Round { area: a, color: 2, radius: 6 } if *a == area(0, 0, 10, 8)));
    assert!(matches!(&k.marks[1], Draw::Round { area: a, color: 1, radius: 5 } if *a == area(1, 1, 9, 7)));
    match &k.marks[2] {
        Draw::Text { pen, .. } => {
            assert_eq!((pen.height, pen.weight, pen.align, pen.ellipsis), (15, Weight::Bold, Align::Right, true))
        }
        _ => panic!("no text"),
    }
    assert_eq!(normal_pen(9).weight, Weight::Normal);
    assert!(matches!(&k.marks[3], Draw::WindowIcon { window: Window(5), x: 1, y: 2, size: 16 }));
}

#[test]
fn frame_runs_round_the_sheet() {
    let st = style(&None);
    let mut k = Scene::new();
    k.frame(&Sheet { w: 100, h: 50, dpi: 192 }, &st);
    let fills: Vec<_> = k
        .marks
        .iter()
        .map(|m| match m {
            Draw::Fill { area, color } => (*area, *color),
            _ => panic!("no fill"),
        })
        .collect();
    assert_eq!(
        fills,
        vec![
            (area(0, 0, 100, 50), st.bg),
            (area(0, 0, 100, 4), st.accent),
            (area(0, 46, 100, 50), st.accent),
            (area(0, 0, 4, 50), st.accent),
            (area(96, 0, 100, 50), st.accent),
        ]
    );
}
