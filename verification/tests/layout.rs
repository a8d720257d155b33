use wtm::layout::{dwindle, resize_ratios, Rect};
use wtm::single::Ratio;

const AREA: Rect = Rect { x: 0, y: 0, w: 1920, h: 1080 };

fn ratios(list: &[f32]) -> Vec<Ratio> {
    list.iter().map(|r| Ratio { bits: r.to_bits() }).collect()
}

fn value(r: Ratio) -> f32 {
    f32::from_bits(r.bits)
}

#[test]
fn empty() {
    assert!(dwindle(AREA, 0, &[], 8).is_empty());
}

#[test]
fn single_window_fills_area() {
    assert_eq!(dwindle(AREA, 1, &[], 8), vec![AREA]);
}

#[test]
fn two_windows_split_side_by_side() {
    let r = dwindle(AREA, 2, &ratios(&[0.5]), 8);
    assert_eq!(r.len(), 2);
    assert_eq!(r[0].h, 1080);
    assert_eq!(r[1].h, 1080);
    assert_eq!(r[0].w + 8 + r[1].w, 1920);
}

#[test]
fn per_split_ratios_are_independent() {
    let r = dwindle(AREA, 3, &ratios(&[0.7, 0.5]), 10);
    assert!(r[0].w > AREA.w / 2, "first window should be ~70% wide");
    assert!((r[1].h - r[2].h).abs() <= 1, "second split should stay even");
}

#[test]
fn third_window_splits_the_right_column() {
    let r = dwindle(AREA, 3, &ratios(&[0.5, 0.5]), 8);
    assert_eq!(r.len(), 3);
    assert_eq!(r[1].x, r[2].x);
    assert_eq!(r[1].h + 8 + r[2].h, 1080);
}

#[test]
fn drag_right_edge_of_master_grows_first_split() {
    let mut list = ratios(&[0.5, 0.5]);
    let r = dwindle(AREA, 3, &list, 8);
    let dragged = Rect { w: r[0].w + 200, ..r[0] };
    resize_ratios(AREA, 3, &mut list, 8, 0, dragged);
    let first = value(list[0]);
    assert!(first > 0.58 && first < 0.64, "ratio should grow ~0.6, got {}", first);
    assert_eq!(value(list[1]), 0.5, "untouched split must stay");
    let after = dwindle(AREA, 3, &list, 8);
    assert!((after[0].w - dragged.w).abs() <= 2);
}

#[test]
fn drag_left_edge_of_stacked_window_adjusts_earlier_split() {
    let mut list = ratios(&[0.5, 0.5]);
    let r = dwindle(AREA, 3, &list, 8);
    let dragged = Rect { x: r[2].x - 200, w: r[2].w + 200, ..r[2] };
    resize_ratios(AREA, 3, &mut list, 8, 2, dragged);
    assert!(value(list[0]) < 0.43, "first split should shrink, got {}", value(list[0]));
    assert_eq!(value(list[1]), 0.5);
}

#[test]
fn corner_drag_adjusts_two_splits() {
    let mut list = ratios(&[0.5, 0.5]);
    let r = dwindle(AREA, 3, &list, 8);
    let dragged = Rect { x: r[1].x - 100, w: r[1].w + 100, h: r[1].h + 100, ..r[1] };
    resize_ratios(AREA, 3, &mut list, 8, 1, dragged);
    assert!(value(list[0]) < 0.47);
    assert!(value(list[1]) > 0.53);
}

#[test]
fn tiny_jitter_leaves_ratios_alone() {
    let mut list = ratios(&[0.5, 0.5]);
    let r = dwindle(AREA, 3, &list, 8);
    let jitter = Rect { w: r[0].w + 2, ..r[0] };
    resize_ratios(AREA, 3, &mut list, 8, 0, jitter);
    assert_eq!(list, ratios(&[0.5, 0.5]));
}

#[test]
fn rects_never_overlap() {
    for n in 1..10 {
        let rects = dwindle(AREA, n, &ratios(&[0.62; 9]), 10);
        for (i, a) in rects.iter().enumerate() {
            for b in rects.iter().skip(i + 1) {
                let overlap =
                    a.x < b.x + b.w && b.x < a.x + a.w && a.y < b.y + b.h && b.y < a.y + a.h;
                assert!(!overlap, "n={}: {:?} overlaps {:?}", n, a, b);
            }
        }
    }
}

/// The split as single-precision arithmetic does it.
fn float_split(area: Rect, count: usize, ratios: &[f32], gap: i32) -> Vec<Rect> {
    let mut out = Vec::new();
    let mut cur = area;
    for i in 0..count {
        if i == count - 1 {
            out.push(cur);
            break;
        }
        let ratio = ratios.get(i).copied().unwrap_or(0.5).clamp(0.1, 0.9);
        if cur.w >= cur.h {
            let left = (((cur.w - gap).max(2)) as f32 * ratio) as i32;
            out.push(Rect { w: left.max(1), ..cur });
            cur = Rect { x: cur.x + left + gap, w: (cur.w - left - gap).max(1), ..cur };
        } else {
            let top = (((cur.h - gap).max(2)) as f32 * ratio) as i32;
            out.push(Rect { h: top.max(1), ..cur });
            cur = Rect { y: cur.y + top + gap, h: (cur.h - top - gap).max(1), ..cur };
        }
    }
    out
}

#[test]
fn split_agrees_with_single_precision() {
    let odd = [0.1, 0.15, 0.333_333_34, 0.5, 0.62, 0.7, 0.849_999_9, 0.9, 0.05, 1.5, -1.0, f32::NAN];
    for &a in odd.iter() {
        for &b in odd.iter() {
            for &(w, h, gap) in
                [(1920, 1080, 8), (2560, 1440, 0), (3440, 1440, 12), (37, 1199, 5), (8, 9, 3)].iter()
            {
                let area = Rect { x: -40, y: 17, w, h };
                let list = [a, b, a];
                assert_eq!(
                    dwindle(area, 4, &ratios(&list), gap),
                    float_split(area, 4, &list, gap),
                    "{} {} {}x{}",
                    a,
                    b,
                    w,
                    h
                );
            }
        }
    }
}

#[test]
fn step_agrees_with_single_precision() {
    let mut r = 0.5f32;
    for i in 0..40 {
        let grow = i % 3 != 0;
        let next = (r + if grow { 0.05 } else { -0.05 }).clamp(0.15, 0.85);
        assert_eq!(value(Ratio { bits: r.to_bits() }.step(grow)), next);
        r = next;
    }
    for &x in [0.0f32, 0.01, 0.0312, 0.0313, 0.149, 0.2, 0.81, 0.849, 0.9, 1.99, 2.0, 7.5, -3.0].iter() {
        for grow in [true, false] {
            let next = (x + if grow { 0.05 } else { -0.05 }).clamp(0.15, 0.85);
            assert_eq!(value(Ratio { bits: x.to_bits() }.step(grow)), next, "{}", x);
        }
    }
}

#[test]
fn share_agrees_with_single_precision() {
    for &span in [2, 3, 7, 100, 956, 1912, 3840, 99_999].iter() {
        for part in [-5, 0, 1, span / 7, span / 5, span / 3, span / 2, span - 1, span, span + 9] {
            let expected = (part as f32 / span as f32).clamp(0.15, 0.85);
            assert_eq!(value(Ratio::share(part, span)), expected, "{}/{}", part, span);
        }
    }
}

#[test]
fn contains_excludes_far_edges() {
    let r = Rect { x: 10, y: 20, w: 30, h: 40 };
    assert!(r.contains(10, 20));
    assert!(r.contains(39, 59));
    assert!(!r.contains(40, 20));
    assert!(!r.contains(10, 60));
    assert!(!r.contains(9, 20));
}

#[test]
fn shrink_keeps_a_pixel() {
    let r = Rect { x: 0, y: 0, w: 100, h: 15 };
    assert_eq!(r.shrink(10), Rect { x: 10, y: 10, w: 80, h: 1 });
}

#[test]
fn popped_out_rectangle_is_centered() {
    let r = Rect { x: 0, y: 40, w: 1920, h: 1040 };
    assert_eq!(r.pop_out(), Rect { x: 384, y: 248, w: 1152, h: 624 });
}

#[test]
fn gapless_split_that_keeps_nothing_overlaps() {
    let r = dwindle(Rect { x: 0, y: 0, w: 3, h: 1 }, 2, &ratios(&[0.1]), 0);
    assert_eq!(r[0], Rect { x: 0, y: 0, w: 1, h: 1 });
    assert_eq!(r[1], Rect { x: 0, y: 0, w: 3, h: 1 });
}
