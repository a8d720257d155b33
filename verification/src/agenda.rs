//! The agenda panel: the upcoming meetings.

use crate::calendar::{meeting_views, Meeting, MeetingView};
use crate::layout::Rect;
use crate::scene::{
    area, blank, bold, bold_pen, min2, normal, normal_pen, perch, perched, span, Align, BarStyle, Perch,
    Scene, Sheet, Sketch,
};
use crate::text::{is_blank, joined3, owned};
use vstd::prelude::*;

verus! {

pub open spec fn line_height(sh: Sheet) -> int {
    sh.s(34)
}

/// The place of the panel: as high as its meetings need, fourteen at most.
pub open spec fn agenda_place(bounds: Rect, dpi: u32, count: int) -> Rect {
    let sh = Sheet { w: 0, h: 0, dpi };
    let rows = if count < 1 {
        1
    } else {
        min2(count, 14)
    };
    perched(bounds, sh.s(480), sh.s(20) * 2 + line_height(sh) * (rows + 1), Perch::Fifth)
}

/// The place of the panel.
pub fn agenda_panel(bounds: &Rect, dpi: u32, count: usize) -> (r: Rect)
    ensures
        r == agenda_place(*bounds, dpi, count as int),
{
    let sh = Sheet { w: 0, h: 0, dpi };
    let rows: i64 = if count < 1 {
        1
    } else if count < 14 {
        count as i64
    } else {
        14
    };
    let line: i64 = sh.px(34) as i64;
    proof {
        let (a, b) = (line as int, rows + 1);
        assert(0 <= a * b <= 0x8000_0000 * 15) by (nonlinear_arith)
            requires
                0 <= a <= 0x8000_0000,
                0 <= b <= 15,
        ;
    }
    perch(
        bounds,
        sh.px(480) as i64,
        sh.px(20) as i64 * 2 + line * (rows + 1),
        Perch::Fifth,
    )
}

/// The link that a click opens.
pub open spec fn clicked(list: Seq<MeetingView>, sh: Sheet, y: int) -> Option<Seq<char>> {
    let i = (y - sh.s(20)) / line_height(sh);
    if y >= sh.s(20) && i < list.len() && list[i].join_url.len() > 0 {
        Some(list[i].join_url)
    } else {
        None
    }
}

/// The link that a click opens; the panel closes then.
pub fn on_agenda_click(list: &Vec<Meeting>, sh: &Sheet, y: i32) -> (r: Option<String>)
    requires
        line_height(*sh) > 0,
    ensures
        match r {
            Some(u) => clicked(meeting_views(list@), *sh, y as int) == Some(u@),
            None => clicked(meeting_views(list@), *sh, y as int) is None,
        },
{
    let top: i64 = sh.px(20) as i64;
    proof {
        assert(meeting_views(list@).len() == list.len());
    }
    if (y as i64) < top {
        return None;
    }
    let i: u64 = ((y as i64 - top) / sh.px(34) as i64) as u64;
    if i < list.len() as u64 {
        let m = &list[i as usize];
        proof {
            assert(meeting_views(list@)[i as int] == m@);
        }
        if !is_blank(m.join_url.as_str()) {
            return Some(m.join_url.clone());
        }
    }
    None
}

/// One meeting: its times, its subject, and a way to join or the location.
pub open spec fn meeting_drawn(k: Sketch, sh: Sheet, st: BarStyle, m: MeetingView, now: u64, y: int) -> Sketch {
    let (pad, line, w) = (sh.s(20), line_height(sh), sh.w as int);
    let ongoing = m.start <= now;
    let ground = if ongoing {
        k.round(span(sh.s(6), y, w - sh.s(6), y + line), st.cell_occupied, sh.s(6))
    } else {
        k
    };
    let told = ground.text(
        m.start_hm + "–"@ + m.end_hm,
        span(pad, y, pad + sh.s(100), y + line),
        if ongoing {
            st.accent
        } else {
            st.fg
        },
        bold(sh.s(15)),
    ).text(
        m.subject,
        span(pad + sh.s(104), y, w - sh.s(96), y + line),
        st.fg,
        bold(sh.s(15)).cut(),
    );
    let side = span(w - sh.s(92), y, w - pad, y + line);
    let pen = normal(sh.s(14)).at(Align::Right).cut();
    if m.join_url.len() > 0 {
        told.text("join ⇗"@, side, st.accent, pen)
    } else if m.location.len() > 0 {
        told.text(m.location, side, st.cell_occupied, pen)
    } else {
        told
    }
}

/// The meetings from the `i`th on, as many as fit.
pub open spec fn meetings_drawn(
    k: Sketch,
    sh: Sheet,
    st: BarStyle,
    list: Seq<MeetingView>,
    now: u64,
    i: int,
    y: int,
) -> Sketch
    decreases list.len() - i,
{
    let line = line_height(sh);
    if i < 0 || i >= list.len() || y + line > sh.h - line {
        k
    } else {
        meetings_drawn(
            meeting_drawn(k, sh, st, list[i], now, y),
            sh,
            st,
            list,
            now,
            i + 1,
            y + line,
        )
    }
}

/// The whole panel.
pub open spec fn agenda_painted(sh: Sheet, st: BarStyle, list: Seq<MeetingView>, now: u64) -> Sketch {
    let (pad, line, w, h) = (sh.s(20), line_height(sh), sh.w as int, sh.h as int);
    let ground = blank().frame(sh, st);
    let told = if list.len() == 0 {
        ground.text(
            "no upcoming meetings"@,
            span(pad, pad, w - pad, pad + line),
            st.cell_occupied,
            bold(sh.s(15)),
        )
    } else {
        ground
    };
    meetings_drawn(told, sh, st, list, now, 0, pad).text(
        "click a meeting to join · Esc closes"@,
        span(pad, h - line, w - pad, h - sh.s(6)),
        st.cell_occupied,
        normal(sh.s(14)),
    )
}

fn draw_meeting(k: &mut Scene, sh: &Sheet, st: &BarStyle, m: &Meeting, now: u64, y: i64)
    requires
        0 <= y <= 0x10_0000_0000,
    ensures
        final(k)@ == meeting_drawn(old(k)@, *sh, *st, m@, now, y as int),
{
    let pad: i64 = sh.px(20) as i64;
    let line: i64 = sh.px(34) as i64;
    let w: i64 = sh.w as i64;
    let bottom: i64 = y + line;
    let ongoing: bool = m.start <= now;
    if ongoing {
        let edge: i64 = sh.px(6) as i64;
        k.round(area(edge, y, w - edge, bottom), st.cell_occupied, edge);
    }
    let strong = bold_pen(sh.px(15) as i64);
    k.text(
        joined3(m.start_hm.as_str(), "–", m.end_hm.as_str()),
        area(pad, y, pad + sh.px(100) as i64, bottom),
        if ongoing {
            st.accent
        } else {
            st.fg
        },
        strong,
    );
    k.text(
        m.subject.clone(),
        area(pad + sh.px(104) as i64, y, w - sh.px(96) as i64, bottom),
        st.fg,
        strong.cutting(),
    );
    let side = area(w - sh.px(92) as i64, y, w - pad, bottom);
    let pen = normal_pen(sh.px(14) as i64).to(Align::Right).cutting();
    if !is_blank(m.join_url.as_str()) {
        k.text(owned("join ⇗"), side, st.accent, pen);
    } else if !is_blank(m.location.as_str()) {
        k.text(m.location.clone(), side, st.cell_occupied, pen);
    }
}

/// The whole panel.
pub fn paint_agenda(sh: &Sheet, st: &BarStyle, list: &Vec<Meeting>, now: u64) -> (k: Scene)
    ensures
        k@ == agenda_painted(*sh, *st, meeting_views(list@), now),
{
    let pad: i64 = sh.px(20) as i64;
    let line: i64 = sh.px(34) as i64;
    let w: i64 = sh.w as i64;
    let h: i64 = sh.h as i64;
    let mut k = Scene::new();
    k.frame(sh, st);
    let ghost views = meeting_views(list@);
    proof {
        assert(views.len() == list.len());
    }
    if list.len() == 0 {
        k.text(
            owned("no upcoming meetings"),
            area(pad, pad, w - pad, pad + line),
            st.cell_occupied,
            bold_pen(sh.px(15) as i64),
        );
    }
    let ghost start = k@;
    let mut y: i64 = pad;
    let mut i: usize = 0;
    while i < list.len() && y + line <= h - line
        invariant
            i <= list.len(),
            views == meeting_views(list@),
            line == line_height(*sh),
            0 <= line < 0x8000_0000,
            h == sh.h,
            0 <= y <= 0x8_0000_0000,
            meetings_drawn(k@, *sh, *st, views, now, i as int, y as int) == meetings_drawn(
                start,
                *sh,
                *st,
                views,
                now,
                0,
                sh.s(20),
            ),
        decreases list.len() - i,
    {
        proof {
            assert(views[i as int] == list@[i as int]@);
        }
        draw_meeting(&mut k, sh, st, &list[i], now, y);
        y = y + line;
        i = i + 1;
    }
    k.text(
        owned("click a meeting to join · Esc closes"),
        area(pad, h - line, w - pad, h - sh.px(6) as i64),
        st.cell_occupied,
        normal_pen(sh.px(14) as i64),
    );
    k
}

} // verus!
