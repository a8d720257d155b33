//! Which windows are managed, which float, and what their apps are filed
//! under.

use crate::hotkeys::event_meaning;
use crate::launch_laws::within;
use crate::mouse::{hovered, Hover};
use crate::text::{ascii_lowered, has_text, lowercase, occurs_at, past_last_either};
use crate::window::{
    exe_of, file_name, filed_under, floats, manageable, mentions, names_exe, overlay, Facts, Rules,
    Window,
};
use crate::wm::WmEvent;
use vstd::prelude::*;

verus! {

proof fn lemma_mentions(s: Seq<char>, list: Seq<Seq<char>>)
    ensures
        mentions(s, list) <==> exists|i: int| 0 <= i < list.len() && within(s, #[trigger] list[i]),
{
    assert forall|p: Seq<char>| has_text(s, p) == #[trigger] within(s, p) by {
        if has_text(s, p) {
            let i = choose|i: int| occurs_at(s, p, i);
            assert(s.subrange(i, i + p.len()) =~= p);
        }
        if within(s, p) {
            let i = choose|i: int|
                0 <= i && i + p.len() <= s.len() && #[trigger] s.subrange(i, i + p.len()) == p;
            assert(occurs_at(s, p, i));
        }
    }
    if mentions(s, list) {
        let i = choose|i: int| 0 <= i < list.len() && has_text(s, #[trigger] list[i]);
        assert(within(s, list[i]));
    }
    if exists|i: int| 0 <= i < list.len() && within(s, #[trigger] list[i]) {
        let i = choose|i: int| 0 <= i < list.len() && within(s, #[trigger] list[i]);
        assert(has_text(s, list[i]));
    }
}

/// The user asked for that window to be left alone: by a part of its title, by
/// its class, or by its program, upper or lower case.
pub open spec fn ignored(f: Facts, r: Rules) -> bool {
    ||| exists|i: int| 0 <= i < r.ignore_titles.len() && within(
        f.title@,
        #[trigger] r.ignore_titles[i],
    )
    ||| r.ignore_classes.contains(f.class@)
    ||| f.image matches Some(p) && exists|i: int|
        0 <= i < r.ignore_exes.len() && ascii_lowered(#[trigger] r.ignore_exes[i])
            == ascii_lowered(file_name(p@))
}

/// Exactly the windows on screen that stand alone, have a caption and a title,
/// are no tools and take the focus are managed, unless they are ignored.
pub proof fn law_what_is_managed(f: Facts, r: Rules)
    ensures
        manageable(f, r) <==> {
            &&& f.valid
            &&& f.visible
            &&& !f.minimized
            &&& !f.cloaked
            &&& f.top_level
            &&& f.style & 0x4000_0000 == 0
            &&& f.style & 0x00C0_0000 == 0x00C0_0000
            &&& f.ex_style & 0x0000_0080 == 0
            &&& f.ex_style & 0x0800_0000 == 0
            &&& f.title@.len() > 0
            &&& !ignored(f, r)
        },
{
    lemma_mentions(f.title@, r.ignore_titles);
    let (a, b) = (f.style, f.ex_style);
    assert(a & 0x4000_0000 == 0 || a & 0x4000_0000 == 0x4000_0000) by (bit_vector);
    assert(b & 0x0000_0080 == 0 || b & 0x0000_0080 == 0x0000_0080) by (bit_vector);
    assert(b & 0x0800_0000 == 0 || b & 0x0800_0000 == 0x0800_0000) by (bit_vector);
    if let Some(e) = exe_of(f) {
        if names_exe(e, r.ignore_exes) {
            let i = choose|i: int|
                0 <= i < r.ignore_exes.len() && ascii_lowered(#[trigger] r.ignore_exes[i])
                    == ascii_lowered(e);
            assert(ascii_lowered(r.ignore_exes[i]) == ascii_lowered(file_name(f.image->0@)));
        }
        if f.image matches Some(p) && exists|i: int|
            0 <= i < r.ignore_exes.len() && ascii_lowered(#[trigger] r.ignore_exes[i])
                == ascii_lowered(file_name(p@)) {
            let p = f.image->0;
            let i = choose|i: int|
                0 <= i < r.ignore_exes.len() && ascii_lowered(#[trigger] r.ignore_exes[i])
                    == ascii_lowered(file_name(p@));
            assert(names_exe(e, r.ignore_exes));
        }
    }
}

/// Exactly the windows float that cannot be resized, or that the user named by
/// their class or a part of their title.
pub proof fn law_what_floats(f: Facts, r: Rules)
    ensures
        floats(f, r) <==> {
            ||| f.style & 0x0004_0000 == 0
            ||| r.float_classes.contains(f.class@)
            ||| exists|i: int| 0 <= i < r.float_titles.len() && within(
                f.title@,
                #[trigger] r.float_titles[i],
            )
        },
{
    lemma_mentions(f.title@, r.float_titles);
    let a = f.style;
    assert(a & 0x0004_0000 == 0 || a & 0x0004_0000 == 0x0004_0000) by (bit_vector);
}

/// Exactly tooltips, and windows without a caption that do not take the focus,
/// are overlays.
pub proof fn law_what_is_an_overlay(class: Seq<char>, style: u32, ex_style: u32)
    ensures
        overlay(class, style, ex_style) <==> class == "tooltips_class32"@ || (style & 0x00C0_0000
            == 0 && ex_style & 0x0800_0000 != 0),
{
}

/// The name of a file is what follows the last separator of its path, of
/// either kind.
pub proof fn law_file_name_ends_the_path(dir: Seq<char>, sep: char, name: Seq<char>)
    requires
        sep == '\\' || sep == '/',
        !name.contains('\\'),
        !name.contains('/'),
    ensures
        file_name(dir + seq![sep] + name) == name,
        file_name(name) == name,
    decreases name.len(),
{
    let path = dir + seq![sep] + name;
    if name.len() == 0 {
        assert(path.last() == sep);
        assert(file_name(path) =~= name);
        assert(file_name(name) =~= name);
    } else {
        let front = name.drop_last();
        assert(!front.contains('\\') && !front.contains('/')) by {
            if front.contains('\\') {
                let i = choose|i: int| 0 <= i < front.len() && front[i] == '\\';
                assert(name[i] == '\\');
            }
            if front.contains('/') {
                let i = choose|i: int| 0 <= i < front.len() && front[i] == '/';
                assert(name[i] == '/');
            }
        }
        law_file_name_ends_the_path(dir, sep, front);
        assert(path.drop_last() =~= dir + seq![sep] + front);
        assert(path.last() == name.last());
        assert(name.contains(name.last())) by {
            assert(name[name.len() - 1] == name.last());
        }
        assert(front.push(name.last()) =~= name);
        assert(past_last_either(path, '\\', '/') == past_last_either(
            path.drop_last(),
            '\\',
            '/',
        ).push(path.last()));
    }
}

/// An app that tells its name is filed under it, any other under the name of
/// its program, in lower case.
pub proof fn law_apps_are_filed(app_id: Option<Seq<char>>, image: Option<Seq<char>>)
    ensures
        ({
            let r = filed_under(app_id, image);
            let named = match app_id {
                Some(a) => a.len() > 0,
                None => false,
            };
            &&& named ==> r == Some(lowercase(app_id->0))
            &&& !named && image is Some ==> r == Some(lowercase(file_name(image->0)))
            &&& !named && image is None ==> r is None
        }),
{
}

// -------------------------------------------------------------------- mouse

/// Focus follows the mouse to the window under it only while nothing is held
/// or open, and only from another window that is neither a panel nor owned by
/// it.
pub proof fn law_focus_follows_the_mouse(h: Hover, w: Window)
    ensures
        hovered(h) == Some(w) <==> {
            &&& h.hit == Some(w)
            &&& forall|i: int| 0 <= i < h.buttons.len() ==> (#[trigger] h.buttons@[i]) & 0x8000 == 0
            &&& h.gui_flags matches Some(f) ==> f & 0x1E == 0
            &&& h.foreground != Some(w)
            &&& !h.foreground_is_ours
            &&& h.foreground_owner != Some(w)
        },
{
}

// ------------------------------------------------------------------- events

/// What the system reports under which number.
pub proof fn law_events_are_told_apart(event: u32, w: Window, drop: Option<(isize, usize)>)
    ensures
        ({
            let e = event_meaning(event, w, drop);
            &&& e == Some(WmEvent::Shown(w)) <==> event == 0x8002 || event == 0x8018
            &&& e == Some(WmEvent::Hidden(w)) <==> event == 0x8003 || event == 0x8017
            &&& e == Some(WmEvent::Destroyed(w)) <==> event == 0x8001
            &&& e == Some(WmEvent::Retitled(w)) <==> event == 0x800C
            &&& e == Some(WmEvent::Foreground(w)) <==> event == 0x0003
            &&& e == Some(WmEvent::MinimizeStart(w)) <==> event == 0x0016
            &&& e == Some(WmEvent::Restored(w)) <==> event == 0x0017
            &&& e == Some(WmEvent::MoveSizeEnd(w, drop)) <==> event == 0x000B
            &&& e is None <==> event != 0x8002 && event != 0x8018 && event != 0x8003 && event
                != 0x8017 && event != 0x8001 && event != 0x800C && event != 0x0003 && event
                != 0x0016 && event != 0x0017 && event != 0x000B
        }),
{
}

} // verus!
