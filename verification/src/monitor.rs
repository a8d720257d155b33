//! Monitors: their handles and areas, the primary one first.

use crate::layout::Rect;
use crate::window::Edges;
use vstd::prelude::*;

verus! {

/// One monitor as the system reports it.
#[derive(Clone, Copy, Debug, PartialEq, Eq, Structural)]
pub struct MonitorInfo {
    pub handle: isize,
    /// The whole monitor, with the space that bars take.
    pub bounds: Rect,
    pub work_area: Rect,
    pub primary: bool,
}

pub const MONITORINFOF_PRIMARY: u32 = 1;

/// A monitor from what the system reports: its edges, the edges of its work
/// area, and its flags.
pub fn described(handle: isize, monitor: Edges, work: Edges, flags: u32) -> (r: MonitorInfo)
    ensures
        r == (MonitorInfo {
            handle,
            bounds: monitor.as_rect(),
            work_area: work.as_rect(),
            primary: flags & MONITORINFOF_PRIMARY != 0,
        }),
{
    MonitorInfo {
        handle,
        bounds: monitor.rect(),
        work_area: work.rect(),
        primary: flags & MONITORINFOF_PRIMARY != 0,
    }
}

/// The monitors of `list` that are primary, or those that are not, in order.
pub open spec fn chosen(list: Seq<MonitorInfo>, primary: bool) -> Seq<MonitorInfo> {
    list.filter(|m: MonitorInfo| m.primary == primary)
}

fn choose_from(list: &Vec<MonitorInfo>, primary: bool) -> (r: Vec<MonitorInfo>)
    ensures
        r@ == chosen(list@, primary),
{
    let mut r: Vec<MonitorInfo> = Vec::new();
    let mut i: usize = 0;
    proof {
        assert(list@.take(0) =~= Seq::empty());
        reveal_with_fuel(Seq::filter, 1);
    }
    while i < list.len()
        invariant
            i <= list.len(),
            r@ == chosen(list@.take(i as int), primary),
        decreases list.len() - i,
    {
        proof {
            reveal_with_fuel(Seq::filter, 1);
            assert(list@.take(i + 1).drop_last() =~= list@.take(i as int));
        }
        if list[i].primary == primary {
            r.push(list[i]);
        }
        i = i + 1;
    }
    proof {
        assert(list@.take(i as int) =~= list@);
    }
    r
}

/// The monitors with the primary one first; otherwise their order stays.
pub fn primary_first(list: &Vec<MonitorInfo>) -> (r: Vec<MonitorInfo>)
    ensures
        r@ == chosen(list@, true) + chosen(list@, false),
{
    let mut r = choose_from(list, true);
    let mut rest = choose_from(list, false);
    r.append(&mut rest);
    r
}

/// The first monitor with that handle at or after `i`.
pub open spec fn with_handle(list: Seq<MonitorInfo>, handle: isize, i: int) -> Option<int>
    decreases list.len() - i,
{
    if i >= list.len() {
        None
    } else if list[i].handle == handle {
        Some(i)
    } else {
        with_handle(list, handle, i + 1)
    }
}

/// The first monitor with that handle.
pub fn position_of(list: &Vec<MonitorInfo>, handle: isize) -> (r: Option<usize>)
    ensures
        match r {
            Some(i) => with_handle(list@, handle, 0) == Some(i as int) && i < list.len()
                && list@[i as int].handle == handle,
            None => with_handle(list@, handle, 0) is None,
        },
{
    let mut i: usize = 0;
    while i < list.len()
        invariant
            i <= list.len(),
            with_handle(list@, handle, 0) == with_handle(list@, handle, i as int),
        decreases list.len() - i,
    {
        if list[i].handle == handle {
            return Some(i);
        }
        i = i + 1;
    }
    None
}

/// The monitor that the user is on, by the handle of the one under the
/// cursor; the first one when that is not listed.
pub fn active(list: &Vec<MonitorInfo>, under_cursor: isize) -> (r: Option<MonitorInfo>)
    ensures
        r == match with_handle(list@, under_cursor, 0) {
            Some(i) => Some(list@[i]),
            None => if list@.len() > 0 {
                Some(list@[0])
            } else {
                None
            },
        },
{
    match position_of(list, under_cursor) {
        Some(i) => Some(list[i]),
        None => if list.len() > 0 {
            Some(list[0])
        } else {
            None
        },
    }
}

} // verus!
