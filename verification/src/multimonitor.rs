//! The monitors that can be captured.
use vstd::prelude::*;

verus! {

/// A monitor, numbered from 0, with its size and refresh rate.
#[derive(Clone)]
pub struct MonitorInfo {
    pub id: usize,
    pub name: String,
    pub width: u32,
    pub height: u32,
    pub refresh_rate: u32,
}

/// Where the first monitor with the id `monitor_id` stands.
fn position_of_monitor(monitors: &Vec<MonitorInfo>, monitor_id: usize) -> (pos: usize)
    requires
        exists|i: int| 0 <= i < monitors@.len() && monitors@[i].id == monitor_id,
    ensures
        pos < monitors@.len(),
        monitors@[pos as int].id == monitor_id,
        forall|j: int| 0 <= j < pos ==> monitors@[j].id != monitor_id,
{
    let n = monitors.len();
    let mut i: usize = 0;
    while i < n
        invariant
            n == monitors@.len(),
            0 <= i <= n,
            forall|j: int| 0 <= j < i ==> monitors@[j].id != monitor_id,
            exists|k: int| 0 <= k < monitors@.len() && monitors@[k].id == monitor_id,
        decreases n - i,
    {
        if monitors[i].id == monitor_id {
            return i;
        }
        i = i + 1;
    }
    i
}

/// The first monitor with the id `monitor_id`.
pub fn select_monitor(monitors: Vec<MonitorInfo>, monitor_id: usize) -> (monitor: MonitorInfo)
    requires
        exists|i: int| 0 <= i < monitors@.len() && monitors@[i].id == monitor_id,
    ensures
        exists|i: int|
            0 <= i < monitors@.len() && monitors@[i].id == monitor_id && monitor == monitors@[i]
                && forall|j: int| 0 <= j < i ==> monitors@[j].id != monitor_id,
{
    let pos = position_of_monitor(&monitors, monitor_id);
    let ghost all = monitors@;
    let mut list = monitors;
    let monitor = list.remove(pos);
    assert(monitor == all[pos as int]);
    monitor
}

} // verus!
