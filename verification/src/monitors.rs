//! The monitors of a worker.
use vstd::prelude::*;
use vstd::slice::slice_subrange;

use crate::bytes::{bits_of_i32, unsigned_of};
use crate::text::{contains_text, has_text, string_of};
use crate::utf16::{decode_utf16_lossy, decoded};

verus! {

/// The width that a worker's monitors are set to.
pub const WORKER_WIDTH: u32 = 1920;

/// The height that a worker's monitors are set to.
pub const WORKER_HEIGHT: u32 = 1080;

/// The index that says that no monitor has the focus yet.
pub const NO_FOCUS: u32 = 0xFFFF_FFFF;

/// A rectangle on the desktop.
#[derive(Clone, Copy, Debug, PartialEq, Eq, Structural)]
pub struct Rect {
    pub left: i32,
    pub top: i32,
    pub right: i32,
    pub bottom: i32,
}

/// A monitor. The handle is the system's name for it.
#[derive(Debug, PartialEq, Eq)]
pub struct MonitorInfo {
    pub name: String,
    pub rect: Rect,
    pub is_primary: bool,
    pub handle: isize,
}

/// `s` without the zero characters at its start.
pub open spec fn without_leading_zeros(s: Seq<char>) -> Seq<char>
    decreases s.len(),
{
    if s.len() > 0 && s[0] == '\0' {
        without_leading_zeros(s.drop_first())
    } else {
        s
    }
}

/// `s` without the zero characters at its end.
pub open spec fn without_trailing_zeros(s: Seq<char>) -> Seq<char>
    decreases s.len(),
{
    if s.len() > 0 && s.last() == '\0' {
        without_trailing_zeros(s.drop_last())
    } else {
        s
    }
}

/// The name in the system's device field: its text without the zeros at either end.
pub open spec fn device_text(device: Seq<u16>) -> Seq<char> {
    without_trailing_zeros(without_leading_zeros(decoded(device)))
}

/// Reads the name in the system's device field.
pub fn device_name(device: &[u16]) -> (name: String)
    ensures
        name@ == device_text(device@),
{
    let text: Vec<char> = decode_utf16_lossy(device);
    let mut from: usize = 0;
    assert(text@.skip(0) =~= text@);
    while from < text.len() && text[from] == '\0'
        invariant
            from <= text@.len(),
            without_leading_zeros(text@) == without_leading_zeros(text@.skip(from as int)),
        decreases text@.len() - from,
    {
        assert(text@.skip(from as int).drop_first() =~= text@.skip(from as int + 1));
        from = from + 1;
    }
    let mut to: usize = text.len();
    assert(text@.subrange(from as int, to as int) =~= text@.skip(from as int));
    while to > from && text[to - 1] == '\0'
        invariant
            from <= to <= text@.len(),
            device_text(device@) == without_trailing_zeros(text@.subrange(from as int, to as int)),
        decreases to,
    {
        let ghost run = text@.subrange(from as int, to as int);
        assert(run.last() == text@[to - 1]);
        assert(run.drop_last() =~= text@.subrange(from as int, to as int - 1));
        to = to - 1;
    }
    proof {
        let run = text@.subrange(from as int, to as int);
        if to > from {
            assert(run.last() == text@[to - 1]);
        }
    }
    string_of(slice_subrange(text.as_slice(), from, to))
}

/// A monitor as the system describes it: the primary one has the lowest bit of its flags set.
pub fn monitor_entry(device: &[u16], rect: Rect, flags: u32, handle: isize) -> (info: MonitorInfo)
    ensures
        info.name@ == device_text(device@),
        info.rect == rect,
        info.is_primary == (flags % 2 == 1),
        info.handle == handle,
{
    MonitorInfo { name: device_name(device), rect, is_primary: flags % 2 == 1, handle }
}

/// Whether a monitor is one to work with: all are but those with this mark in their name.
pub open spec fn is_kept(info: MonitorInfo) -> bool {
    !contains_text(info.name@, "JtnCw8iKfGVx$"@)
}

/// The monitors to work with, in order.
pub open spec fn kept(list: Seq<MonitorInfo>) -> Seq<MonitorInfo>
    decreases list.len(),
{
    if list.len() == 0 {
        Seq::empty()
    } else if is_kept(list.last()) {
        kept(list.drop_last()).push(list.last())
    } else {
        kept(list.drop_last())
    }
}

/// A copy of a monitor's description.
pub fn copy_monitor(info: &MonitorInfo) -> (copy: MonitorInfo)
    ensures
        copy == *info,
{
    MonitorInfo {
        name: info.name.clone(),
        rect: info.rect,
        is_primary: info.is_primary,
        handle: info.handle,
    }
}

/// Picks the monitors to work with.
pub fn keep_monitors(found: &Vec<MonitorInfo>) -> (list: Vec<MonitorInfo>)
    ensures
        list@ == kept(found@),
{
    let mut list: Vec<MonitorInfo> = Vec::new();
    let mut i: usize = 0;
    while i < found.len()
        invariant
            i <= found@.len(),
            list@ == kept(found@.take(i as int)),
        decreases found@.len() - i,
    {
        proof {
            let upto = found@.take(i as int + 1);
            assert(upto.drop_last() =~= found@.take(i as int));
            assert(upto.last() == found@[i as int]);
        }
        if !has_text(found[i].name.as_str(), "JtnCw8iKfGVx$") {
            list.push(copy_monitor(&found[i]));
        }
        i = i + 1;
    }
    assert(found@.take(found@.len() as int) =~= found@);
    list
}

/// Whether the list of monitors must be asked for again: it is older than five seconds, or
/// empty.
pub fn cache_is_stale(age_nanos: u128, count: usize) -> (stale: bool)
    ensures
        stale == (age_nanos > 5_000_000_000 || count == 0),
{
    age_nanos > 5_000_000_000 || count == 0
}

/// The rectangle of the monitor that a packet is for: the one with the index in the packet, or
/// the first, or nothing where there is none.
pub open spec fn target_of(monitors: Seq<MonitorInfo>, index: i32) -> Rect {
    if 0 <= index < monitors.len() {
        monitors[index as int].rect
    } else if monitors.len() > 0 {
        monitors[0].rect
    } else {
        Rect { left: 0, top: 0, right: 0, bottom: 0 }
    }
}

/// The rectangle of the monitor that a packet is for.
pub fn target_rect(monitors: &Vec<MonitorInfo>, index: i32) -> (rect: Rect)
    ensures
        rect == target_of(monitors@, index),
{
    if index >= 0 && (index as u64) < monitors.len() as u64 {
        monitors[index as usize].rect
    } else if monitors.len() > 0 {
        monitors[0].rect
    } else {
        Rect { left: 0, top: 0, right: 0, bottom: 0 }
    }
}

/// Whether the sides of a rectangle have lengths that fit.
pub open spec fn is_measurable(rect: Rect) -> bool {
    &&& i32::MIN <= rect.right - rect.left <= i32::MAX
    &&& i32::MIN <= rect.bottom - rect.top <= i32::MAX
}

/// Tells whether the sides of a rectangle have lengths that fit.
pub fn can_measure(rect: Rect) -> (fits: bool)
    ensures
        fits == is_measurable(rect),
{
    let w: i64 = rect.right as i64 - rect.left as i64;
    let h: i64 = rect.bottom as i64 - rect.top as i64;
    w >= i32::MIN as i64 && w <= i32::MAX as i64 && h >= i32::MIN as i64 && h <= i32::MAX as i64
}

/// Width and height of a rectangle.
pub fn rect_size(rect: Rect) -> (size: (u32, u32))
    requires
        is_measurable(rect),
    ensures
        size.0 == unsigned_of(rect.right - rect.left, 0x1_0000_0000),
        size.1 == unsigned_of(rect.bottom - rect.top, 0x1_0000_0000),
{
    (bits_of_i32(rect.right - rect.left), bits_of_i32(rect.bottom - rect.top))
}

/// Whether a monitor is to be watched closely: it has the focus, or none has it yet.
pub open spec fn has_focus(focused: u32, m_idx: int) -> bool {
    focused == NO_FOCUS || focused == m_idx % 0x1_0000_0000
}

/// How many milliseconds a worker waits between two frames of a monitor: one where it is
/// watched closely, else thirty.
pub fn frame_pause_ms(focused: u32, m_idx: usize) -> (ms: u64)
    ensures
        ms == (if has_focus(focused, m_idx as int) {
            1int
        } else {
            30int
        }),
{
    if focused == NO_FOCUS || focused as u64 == m_idx as u64 % 0x1_0000_0000 {
        1
    } else {
        30
    }
}

// ---------------------------------------------------------------------------------------
// What holds of monitors
// ---------------------------------------------------------------------------------------

/// A device name is what the field holds without the zeros at its start and end: neither end of
/// it is a zero, and all that was taken away is.
pub proof fn device_name_is_without_outer_zeros(device: Seq<u16>) -> (cut: (int, int))
    ensures
        0 <= cut.0 <= cut.1 <= decoded(device).len(),
        device_text(device) == decoded(device).subrange(cut.0, cut.1),
        forall|i: int| 0 <= i < cut.0 ==> #[trigger] decoded(device)[i] as int == 0,
        forall|i: int| cut.1 <= i < decoded(device).len() ==> #[trigger] decoded(device)[i] as int == 0,
        cut.0 < cut.1 ==> decoded(device)[cut.0] as int != 0 && decoded(device)[cut.1 - 1] as int
            != 0,
{
    let s = decoded(device);
    let from = lemma_leading_zeros(s);
    let t = s.skip(from);
    let len = lemma_trailing_zeros(t);
    assert(t.take(len) =~= s.subrange(from, from + len));
    assert forall|i: int| from + len <= i < s.len() implies #[trigger] s[i] as int == 0 by {
        assert(t[i - from] == s[i]);
    }
    if len > 0 {
        assert(t[0] == s[from]);
        assert(t[len - 1] == s[from + len - 1]);
    }
    (from, from + len)
}

proof fn lemma_leading_zeros(s: Seq<char>) -> (n: int)
    ensures
        0 <= n <= s.len(),
        without_leading_zeros(s) == s.skip(n),
        forall|i: int| 0 <= i < n ==> #[trigger] s[i] == '\0',
        n < s.len() ==> s[n] != '\0',
    decreases s.len(),
{
    if s.len() > 0 && s[0] == '\0' {
        let t = s.drop_first();
        let m = lemma_leading_zeros(t);
        assert(t.skip(m) =~= s.skip(m + 1));
        assert forall|i: int| 0 <= i < m + 1 implies #[trigger] s[i] == '\0' by {
            if i > 0 {
                assert(t[i - 1] == s[i]);
            }
        }
        if m < t.len() {
            assert(t[m] == s[m + 1]);
        }
        m + 1
    } else {
        assert(s.skip(0) =~= s);
        0
    }
}

proof fn lemma_trailing_zeros(s: Seq<char>) -> (n: int)
    ensures
        0 <= n <= s.len(),
        without_trailing_zeros(s) == s.take(n),
        forall|i: int| n <= i < s.len() ==> #[trigger] s[i] == '\0',
        n > 0 ==> s[n - 1] != '\0',
        s.len() > 0 && s[0] != '\0' ==> n > 0,
    decreases s.len(),
{
    if s.len() > 0 && s.last() == '\0' {
        let t = s.drop_last();
        let n = lemma_trailing_zeros(t);
        assert(t.take(n) =~= s.take(n));
        assert forall|i: int| n <= i < s.len() implies #[trigger] s[i] == '\0' by {
            if i < t.len() {
                assert(t[i] == s[i]);
            }
        }
        if n > 0 {
            assert(t[n - 1] == s[n - 1]);
        }
        n
    } else {
        assert(s.take(s.len() as int) =~= s);
        s.len() as int
    }
}

/// Each monitor is kept or left out by itself, in order: left out just where its name holds the
/// mark.
pub proof fn marked_monitors_are_left_out(
    a: Seq<MonitorInfo>,
    b: Seq<MonitorInfo>,
    info: MonitorInfo,
)
    ensures
        kept(Seq::<MonitorInfo>::empty()) == Seq::<MonitorInfo>::empty(),
        kept(a + b) == kept(a) + kept(b),
        contains_text(info.name@, "JtnCw8iKfGVx$"@) ==> kept(seq![info]).len() == 0,
        !contains_text(info.name@, "JtnCw8iKfGVx$"@) ==> kept(seq![info]) == seq![info],
    decreases b.len(),
{
    reveal_with_fuel(kept, 2);
    assert(seq![info].drop_last() =~= Seq::<MonitorInfo>::empty());
    assert(Seq::<MonitorInfo>::empty().push(info) =~= seq![info]);
    if b.len() == 0 {
        assert(a + b =~= a);
        assert(kept(a) + kept(b) =~= kept(a));
    } else {
        marked_monitors_are_left_out(a, b.drop_last(), info);
        assert((a + b).drop_last() =~= a + b.drop_last());
        assert((a + b).last() == b.last());
        assert(kept(a + b) =~= kept(a) + kept(b));
    }
}

/// A packet goes to the monitor with its index, to the first where there is none with it, and to
/// an empty rectangle where there is no monitor at all.
pub proof fn packet_finds_its_monitor(monitors: Seq<MonitorInfo>, index: i32)
    ensures
        0 <= index && index < monitors.len() ==> target_of(monitors, index)
            == monitors[index as int].rect,
        (index < 0 || index >= monitors.len()) && monitors.len() > 0 ==> target_of(monitors, index)
            == monitors[0].rect,
        monitors.len() == 0 ==> {
            let rect = target_of(monitors, index);
            rect.left == 0 && rect.top == 0 && rect.right == 0 && rect.bottom == 0
        },
{
}

/// A rectangle can be measured just where its width and its height are signed 32-bit numbers.
pub proof fn sides_that_fit_are_measured(rect: Rect)
    ensures
        is_measurable(rect) <==> (-0x8000_0000 <= rect.right - rect.left <= 0x7FFF_FFFF
            && -0x8000_0000 <= rect.bottom - rect.top <= 0x7FFF_FFFF),
{
}

/// A monitor is watched closely just where the focus is on it or was never told.
pub proof fn focus_is_on_one_or_all(focused: u32, m_idx: int)
    requires
        0 <= m_idx <= 0xFFFF_FFFF,
    ensures
        has_focus(focused, m_idx) <==> focused == m_idx || focused == 0xFFFF_FFFF,
{
}

} // verus!
