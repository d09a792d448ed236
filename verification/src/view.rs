//! What the controller shows: the list of monitors, the one that is selected, the grid.
use vstd::prelude::*;

use crate::control::{
    focus_packet, handle_input_static, id_index, id_port, index_of, input_packets,
    make_focus_packet, make_move_packet, make_wheel_packet, move_packet, place_after, port_of,
    views, wheel_packet, KeyEvent, Modifiers, PointerFrame, RightKeys,
};
use crate::packet::{InputPacket, PacketView, EVENT_WHEEL};
use crate::ports::{entries, listed, read_entries, PortEntry};
use crate::session::Session;
use crate::text::{decimal, push_decimal};

verus! {

/// What the controller shows and whether it passes input on.
#[derive(Clone, Copy, Debug, PartialEq, Eq, Structural)]
pub struct ViewState {
    /// Whether input goes to the selected monitor.
    pub input_active: bool,
    /// Whether all monitors are shown in a grid rather than the selected one.
    pub grid_view: bool,
    /// The monitor that is selected.
    pub selected: Option<u32>,
}

/// What the middle of the window shows.
#[derive(Clone, Copy, Debug, PartialEq, Eq, Structural)]
pub enum Centre {
    /// All monitors in a grid.
    Grid,
    /// One monitor.
    Monitor(u32),
    /// The request to select a monitor.
    Nothing,
}

impl ViewState {
    /// The view at the start.
    pub fn new() -> (view: ViewState)
        ensures
            view == (ViewState { input_active: false, grid_view: false, selected: None }),
    {
        ViewState { input_active: false, grid_view: false, selected: None }
    }

    /// Switches between passing input on and looking only. Nothing changes while nobody is logged
    /// in.
    pub fn toggle_input(&mut self, session: &Session)
        ensures
            *final(self) == (if session.login_state is LoggedIn {
                ViewState { input_active: !old(self).input_active, ..*old(self) }
            } else {
                *old(self)
            }),
    {
        if session.is_open() {
            self.input_active = !self.input_active;
        }
    }

    /// Selects a monitor and shows it. Nothing changes while nobody is logged in.
    pub fn select(&mut self, session: &Session, id: u32)
        ensures
            *final(self) == (if session.login_state is LoggedIn {
                ViewState { grid_view: false, selected: Some(id), ..*old(self) }
            } else {
                *old(self)
            }),
    {
        if session.is_open() {
            self.selected = Some(id);
            self.grid_view = false;
        }
    }

    /// Shows all monitors. The one that is selected stays so. Nothing changes while nobody is
    /// logged in.
    pub fn show_grid(&mut self, session: &Session)
        ensures
            *final(self) == (if session.login_state is LoggedIn {
                ViewState { grid_view: true, ..*old(self) }
            } else {
                *old(self)
            }),
    {
        if session.is_open() {
            self.grid_view = true;
        }
    }

    /// What the middle of the window shows.
    pub fn centre(&self) -> (centre: Centre)
        ensures
            centre == (if self.grid_view {
                Centre::Grid
            } else {
                match self.selected {
                    Some(id) => Centre::Monitor(id),
                    None => Centre::Nothing,
                }
            }),
    {
        if self.grid_view {
            Centre::Grid
        } else {
            match self.selected {
                Some(id) => Centre::Monitor(id),
                None => Centre::Nothing,
            }
        }
    }

    /// Tells whether a monitor is the one that is selected.
    pub fn is_selected(&self, id: u32) -> (selected: bool)
        ensures
            selected == (self.selected == Some(id)),
    {
        match self.selected {
            Some(current) => current == id,
            None => false,
        }
    }

    /// Whether a monitor is the one that is selected and shown.
    pub open spec fn shows(self, id: u32) -> bool {
        self.selected == Some(id) && !self.grid_view
    }

    /// Tells whether a monitor is the one that is selected and shown.
    pub fn is_shown(&self, id: u32) -> (shown: bool)
        ensures
            shown == self.shows(id),
    {
        self.is_selected(id) && !self.grid_view
    }
}

// ---------------------------------------------------------------------------------------
// The list of monitors
// ---------------------------------------------------------------------------------------

pub open spec fn is_sorted(ids: Seq<u32>) -> bool {
    forall|i: int, j: int| 0 <= i <= j < ids.len() ==> ids[i] <= ids[j]
}

/// Putting an element in puts it into the multiset.
proof fn lemma_insert_multiset(s: Seq<u32>, at: int, x: u32)
    requires
        0 <= at <= s.len(),
    ensures
        s.insert(at, x).to_multiset() == s.to_multiset().insert(x),
{
    let t = s.insert(at, x);
    assert(t.remove(at) =~= s);
    assert(t[at] == x);
    t.to_multiset_ensures();
    assert(t.contains(x));
    assert(t.to_multiset().count(x) > 0);
    assert(t.to_multiset() =~= t.to_multiset().remove(x).insert(x));
}

/// The monitors in the order of their numbers.
pub fn sorted_ids(ids: &Vec<u32>) -> (sorted: Vec<u32>)
    ensures
        is_sorted(sorted@),
        sorted@.to_multiset() == ids@.to_multiset(),
{
    let mut sorted: Vec<u32> = Vec::new();
    let mut i: usize = 0;
    assert(ids@.take(0) =~= sorted@);
    while i < ids.len()
        invariant
            i <= ids@.len(),
            is_sorted(sorted@),
            sorted@.to_multiset() == ids@.take(i as int).to_multiset(),
        decreases ids@.len() - i,
    {
        let x: u32 = ids[i];
        let mut at: usize = 0;
        while at < sorted.len() && sorted[at] <= x
            invariant
                at <= sorted@.len(),
                forall|j: int| 0 <= j < at ==> sorted@[j] <= x,
            decreases sorted@.len() - at,
        {
            at = at + 1;
        }
        let ghost before = sorted@;
        sorted.insert(at, x);
        proof {
            lemma_insert_multiset(before, at as int, x);
            assert(ids@.take(i as int + 1) =~= ids@.take(i as int).push(x));
            ids@.take(i as int).to_multiset_ensures();
            assert(is_sorted(sorted@)) by {
                assert forall|j: int, k: int| 0 <= j <= k < sorted@.len() implies sorted@[j]
                    <= sorted@[k] by {
                    if j < at && k > at {
                        assert(sorted@[k] == before[k - 1]);
                    } else if j == at && k > at {
                        assert(before[at as int] > x);
                        assert(sorted@[k] == before[k - 1]);
                    } else if j > at {
                        assert(sorted@[j] == before[j - 1]);
                        assert(sorted@[k] == before[k - 1]);
                    }
                }
            }
        }
        i = i + 1;
    }
    assert(ids@.take(ids@.len() as int) =~= ids@);
    sorted
}

/// The number under which a monitor is shown: indices count from zero, people from one.
pub open spec fn shown_number(id: u32) -> nat {
    (id_index(id) + 1) as nat
}

/// The label of a small picture: the number of the monitor and its user.
pub fn thumbnail_label(id: u32, owner: &str) -> (label: String)
    ensures
        label@ == "Monitor #"@ + decimal(shown_number(id)) + " ("@ + owner@ + ")"@,
{
    let mut label: String = String::new();
    label.append("Monitor #");
    push_decimal(&mut label, index_of(id) as u64 + 1);
    label.append(" (");
    label.append(owner);
    label.append(")");
    assert(label@ =~= "Monitor #"@ + decimal(shown_number(id)) + " ("@ + owner@ + ")"@);
    label
}

/// The label of a monitor in the list: its number and its worker's port.
pub fn monitor_label(id: u32) -> (label: String)
    ensures
        label@ == "🖥 모니터 #"@ + decimal(shown_number(id)) + " (Port: "@ + decimal(
            id_port(id) as nat,
        ) + ")"@,
{
    let mut label: String = String::new();
    label.append("🖥 모니터 #");
    push_decimal(&mut label, index_of(id) as u64 + 1);
    label.append(" (Port: ");
    push_decimal(&mut label, port_of(id) as u64);
    label.append(")");
    assert(label@ =~= "🖥 모니터 #"@ + decimal(shown_number(id)) + " (Port: "@ + decimal(
        id_port(id) as nat,
    ) + ")"@);
    label
}

/// The label of a monitor in the grid: as in the list, but with all of the number before the
/// last two digits.
pub fn grid_label(id: u32) -> (label: String)
    ensures
        label@ == "🖥 모니터 #"@ + decimal(shown_number(id)) + " (Port: "@ + decimal(
            (id / 100) as nat,
        ) + ")"@,
{
    let mut label: String = String::new();
    label.append("🖥 모니터 #");
    push_decimal(&mut label, index_of(id) as u64 + 1);
    label.append(" (Port: ");
    push_decimal(&mut label, (id / 100) as u64);
    label.append(")");
    assert(label@ =~= "🖥 모니터 #"@ + decimal(shown_number(id)) + " (Port: "@ + decimal(
        (id / 100) as nat,
    ) + ")"@);
    label
}

/// The line that tells which monitor is selected.
pub fn selection_label(selected: Option<u32>) -> (label: String)
    ensures
        label@ == (match selected {
            Some(id) => "선택됨: 모니터 #"@ + decimal(shown_number(id)) + " (포트: "@ + decimal(
                id_port(id) as nat,
            ) + ")"@,
            None => "하단에서 모니터를 선택하세요."@,
        }),
{
    match selected {
        Some(id) => {
            let mut label: String = String::new();
            label.append("선택됨: 모니터 #");
            push_decimal(&mut label, index_of(id) as u64 + 1);
            label.append(" (포트: ");
            push_decimal(&mut label, port_of(id) as u64);
            label.append(")");
            assert(label@ =~= "선택됨: 모니터 #"@ + decimal(shown_number(id)) + " (포트: "@ + decimal(
                id_port(id) as nat,
            ) + ")"@);
            label
        },
        None => "하단에서 모니터를 선택하세요.".to_owned(),
    }
}

// ---------------------------------------------------------------------------------------
// The news for workers
// ---------------------------------------------------------------------------------------

/// A packet and the port that it goes to.
#[derive(Debug)]
pub struct Outgoing {
    pub port: u16,
    pub packet: InputPacket,
}

/// Ports and packets of a list.
pub open spec fn outgoing_views(list: Seq<Outgoing>) -> Seq<(u16, PacketView)> {
    list.map_values(|o: Outgoing| (o.port, o.packet@))
}

/// What is sent while a monitor is shown: a movement of the mouse where input is passed on,
/// and a turn of the wheel in any case.
pub open spec fn motion_news(
    input_active: bool,
    id: u32,
    moved: Option<(i32, i32)>,
    turned: Option<i32>,
) -> Seq<(u16, PacketView)> {
    (match moved {
        Some((dx, dy)) if input_active => seq![(id_port(id), move_packet(dx, dy))],
        _ => Seq::empty(),
    }) + (match turned {
        Some(delta) => seq![(id_port(id), wheel_packet(delta))],
        None => Seq::empty(),
    })
}

/// What is sent while a monitor is shown.
pub fn motion_packets(
    input_active: bool,
    id: u32,
    moved: Option<(i32, i32)>,
    turned: Option<i32>,
) -> (list: Vec<Outgoing>)
    ensures
        outgoing_views(list@) == motion_news(input_active, id, moved, turned),
{
    let mut list: Vec<Outgoing> = Vec::new();
    let port: u16 = port_of(id);
    if input_active {
        match moved {
            Some((dx, dy)) => {
                list.push(Outgoing { port, packet: make_move_packet(dx, dy) });
            },
            None => {},
        }
    }
    match turned {
        Some(delta) => {
            list.push(Outgoing { port, packet: make_wheel_packet(delta) });
        },
        None => {},
    }
    assert(outgoing_views(list@) =~= motion_news(input_active, id, moved, turned));
    list
}

/// Packets on their way to one port.
pub open spec fn addressed(port: u16, packets: Seq<PacketView>) -> Seq<(u16, PacketView)> {
    packets.map_values(|p: PacketView| (port, p))
}

/// Everything that is sent for the monitor that is shown: movements and turns of the wheel, then,
/// where input is passed on, what the user did over the monitor. All of it goes to the worker of
/// the monitor.
pub open spec fn monitor_news(
    input_active: bool,
    id: u32,
    moved: Option<(i32, i32)>,
    turned: Option<i32>,
    input: Seq<PacketView>,
) -> Seq<(u16, PacketView)> {
    motion_news(input_active, id, moved, turned) + (if input_active {
        addressed(id_port(id), input)
    } else {
        Seq::empty()
    })
}

/// Everything that is sent for a monitor. Nothing is while nobody is logged in, or where the
/// monitor is not the one that is shown. The place of the pointer and the modifiers are remembered
/// where input is passed on.
pub fn monitor_input(
    session: &Session,
    view: &ViewState,
    id: u32,
    moved: Option<(i32, i32)>,
    turned: Option<i32>,
    pointer: &Option<PointerFrame>,
    last_place: &mut Option<(u32, u32)>,
    last_modifiers: &mut Modifiers,
    current_modifiers: Modifiers,
    right: RightKeys,
    events: &Vec<KeyEvent>,
) -> (list: Vec<Outgoing>)
    ensures
        session.login_state !is LoggedIn || !view.shows(id) ==> {
            &&& list@.len() == 0
            &&& *final(last_place) == *old(last_place)
            &&& *final(last_modifiers) == *old(last_modifiers)
        },
        session.login_state is LoggedIn && view.shows(id) ==> {
            &&& outgoing_views(list@) == monitor_news(
                view.input_active,
                id,
                moved,
                turned,
                input_packets(
                    id,
                    *pointer,
                    *old(last_place),
                    *old(last_modifiers),
                    current_modifiers,
                    right,
                    events@,
                ),
            )
            &&& *final(last_place) == (if view.input_active {
                place_after(*pointer, *old(last_place))
            } else {
                *old(last_place)
            })
            &&& *final(last_modifiers) == (if view.input_active {
                current_modifiers
            } else {
                *old(last_modifiers)
            })
        },
{
    if !session.is_open() || !view.is_shown(id) {
        return Vec::new();
    }
    let mut list: Vec<Outgoing> = motion_packets(view.input_active, id, moved, turned);
    let ghost motion = outgoing_views(list@);
    if !view.input_active {
        assert(motion + Seq::<(u16, PacketView)>::empty() =~= motion);
        return list;
    }
    let port: u16 = port_of(id);
    let packets: Vec<InputPacket> = handle_input_static(
        id,
        pointer,
        last_place,
        last_modifiers,
        current_modifiers,
        right,
        events,
    );
    let mut i: usize = 0;
    assert(outgoing_views(list@) =~= motion + addressed(port, views(packets@.take(0))));
    while i < packets.len()
        invariant
            i <= packets@.len(),
            outgoing_views(list@) == motion + addressed(port, views(packets@.take(i as int))),
        decreases packets@.len() - i,
    {
        let ghost before = list@;
        let packet: InputPacket = packets[i];
        list.push(Outgoing { port, packet });
        proof {
            assert(outgoing_views(list@) =~= outgoing_views(before).push((port, packet@)));
            assert(views(packets@.take(i as int + 1)) =~= views(packets@.take(i as int)).push(
                packet@,
            ));
            assert(addressed(port, views(packets@.take(i as int + 1))) =~= addressed(
                port,
                views(packets@.take(i as int)),
            ).push((port, packet@)));
            assert(outgoing_views(list@) =~= motion + addressed(
                port,
                views(packets@.take(i as int + 1)),
            ));
        }
        i = i + 1;
    }
    assert(packets@.take(packets@.len() as int) =~= packets@);
    list
}

/// Whatever is sent for a monitor goes to its own worker. Where input is not passed on, only
/// turns of the wheel are sent: no mouse message, no key and no text.
pub proof fn news_go_to_the_worker(
    input_active: bool,
    id: u32,
    moved: Option<(i32, i32)>,
    turned: Option<i32>,
    input: Seq<PacketView>,
    i: int,
)
    requires
        0 <= i < monitor_news(input_active, id, moved, turned, input).len(),
    ensures
        monitor_news(input_active, id, moved, turned, input)[i].0 == id_port(id),
        !input_active ==> monitor_news(input_active, id, moved, turned, input)[i].1.event_type
            == EVENT_WHEEL,
{
}

/// What is sent when the selection changes to a monitor: to every worker in the table of ports
/// the index of the monitor that now has the focus. Nothing is sent where the selection is as
/// before or there is none, or while nobody is logged in.
pub open spec fn focus_news(
    logged_in: bool,
    previous: Option<u32>,
    selected: Option<u32>,
    content: Seq<char>,
) -> Seq<(u16, PacketView)> {
    match selected {
        Some(id) => if logged_in && selected != previous {
            entries(content).map_values(
                |e: (Seq<char>, u16)| (e.1, focus_packet(id_index(id))),
            )
        } else {
            Seq::empty()
        },
        None => Seq::empty(),
    }
}

/// What is sent when the selection changes.
pub fn focus_packets(
    session: &Session,
    previous: Option<u32>,
    selected: Option<u32>,
    content: &str,
) -> (list: Vec<Outgoing>)
    ensures
        outgoing_views(list@) == focus_news(
            session.login_state is LoggedIn,
            previous,
            selected,
            content@,
        ),
{
    let mut list: Vec<Outgoing> = Vec::new();
    assert(outgoing_views(list@) =~= Seq::<(u16, PacketView)>::empty());
    if !session.is_open() {
        return list;
    }
    let id: u32 = match selected {
        Some(id) => id,
        None => {
            return list;
        },
    };
    let unchanged: bool = match previous {
        Some(before) => before == id,
        None => false,
    };
    if unchanged {
        return list;
    }
    let m_idx: u32 = index_of(id);
    let workers: Vec<PortEntry> = read_entries(content);
    let ghost all = listed(workers@);
    let mut i: usize = 0;
    while i < workers.len()
        invariant
            i <= workers@.len(),
            all == listed(workers@),
            m_idx == id_index(id),
            outgoing_views(list@) == all.take(i as int).map_values(
                |e: (Seq<char>, u16)| (e.1, focus_packet(id_index(id))),
            ),
        decreases workers@.len() - i,
    {
        let ghost before = list@;
        let out: Outgoing = Outgoing { port: workers[i].port, packet: make_focus_packet(m_idx) };
        list.push(out);
        proof {
            assert(all[i as int] == workers@[i as int]@);
            assert(outgoing_views(list@) =~= outgoing_views(before).push(
                (all[i as int].1, focus_packet(id_index(id))),
            ));
            assert(outgoing_views(list@) =~= all.take(i as int + 1).map_values(
                |e: (Seq<char>, u16)| (e.1, focus_packet(id_index(id))),
            ));
        }
        i = i + 1;
    }
    assert(all.take(workers@.len() as int) =~= all);
    list
}

// ---------------------------------------------------------------------------------------
// The grid
// ---------------------------------------------------------------------------------------

/// How many rows of `cols` it takes to show `count` monitors.
pub open spec fn rows_for(count: int, cols: int) -> int {
    if count % cols == 0 {
        count / cols
    } else {
        count / cols + 1
    }
}

/// The monitors in one row of the grid.
pub open spec fn row_of(ids: Seq<u32>, row: int, cols: int) -> Seq<u32> {
    let start = row * cols;
    let end = if start + cols < ids.len() {
        start + cols
    } else {
        ids.len() as int
    };
    ids.subrange(start, end)
}

/// Which monitor of the list stands in that row and column of the grid.
pub open spec fn position_in_list(row: int, col: int, cols: int) -> int {
    row * cols + col
}

/// How many rows of `cols` it takes to show `count` monitors.
pub fn grid_rows(count: usize, cols: usize) -> (rows: usize)
    requires
        cols >= 1,
    ensures
        rows == rows_for(count as int, cols as int),
{
    if count % cols == 0 {
        count / cols
    } else {
        assert(count / cols < usize::MAX) by (nonlinear_arith)
            requires
                cols >= 1,
                count % cols != 0,
                count <= usize::MAX,
        ;
        count / cols + 1
    }
}

/// A row within the grid starts within the list.
proof fn lemma_row_start(count: int, cols: int, row: int)
    requires
        cols >= 1,
        count >= 0,
        0 <= row < rows_for(count, cols),
    ensures
        0 <= row * cols < count,
{
    assert(0 <= row * cols < count) by (nonlinear_arith)
        requires
            cols >= 1,
            count >= 0,
            0 <= row,
            row < (if count % cols == 0 {
                count / cols
            } else {
                count / cols + 1
            }),
    ;
}

/// The monitors in one row of the grid.
pub fn grid_row(ids: &Vec<u32>, row: usize, cols: usize) -> (shown: Vec<u32>)
    requires
        cols >= 1,
        row < rows_for(ids@.len() as int, cols as int),
    ensures
        shown@ == row_of(ids@, row as int, cols as int),
{
    proof {
        lemma_row_start(ids@.len() as int, cols as int, row as int);
        assert(row * cols < ids.len());
    }
    let start: usize = row * cols;
    let end: usize = if cols < ids.len() - start { start + cols } else { ids.len() };
    let mut shown: Vec<u32> = Vec::new();
    let mut i: usize = start;
    while i < end
        invariant
            start <= i <= end,
            end <= ids@.len(),
            shown@ == ids@.subrange(start as int, i as int),
        decreases end - i,
    {
        shown.push(ids[i]);
        assert(shown@ =~= ids@.subrange(start as int, i as int + 1));
        i = i + 1;
    }
    shown
}

/// The grid shows every monitor, in the order of the list, and none twice: the monitor at
/// position `i` stands in row `i / cols` at column `i % cols`, and that row is in the grid.
pub proof fn grid_shows_each_monitor_once(ids: Seq<u32>, cols: int, i: int)
    requires
        cols >= 1,
        0 <= i < ids.len(),
    ensures
        0 <= i / cols < rows_for(ids.len() as int, cols),
        0 <= i % cols < row_of(ids, i / cols, cols).len(),
        row_of(ids, i / cols, cols)[i % cols] == ids[i],
        forall|row: int, col: int|
            0 <= row < rows_for(ids.len() as int, cols) && 0 <= col < row_of(ids, row, cols).len()
                && #[trigger] position_in_list(row, col, cols) == i ==> row == i / cols && col == i
                % cols,
{
    let n = ids.len() as int;
    assert(0 <= i / cols && i / cols < (if n % cols == 0 {
        n / cols
    } else {
        n / cols + 1
    })) by (nonlinear_arith)
        requires
            cols >= 1,
            0 <= i < n,
    ;
    assert((i / cols) * cols + i % cols == i && 0 <= i % cols < cols) by (nonlinear_arith)
        requires
            cols >= 1,
    ;
    lemma_row_start(n, cols, i / cols);
    assert forall|row: int, col: int|
        0 <= row < rows_for(n, cols) && 0 <= col < row_of(ids, row, cols).len()
            && #[trigger] position_in_list(row, col, cols) == i implies row == i / cols && col == i % cols by {
        lemma_row_start(n, cols, row);
        assert(col < cols);
        assert(row == i / cols && col == i % cols) by (nonlinear_arith)
            requires
                cols >= 1,
                0 <= col < cols,
                0 <= row,
                row * cols + col == i,
        ;
    }
}

// ---------------------------------------------------------------------------------------
// What is shown and sent
// ---------------------------------------------------------------------------------------

/// A monitor is shown just where it is the selected one and the grid is not shown instead.
pub proof fn selected_monitor_is_shown(view: ViewState, id: u32)
    ensures
        view.shows(id) <==> (match view.selected {
            Some(selected) => selected == id && !view.grid_view,
            None => false,
        }),
{
}

/// In a sorted list no number stands before a smaller one, and where none does the list is sorted.
pub proof fn sorted_lists_never_fall(ids: Seq<u32>, i: int, j: int)
    ensures
        is_sorted(ids) && 0 <= i < j < ids.len() ==> ids[i] <= ids[j],
        !is_sorted(ids) ==> exists|k: int, l: int|
            0 <= k < l < ids.len() && #[trigger] ids[k] > #[trigger] ids[l],
{
    if !is_sorted(ids) {
        let (k, l) = choose|k: int, l: int|
            0 <= k <= l < ids.len() && !(#[trigger] ids[k] <= #[trigger] ids[l]);
        assert(ids[k] > ids[l]);
    }
}

/// People count monitors from one.
pub proof fn monitors_count_from_one(id: u32)
    ensures
        1 <= shown_number(id) <= 100,
        (shown_number(id) - 1 - id) % 100 == 0,
{
}

/// Packets and ports are viewed one by one.
pub proof fn outgoing_is_viewed_one_by_one(list: Seq<Outgoing>, i: int)
    requires
        0 <= i < list.len(),
    ensures
        outgoing_views(list).len() == list.len(),
        outgoing_views(list)[i].0 == list[i].port,
        outgoing_views(list)[i].1 == list[i].packet@,
{
}

/// What is sent of motion. A movement goes out just where there was one and input is passed on,
/// first and with its distance; a turn of the wheel just where there was one, with its amount;
/// both to the worker of the monitor.
pub proof fn motion_is_sent_as_it_was(
    input_active: bool,
    id: u32,
    moved: Option<(i32, i32)>,
    turned: Option<i32>,
)
    ensures
        ({
            let sent = motion_news(input_active, id, moved, turned);
            let goes = input_active && moved is Some;
            &&& sent.len() == (if goes {
                1int
            } else {
                0int
            }) + (if turned is Some {
                1int
            } else {
                0int
            })
            &&& goes ==> {
                &&& sent[0].0 == (id / 100) % 65536
                &&& sent[0].1.event_type == 0 && sent[0].1.msg == 1
                &&& sent[0].1.x_delta == (moved->0).0 && sent[0].1.y_delta == (moved->0).1
            }
            &&& turned is Some ==> {
                &&& sent.last().0 == (id / 100) % 65536
                &&& sent.last().1.event_type == 4
                &&& sent.last().1.wheel_delta == turned->0
            }
        }),
{
}

/// What is sent for the monitor that is shown: what is sent of motion, and behind it, where input
/// is passed on and only there, every packet of what the user did, in order, to the worker of the
/// monitor.
pub proof fn input_follows_motion(
    input_active: bool,
    id: u32,
    moved: Option<(i32, i32)>,
    turned: Option<i32>,
    input: Seq<PacketView>,
    i: int,
)
    ensures
        ({
            let sent = monitor_news(input_active, id, moved, turned, input);
            let motion = motion_news(input_active, id, moved, turned);
            let n = motion.len() as int;
            &&& sent.len() >= n && sent.take(n) == motion
            &&& !input_active ==> sent.len() == n
            &&& input_active ==> sent.len() == n + input.len()
            &&& input_active && 0 <= i < input.len() ==> {
                &&& sent[n + i].0 == (id / 100) % 65536
                &&& sent[n + i].1 == input[i]
            }
        }),
{
    let sent = monitor_news(input_active, id, moved, turned, input);
    let motion = motion_news(input_active, id, moved, turned);
    assert(sent.take(motion.len() as int) =~= motion);
}

/// What is sent of a selection. It is told just where somebody is logged in, a monitor is selected
/// and it is another than before: then to every worker in the table, in order, as the news that
/// the monitor with its index has the focus.
pub proof fn selection_is_told_to_every_worker(
    logged_in: bool,
    previous: Option<u32>,
    selected: Option<u32>,
    content: Seq<char>,
    i: int,
)
    ensures
        ({
            let sent = focus_news(logged_in, previous, selected, content);
            let told = logged_in && (match (previous, selected) {
                (Some(before), Some(now)) => before != now,
                (None, Some(now)) => true,
                (_, None) => false,
            });
            &&& !told ==> sent.len() == 0
            &&& told ==> sent.len() == entries(content).len()
            &&& told && 0 <= i < entries(content).len() ==> {
                &&& sent[i].0 == entries(content)[i].1
                &&& sent[i].1.event_type == 3
                &&& sent[i].1.msg == selected->0 % 100
            }
        }),
{
}

/// The grid has just as many rows as it takes, and each row holds the next monitors of the list.
pub proof fn rows_hold_the_list(ids: Seq<u32>, cols: int, row: int, col: int)
    requires
        cols >= 1,
        0 <= row < rows_for(ids.len() as int, cols),
    ensures
        rows_for(ids.len() as int, cols) * cols >= ids.len(),
        (rows_for(ids.len() as int, cols) - 1) * cols < ids.len(),
        row_of(ids, row, cols).len() <= cols,
        row < rows_for(ids.len() as int, cols) - 1 ==> row_of(ids, row, cols).len() == cols,
        0 <= col < row_of(ids, row, cols).len() ==> row_of(ids, row, cols)[col] == ids[row * cols
            + col],
        row == rows_for(ids.len() as int, cols) - 1 ==> row * cols + row_of(ids, row, cols).len()
            == ids.len(),
{
    let n = ids.len() as int;
    let rows = rows_for(n, cols);
    lemma_row_start(n, cols, row);
    lemma_row_start(n, cols, rows - 1);
    assert(rows * cols >= n) by (nonlinear_arith)
        requires
            cols >= 1,
            n >= 0,
            rows == (if n % cols == 0 {
                n / cols
            } else {
                n / cols + 1
            }),
    ;
    assert(row * cols + cols == (row + 1) * cols) by (nonlinear_arith);
    if row < rows - 1 {
        assert((row + 1) * cols <= (rows - 1) * cols) by (nonlinear_arith)
            requires
                cols >= 1,
                row + 1 <= rows - 1,
        ;
    } else {
        assert((row + 1) * cols == rows * cols);
    }
}

} // verus!
