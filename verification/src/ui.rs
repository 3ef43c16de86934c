//! The dashboard state and the decisions of its event loop: which tab is
//! active, which row is selected, what each operator command or collector
//! outcome changes, and when a redraw is due.
use vstd::prelude::*;
use crate::aggregate::{aggregate, matched_pairs, rows_represent, sorted_rows};
use crate::pattern::{Tab, TabModel};
use crate::stats::StatsItem;
use crate::window::{stale_prefix_len, HistoryItem, SnapModel, Window};

verus! {

/// Startup configuration: the retention period in milliseconds and the
/// tabs, in display order. At least one tab must be configured.
pub struct UiOpts {
    pub retention_period: u64,
    pub tab: Vec<Tab>,
}

/// One decoded operator command.
pub enum InputEvent {
    /// Leave the event loop.
    Quit,
    /// Move one tab to the right.
    NextTab,
    /// Move one tab to the left.
    PrevTab,
    /// Move the row selection down.
    SelectDown,
    /// Move the row selection up.
    SelectUp,
    /// Any key the dashboard does not react to.
    Other,
}

/// One outcome of polling the snapshot delivery channel.
pub enum PollOutcome {
    /// A new snapshot arrived.
    Snapshot(HistoryItem),
    /// Nothing arrived within the poll timeout.
    Timeout,
    /// The collector hung up; fatal, as it is the sole data source.
    Closed,
}

/// The collector terminated: the loop must end and the error reach the
/// operator.
pub struct CollectorDisconnected;

/// What the loop does after a command: leave, and/or redraw the screen.
pub struct InputReaction {
    pub quit: bool,
    pub redraw: bool,
}

/// The active tab after a move right: one step, stopped at the last tab.
pub open spec fn next_tab_index(active: int, count: int) -> int {
    if active + 1 < count {
        active + 1
    } else {
        count - 1
    }
}

/// The active tab after a move left: one step, stopped at the first tab.
pub open spec fn prev_tab_index(active: int) -> int {
    if active > 0 {
        active - 1
    } else {
        0
    }
}

/// The selected row after a move down: one step (starting at the top when
/// nothing is selected), stopped at the last row.
pub open spec fn sel_down(sel: Option<usize>, row_count: int) -> int {
    let cand = match sel {
        Option::None => 0,
        Option::Some(i) => i as int + 1,
    };
    let bound = if row_count == 0 {
        0
    } else {
        row_count - 1
    };
    if cand <= bound {
        cand
    } else {
        bound
    }
}

/// The selected row after a move up: one step (starting at the top when
/// nothing is selected), stopped at the first row.
pub open spec fn sel_up(sel: Option<usize>) -> int {
    match sel {
        Option::None => 0,
        Option::Some(i) => if i > 0 {
            i as int - 1
        } else {
            0
        },
    }
}

/// However often the operator moves, the active tab stays inside
/// `[0, count - 1]`: both moves map that range into itself.
pub proof fn lemma_tab_nav_in_range(active: int, count: int)
    requires
        count > 0,
        0 <= active < count,
    ensures
        0 <= next_tab_index(active, count) < count,
        0 <= prev_tab_index(active) < count,
{
}

/// The dashboard's whole mutable state: the configured tabs, the retention
/// window of snapshots, and the operator's tab and row choice.
pub struct Ui {
    tabs: Vec<Tab>,
    window: Window,
    tab_index: usize,
    selected: Option<usize>,
}

impl Ui {
    /// The models of the configured tabs, in display order.
    pub closed spec fn tabs_model(&self) -> Seq<TabModel> {
        self.tabs@.map_values(|t: Tab| t@)
    }

    /// How many tabs are configured.
    pub closed spec fn tab_count(&self) -> int {
        self.tabs@.len() as int
    }

    /// The active tab's position.
    pub closed spec fn active(&self) -> int {
        self.tab_index as int
    }

    /// The selected row, if any.
    pub closed spec fn selection(&self) -> Option<usize> {
        self.selected
    }

    /// The models of the retained snapshots, oldest first.
    pub closed spec fn snaps(&self) -> Seq<SnapModel> {
        self.window.snaps()
    }

    /// The retention period, in milliseconds.
    pub closed spec fn retention(&self) -> u64 {
        self.window.retention()
    }

    /// There is at least one tab and the active one exists.
    pub open spec fn wf(&self) -> bool {
        &&& self.tab_count() > 0
        &&& 0 <= self.active() < self.tab_count()
    }

    /// A fresh dashboard: first tab active, nothing selected, no history.
    pub fn new(opt: UiOpts) -> (ui: Ui)
        requires
            opt.tab@.len() > 0,
        ensures
            ui.wf(),
            ui.active() == 0,
            ui.selection() is None,
            ui.snaps() == Seq::<SnapModel>::empty(),
            ui.retention() == opt.retention_period,
            ui.tabs_model() == opt.tab@.map_values(|t: Tab| t@),
    {
        Ui {
            window: Window::new(opt.retention_period),
            tabs: opt.tab,
            tab_index: 0,
            selected: None,
        }
    }

    /// Applies one operator command: quit leaves; tab moves step the active
    /// tab and redraw exactly when it moved; selection moves step the
    /// selected row, stopped at the table's ends, and always redraw; any
    /// other key changes nothing. The retained snapshots are untouched.
    pub fn handle_input(&mut self, ev: &InputEvent, row_count: usize) -> (r: InputReaction)
        requires
            old(self).wf(),
        ensures
            final(self).wf(),
            final(self).tabs_model() == old(self).tabs_model(),
            final(self).snaps() == old(self).snaps(),
            final(self).retention() == old(self).retention(),
            match ev {
                InputEvent::Quit => {
                    &&& r.quit
                    &&& !r.redraw
                    &&& final(self).active() == old(self).active()
                    &&& final(self).selection() == old(self).selection()
                },
                InputEvent::NextTab => {
                    &&& !r.quit
                    &&& final(self).active() == next_tab_index(
                        old(self).active(),
                        old(self).tab_count(),
                    )
                    &&& final(self).selection() == old(self).selection()
                    &&& r.redraw <==> final(self).active() != old(self).active()
                },
                InputEvent::PrevTab => {
                    &&& !r.quit
                    &&& final(self).active() == prev_tab_index(old(self).active())
                    &&& final(self).selection() == old(self).selection()
                    &&& r.redraw <==> final(self).active() != old(self).active()
                },
                InputEvent::SelectDown => {
                    &&& !r.quit
                    &&& r.redraw
                    &&& final(self).active() == old(self).active()
                    &&& final(self).selection() == Some(
                        sel_down(old(self).selection(), row_count as int) as usize,
                    )
                },
                InputEvent::SelectUp => {
                    &&& !r.quit
                    &&& r.redraw
                    &&& final(self).active() == old(self).active()
                    &&& final(self).selection() == Some(sel_up(old(self).selection()) as usize)
                },
                InputEvent::Other => {
                    &&& !r.quit
                    &&& !r.redraw
                    &&& final(self).active() == old(self).active()
                    &&& final(self).selection() == old(self).selection()
                },
            },
    {
        match ev {
            InputEvent::Quit => InputReaction { quit: true, redraw: false },
            InputEvent::NextTab => {
                let last = self.tabs.len() - 1;
                let target = if self.tab_index < last {
                    self.tab_index + 1
                } else {
                    last
                };
                let moved = target != self.tab_index;
                self.tab_index = target;
                InputReaction { quit: false, redraw: moved }
            },
            InputEvent::PrevTab => {
                let target = if self.tab_index > 0 {
                    self.tab_index - 1
                } else {
                    0
                };
                let moved = target != self.tab_index;
                self.tab_index = target;
                InputReaction { quit: false, redraw: moved }
            },
            InputEvent::SelectDown => {
                let bound = if row_count == 0 {
                    0
                } else {
                    row_count - 1
                };
                let target = match self.selected {
                    None => 0,
                    Some(i) => if i < bound {
                        i + 1
                    } else {
                        bound
                    },
                };
                self.selected = Some(target);
                InputReaction { quit: false, redraw: true }
            },
            InputEvent::SelectUp => {
                let target = match self.selected {
                    None => 0,
                    Some(i) => if i > 0 {
                        i - 1
                    } else {
                        0
                    },
                };
                self.selected = Some(target);
                InputReaction { quit: false, redraw: true }
            },
            InputEvent::Other => InputReaction { quit: false, redraw: false },
        }
    }

    /// Applies one poll outcome: a timeout changes nothing and the loop
    /// goes on; a new snapshot is ingested (with its eviction pass) and a
    /// redraw is due; a closed channel is the fatal collector loss, with
    /// the state untouched. The operator's choices are never affected.
    pub fn handle_poll(&mut self, outcome: PollOutcome) -> (r: Result<
        bool,
        CollectorDisconnected,
    >)
        requires
            old(self).wf(),
        ensures
            final(self).wf(),
            final(self).tabs_model() == old(self).tabs_model(),
            final(self).active() == old(self).active(),
            final(self).selection() == old(self).selection(),
            final(self).retention() == old(self).retention(),
            match outcome {
                PollOutcome::Timeout => {
                    &&& r == Ok::<bool, CollectorDisconnected>(false)
                    &&& final(self).snaps() == old(self).snaps()
                },
                PollOutcome::Closed => {
                    &&& r is Err
                    &&& final(self).snaps() == old(self).snaps()
                },
                PollOutcome::Snapshot(item) => {
                    &&& r == Ok::<bool, CollectorDisconnected>(true)
                    &&& final(self).snaps() == old(self).snaps().push(item@).skip(
                        stale_prefix_len(
                            old(self).snaps().push(item@),
                            item@.timestamp as int,
                            old(self).retention() as int,
                        ),
                    )
                    &&& old(self).retention() > 0 ==> {
                        &&& final(self).snaps().len() > 0
                        &&& final(self).snaps().last() == item@
                    }
                },
            },
    {
        match outcome {
            PollOutcome::Timeout => Ok(false),
            PollOutcome::Closed => Err(CollectorDisconnected),
            PollOutcome::Snapshot(item) => {
                self.window.ingest(item);
                Ok(true)
            },
        }
    }

    /// The aggregated table for `tab`, built from the latest retained
    /// snapshot alone; an empty table while no snapshot has arrived.
    pub fn latest_stats(&self, tab: &Tab) -> (rows: Vec<StatsItem>)
        ensures
            sorted_rows(rows@),
            self.snaps().len() == 0 ==> rows@ == Seq::<StatsItem>::empty(),
            self.snaps().len() > 0 ==> rows_represent(
                rows@,
                matched_pairs(tab@, self.snaps().last().connections),
            ),
    {
        match self.window.latest() {
            None => {
                let rows: Vec<StatsItem> = Vec::new();
                proof {
                    assert(rows@ =~= Seq::<StatsItem>::empty());
                }
                rows
            },
            Some(h) => aggregate(&h.connections, tab),
        }
    }

    /// The aggregated table for the active tab.
    pub fn aggregated_rows(&self) -> (rows: Vec<StatsItem>)
        requires
            self.wf(),
        ensures
            sorted_rows(rows@),
            self.snaps().len() == 0 ==> rows@ == Seq::<StatsItem>::empty(),
            self.snaps().len() > 0 ==> rows_represent(
                rows@,
                matched_pairs(self.tabs_model()[self.active()], self.snaps().last().connections),
            ),
    {
        self.latest_stats(&self.tabs[self.tab_index])
    }

    /// How many tabs are configured.
    pub fn tab_len(&self) -> (n: usize)
        ensures
            n as int == self.tab_count(),
    {
        self.tabs.len()
    }

    /// The name of the tab at `i`.
    pub fn tab_name(&self, i: usize) -> (name: &String)
        requires
            0 <= i < self.tab_count(),
        ensures
            name@ == self.tabs_model()[i as int].name,
    {
        self.tabs[i].label()
    }

    /// The active tab's position.
    pub fn active_tab_index(&self) -> (i: usize)
        ensures
            i as int == self.active(),
    {
        self.tab_index
    }

    /// The selected row, if any.
    pub fn selected_row(&self) -> (r: Option<usize>)
        ensures
            r == self.selection(),
    {
        self.selected
    }
}

} // verus!
