//! One frame of the sheet: keys in, user intents and index writes out.

use vstd::prelude::*;

use crate::export::contents;
use crate::grid::{cursor_fits, loupe_fits, view_fits, GridView, OpenRequest};
use crate::loupe::{pressed, unwrapped, LoupeKeys, LoupeView, LoupeWrites, Outcome};
use crate::model::{Label, PhotoId};
use crate::progress::export_paths;
use crate::selection::{ids_between, label_applied, stepped, stepped_cursor, turn_applied, NavKey};
use crate::widgets::{next_preset, RotateDir};

verus! {

/// What the user wants.
#[derive(Debug)]
pub enum Action {
    /// Choose a folder.
    PickFolder,
    /// Browse this folder.
    OpenFolder(String),
    /// Leave the folder.
    BackToHome,
    /// Show what the program is.
    ShowAbout,
    /// Copy these files of a folder.
    Export { root: String, files: Vec<String> },
}

/// Keys that went down this frame.
#[derive(Clone, Copy, Debug, PartialEq, Eq)]
pub struct SheetKeys {
    /// Leave the folder.
    pub escape: bool,
    /// Open the loupe.
    pub enter: bool,
    /// Likewise.
    pub space: bool,
    /// Open the lightbox.
    pub lightbox: bool,
    /// Move the cursor.
    pub nav: Option<NavKey>,
    /// Select everything shown.
    pub select_all: bool,
    /// Select nothing.
    pub select_none: bool,
    /// Export.
    pub export: bool,
    /// Next filter preset.
    pub filter: bool,
    /// Flip auto-advance.
    pub tab: bool,
    /// Label of a digit key.
    pub label: Option<Label>,
    /// Turn.
    pub rotate: Option<RotateDir>,
}

/// What has to be written to the index.
#[derive(Debug)]
pub struct SheetWrites {
    /// New auto-advance setting.
    pub auto_advance: Option<bool>,
    /// Photos that got the label of this frame's digit key.
    pub labeled: Vec<PhotoId>,
    /// New turns.
    pub turned: Vec<(PhotoId, u8)>,
}

/// The sheet with the loupe that was asked for in an earlier frame.
pub open spec fn mounted(grid: GridView, suspended: bool) -> GridView {
    if grid.loupe is None && !suspended {
        GridView {
            loupe: match grid.open_requested {
                Some(request) => Some(
                    LoupeView { index: request.index, lightbox: request.lightbox, white_bg: false, refit: true },
                ),
                None => None,
            },
            open_requested: None,
            ..grid
        }
    } else {
        grid
    }
}

/// Whether keys go to the sheet: there are tiles, and neither the loupe nor a
/// dialog is in front.
pub open spec fn takes_keys(grid: GridView, suspended: bool) -> bool {
    grid.loupe is None && grid.view@.len() > 0 && !suspended
}

/// `after` is `before` with the next filter preset.
pub open spec fn preset_cycled(before: GridView, after: GridView) -> bool {
    &&& after.filter@ == next_preset(before.filter@)
    &&& view_fits(before.entries@, after.filter@, before.sort, before.taken_at@, after.view@)
    &&& cursor_fits(before.view@, before.cursor, after.view@, after.cursor)
    &&& loupe_fits(before.view@, before.loupe, after.view@, after.loupe)
    &&& after.scroll_target == (match after.cursor {
        Some(p) => Some(p),
        None => before.scroll_target,
    })
    &&& after == (GridView {
        filter: after.filter,
        view: after.view,
        cursor: after.cursor,
        scroll_target: after.scroll_target,
        loupe: after.loupe,
        ..before
    })
}

/// What the export key of the sheet copies.
pub open spec fn export_list(grid: GridView) -> Seq<Seq<char>> {
    export_paths(grid.root@, grid.entries@, grid.view@, grid.selection@, grid.view@.len() as int)
}

/// The action of the escape and export keys: an export of something, unless
/// one is running, comes before leaving.
pub open spec fn action_fits(grid: GridView, escape: bool, export: bool, action: Option<Action>) -> bool {
    if export && grid.export_done >= grid.export_total && export_list(grid).len() > 0 {
        action matches Some(Action::Export { root, files }) && root@ == grid.root@ && contents(files@) == export_list(
            grid,
        )
    } else if escape {
        action == Some(Action::BackToHome)
    } else {
        action is None
    }
}

/// `after` is `before` with the selection keys applied: everything shown, then
/// nothing.
pub open spec fn selection_swept(before: GridView, all: bool, none: bool, after: GridView) -> bool {
    &&& after == (GridView { selection: after.selection, ..before })
    &&& after.selection@ == (if none {
        Set::empty()
    } else if all {
        ids_between(before.entries@, before.view@, 0, before.view@.len() as int)
    } else {
        before.selection@
    })
}

/// The sheet after an arrow key.
pub open spec fn cursor_moved(grid: GridView, nav: Option<NavKey>, columns: usize) -> GridView {
    match (grid.cursor, nav) {
        (Some(cursor), Some(key)) => match stepped(cursor, key, columns, grid.view@.len() as usize) {
            Some(next) => GridView { cursor: Some(next), scroll_target: Some(next), ..grid },
            None => grid,
        },
        _ => grid,
    }
}

/// The sheet after the keys that open the loupe.
pub open spec fn open_asked(grid: GridView, keys: SheetKeys) -> GridView {
    if keys.enter || keys.space || keys.lightbox {
        GridView {
            open_requested: Some(
                OpenRequest {
                    index: match grid.cursor {
                        Some(c) => c,
                        None => 0,
                    },
                    lightbox: keys.lightbox,
                },
            ),
            ..grid
        }
    } else {
        grid
    }
}

/// The sheet between the keys of a frame.
pub struct KeyTrace {
    /// After the selection keys.
    pub swept: GridView,
    /// After the digit key.
    pub labeled: GridView,
    /// After the turn key.
    pub turned: GridView,
}

/// The keys of a sheet that takes them, one after the other: flip auto-advance,
/// select, label, turn, move and open.
pub open spec fn keys_fit(
    before: GridView,
    keys: SheetKeys,
    columns: usize,
    trace: KeyTrace,
    after: GridView,
    writes: SheetWrites,
) -> bool {
    let advance = if keys.tab {
        !before.auto_advance
    } else {
        before.auto_advance
    };
    &&& writes.auto_advance == (if keys.tab {
        Some(advance)
    } else {
        None
    })
    &&& selection_swept(
        GridView { auto_advance: advance, ..before },
        keys.select_all,
        keys.select_none,
        trace.swept,
    )
    &&& match keys.label {
        Some(label) => label_applied(trace.swept, label, trace.labeled, writes.labeled@),
        None => trace.labeled == trace.swept && writes.labeled@.len() == 0,
    }
    &&& match keys.rotate {
        Some(direction) => turn_applied(trace.labeled, direction, trace.turned, writes.turned@),
        None => trace.turned == trace.labeled && writes.turned@.len() == 0,
    }
    &&& after == open_asked(cursor_moved(trace.turned, keys.nav, columns), keys)
}

/// The sheet took the keys of a frame.
pub open spec fn keys_taken(
    before: GridView,
    keys: SheetKeys,
    columns: usize,
    after: GridView,
    writes: SheetWrites,
) -> bool {
    exists|trace: KeyTrace| #[trigger] keys_fit(before, keys, columns, trace, after, writes)
}

/// A frame of keys: mount the loupe, cycle the filter (`filtered` is the sheet
/// after that), decide the action and, if the sheet takes keys, take them.
pub open spec fn frame_fits(
    before: GridView,
    keys: SheetKeys,
    columns: usize,
    suspended: bool,
    filtered: GridView,
    after: GridView,
    action: Option<Action>,
    writes: SheetWrites,
) -> bool {
    let start = mounted(before, suspended);
    let live = takes_keys(start, suspended);
    &&& if !start.loading && !suspended && keys.filter {
        preset_cycled(start, filtered)
    } else {
        filtered == start
    }
    &&& action_fits(filtered, start.loupe is None && !suspended && keys.escape, live && keys.export, action)
    &&& if live {
        keys_taken(filtered, keys, columns, after, writes)
    } else {
        &&& after == filtered
        &&& writes.auto_advance is None
        &&& writes.labeled@.len() == 0
        &&& writes.turned@.len() == 0
    }
}

impl GridView {
    fn mount_loupe(&mut self, suspended: bool)
        ensures
            *final(self) == mounted(*old(self), suspended),
    {
        if self.loupe.is_none() && !suspended {
            self.loupe = match self.open_requested.take() {
                Some(request) => Some(
                    if request.lightbox {
                        LoupeView::at_in_lightbox(request.index)
                    } else {
                        LoupeView::at(request.index)
                    },
                ),
                None => None,
            };
        }
    }

    fn key_action(&self, escape: bool, export: bool) -> (action: Option<Action>)
        ensures
            action_fits(*self, escape, export, action),
    {
        if export && !self.is_exporting() {
            let files: Vec<String> = self.export_set();
            proof {
                assert(contents(files@).len() == files@.len());
            }
            if files.len() > 0 {
                return Some(Action::Export { root: self.root.clone(), files });
            }
        }
        if escape {
            Some(Action::BackToHome)
        } else {
            None
        }
    }

    /// The action of the export button.
    pub fn export_action(&self) -> (action: Option<Action>)
        ensures
            action_fits(*self, false, true, action),
    {
        self.key_action(false, true)
    }

    fn sweep(&mut self, all: bool, none: bool)
        ensures
            selection_swept(*old(self), all, none, *final(self)),
    {
        if all {
            self.select_all();
        }
        if none {
            self.select_none();
        }
    }

    fn move_cursor(&mut self, nav: Option<NavKey>, columns: usize)
        requires
            old(self).view@.len() == 0 ==> old(self).cursor is None,
        ensures
            *final(self) == cursor_moved(*old(self), nav, columns),
    {
        match (self.cursor, nav) {
            (Some(cursor), Some(key)) => match stepped_cursor(cursor, key, columns, self.view.len()) {
                Some(next) => {
                    self.cursor = Some(next);
                    self.scroll_target = Some(next);
                },
                None => {},
            },
            _ => {},
        }
    }

    fn ask_open(&mut self, keys: SheetKeys)
        ensures
            *final(self) == open_asked(*old(self), keys),
    {
        if keys.enter || keys.space || keys.lightbox {
            let index: usize = match self.cursor {
                Some(c) => c,
                None => 0,
            };
            self.open_requested = Some(OpenRequest { index, lightbox: keys.lightbox });
        }
    }

    fn take_keys(&mut self, keys: SheetKeys, columns: usize) -> (writes: SheetWrites)
        requires
            old(self).wf(),
            old(self).view@.len() == 0 ==> old(self).cursor is None,
        ensures
            final(self).wf(),
            keys_taken(*old(self), keys, columns, *final(self), writes),
    {
        let mut auto_advance: Option<bool> = None;
        if keys.tab {
            self.auto_advance = !self.auto_advance;
            auto_advance = Some(self.auto_advance);
        }
        self.sweep(keys.select_all, keys.select_none);
        let ghost swept = *self;
        let labeled: Vec<PhotoId> = match keys.label {
            Some(label) => self.apply_label(label),
            None => Vec::new(),
        };
        let ghost after_label = *self;
        let turned: Vec<(PhotoId, u8)> = match keys.rotate {
            Some(direction) => self.apply_rotation(direction),
            None => Vec::new(),
        };
        let ghost after_turn = *self;
        self.move_cursor(keys.nav, columns);
        self.ask_open(keys);
        let writes = SheetWrites { auto_advance, labeled, turned };
        proof {
            let trace = KeyTrace { swept, labeled: after_label, turned: after_turn };
            assert(keys_fit(*old(self), keys, columns, trace, *self, writes));
        }
        writes
    }

    fn filter_key(&mut self, cycle: bool)
        requires
            old(self).wf(),
        ensures
            final(self).wf(),
            if cycle {
                preset_cycled(*old(self), *final(self))
            } else {
                *final(self) == *old(self)
            },
    {
        if cycle {
            self.cycle_filter();
        }
    }

    /// One frame of keys. While a dialog covers the screen (`suspended`) they
    /// do nothing; while the loupe is open only the filter key does.
    pub fn ui(&mut self, keys: SheetKeys, columns: usize, suspended: bool) -> (result: (Option<Action>, SheetWrites))
        requires
            old(self).wf(),
        ensures
            final(self).wf(),
            exists|filtered: GridView| #[trigger]
                frame_fits(*old(self), keys, columns, suspended, filtered, *final(self), result.0, result.1),
    {
        self.mount_loupe(suspended);
        let escape: bool = self.loupe.is_none() && !suspended && keys.escape;
        let live: bool = self.loupe.is_none() && self.view.len() > 0 && !suspended;
        let cycle: bool = !self.loading && !suspended && keys.filter;
        self.filter_key(cycle);
        let ghost filtered = *self;
        let action: Option<Action> = self.key_action(escape, live && keys.export);
        let writes: SheetWrites = if live {
            self.take_keys(keys, columns)
        } else {
            SheetWrites { auto_advance: None, labeled: Vec::new(), turned: Vec::new() }
        };
        let result = (action, writes);
        proof {
            assert(frame_fits(*old(self), keys, columns, suspended, filtered, *self, result.0, result.1));
        }
        result
    }

    /// One frame of the open loupe. When it closes, the cursor stands on the
    /// photo it showed.
    pub fn loupe_ui(&mut self, keys: LoupeKeys, suspended: bool) -> (writes: LoupeWrites)
        requires
            old(self).wf(),
        ensures
            final(self).wf(),
            loupe_frame_fits(*old(self), keys, suspended, *final(self), writes),
    {
        let mut writes = LoupeWrites { auto_advance: None, label: None, rotation: None };
        let taken: Option<LoupeView> = self.loupe;
        match taken {
            None => {},
            Some(open) => {
                let mut active: LoupeView = open;
                let ghost before = self.entries@;
                let (outcome, asked) = active.ui(keys, &mut self.entries, &self.view, &mut self.auto_advance, suspended);
                proof {
                    assert(self.entries@.len() == before.len());
                }
                writes = asked;
                match outcome {
                    Outcome::Close => {
                        self.cursor = Some(active.index());
                        self.scroll_target = Some(active.index());
                        self.loupe = None;
                    },
                    Outcome::Stay => {
                        self.loupe = Some(active);
                    },
                }
            },
        }
        writes
    }
}

/// The loupe closed on its photo.
pub open spec fn loupe_closed(grid: GridView, loupe: LoupeView) -> GridView {
    GridView { cursor: Some(loupe.index), scroll_target: Some(loupe.index), loupe: None, ..grid }
}

/// A frame of the open loupe on the sheet.
pub open spec fn loupe_frame_fits(
    before: GridView,
    keys: LoupeKeys,
    suspended: bool,
    after: GridView,
    writes: LoupeWrites,
) -> bool {
    let nothing = LoupeWrites { auto_advance: None, label: None, rotation: None };
    match before.loupe {
        None => after == before && writes == nothing,
        Some(open) => if open.index >= before.view@.len() {
            after == loupe_closed(before, open) && writes == nothing
        } else if suspended {
            after == before && writes == nothing
        } else {
            match unwrapped(open, keys) {
                None => after == loupe_closed(before, open) && writes == nothing,
                Some(loupe) => {
                    let frame = pressed(loupe, before.entries@, before.view@, before.auto_advance, keys);
                    &&& writes == frame.writes
                    &&& after.entries@ == frame.entries
                    &&& after == (GridView {
                        entries: after.entries,
                        loupe: Some(frame.loupe),
                        auto_advance: frame.auto_advance,
                        ..before
                    })
                },
            }
        },
    }
}

} // verus!
