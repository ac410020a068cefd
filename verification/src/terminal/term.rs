//! The terminal: the grid with the scrollback view, selection, clipboard,
//! images, notifications and the state of the escape sequences in progress.
//! It holds no process or device: the bytes a program writes are handed to
//! it, and the replies it owes the program collect in `pty_response`.

use std::collections::VecDeque;
use vstd::prelude::*;

use crate::terminal::grid::{mark_rows_all, Grid, GridModel, MAX_SCROLLBACK};
use crate::terminal::images::ImageRegistry;
use crate::terminal::kitty::KittyDecoder;
use crate::terminal::notify::{Notification, NotificationProgress};
use crate::terminal::selection::{CopyModeState, SearchState, Selection};
use crate::terminal::sixel::SixelDecoder;

verus! {

/// Maximum notification history entries
pub const MAX_NOTIFICATIONS: usize = 100;

/// Maximum APC buffer size (4MB - for Kitty graphics images)
pub const MAX_APC_BUFFER_SIZE: usize = 4194304;

/// DCS sequence handler
pub enum DcsHandler {
    /// Sixel graphics
    Sixel(SixelDecoder),
    /// XTGETTCAP (terminal capability query)
    XtGetTcap(Vec<u8>),
    /// DECRQSS (request selection or setting)
    Decrqss(Vec<u8>),
}

/// APC parse state
#[derive(Debug, Clone, Copy, PartialEq, Eq, Structural)]
pub enum ApcState {
    /// Normal state
    Normal,
    /// ESC detected
    Escape,
    /// ESC _ detected, collecting APC data
    InApc,
    /// Waiting for APC termination (ESC detected)
    ApcEscape,
}

/// Terminal emulator state
pub struct Terminal {
    /// Character grid
    pub grid: Grid,
    /// Scroll offset (0=live, >0=viewing history)
    pub scroll_offset: usize,
    /// Text selection range
    pub selection: Option<Selection>,
    /// Internal clipboard
    pub clipboard: String,
    /// Set when the clipboard changed and should be written out
    pub clipboard_changed: bool,
    /// Image registry (Sixel, Kitty, etc.)
    pub images: ImageRegistry,
    /// DCS sequence handler (during Sixel parsing)
    pub dcs_handler: Option<DcsHandler>,
    /// Kitty graphics decoder (during APC parsing)
    pub kitty_decoder: Option<KittyDecoder>,
    /// APC parse state
    pub apc_state: ApcState,
    /// APC data buffer
    pub apc_buffer: Vec<u8>,
    /// Cell width (pixels, for image placement calculation)
    pub cell_width: u32,
    /// Cell height (pixels, for image placement calculation)
    pub cell_height: u32,
    /// Search state (None = search mode OFF)
    pub search: Option<SearchState>,
    /// Copy mode state (None = normal mode)
    pub copy_mode: Option<CopyModeState>,
    /// Current directory (OSC 7)
    pub current_directory: Option<String>,
    /// Replies owed to the program (device reports, query answers)
    pub pty_response: Vec<u8>,
    /// Image IDs whose GPU textures need re-upload (image data changed for existing ID)
    pub dirty_image_ids: Vec<u32>,
    /// Notification history (oldest first, max MAX_NOTIFICATIONS)
    pub notifications: VecDeque<Notification>,
    /// Monotonically increasing counter for notification toast detection
    pub notification_seq: u64,
    /// Whether notifications are enabled (config: notifications.enabled)
    pub notifications_enabled: bool,
    /// Current progress bar state (OSC 9;4)
    pub active_progress: Option<NotificationProgress>,
    /// Pending OSC 99 notifications (incomplete), in arrival order
    pub pending_notifications: Vec<Notification>,
    /// Allow Kitty graphics remote file/shm transfers (from config)
    pub allow_kitty_remote: bool,
}

impl Terminal {
    /// Every field but the grid and the replies owed is as in `other`.
    pub open spec fn same_apart_from_grid_and_reply(&self, other: Terminal) -> bool {
        &&& self.scroll_offset == other.scroll_offset
        &&& self.selection == other.selection
        &&& self.clipboard == other.clipboard
        &&& self.clipboard_changed == other.clipboard_changed
        &&& self.images == other.images
        &&& self.dcs_handler == other.dcs_handler
        &&& self.kitty_decoder == other.kitty_decoder
        &&& self.apc_state == other.apc_state
        &&& self.apc_buffer == other.apc_buffer
        &&& self.cell_width == other.cell_width
        &&& self.cell_height == other.cell_height
        &&& self.search == other.search
        &&& self.copy_mode == other.copy_mode
        &&& self.current_directory == other.current_directory
        &&& self.dirty_image_ids == other.dirty_image_ids
        &&& self.notifications == other.notifications
        &&& self.notification_seq == other.notification_seq
        &&& self.notifications_enabled == other.notifications_enabled
        &&& self.active_progress == other.active_progress
        &&& self.pending_notifications == other.pending_notifications
        &&& self.allow_kitty_remote == other.allow_kitty_remote
    }

    /// The terminal's invariants: those of its grid and image registry, and
    /// a scroll offset within the scrollback.
    pub open spec fn wf(&self) -> bool {
        &&& self.grid.wf()
        &&& self.images.wf()
        &&& self.selection matches Some(s) ==> s.wf()
        &&& self.dcs_handler matches Some(DcsHandler::Sixel(d)) ==> d.wf()
        &&& self.copy_mode matches Some(cm) ==> cm.cursor_col < usize::MAX && cm.anchor_col
            < usize::MAX
    }

    /// A terminal just made: an empty grid of `cols` by `rows` cells keeping
    /// `max_scrollback` lines, at the live view, with nothing selected,
    /// copied, stored, pending or owed, notifications on and remote Kitty
    /// transfers off.
    pub open spec fn is_fresh(&self, cols: nat, rows: nat, max_scrollback: nat) -> bool {
        &&& self.grid@ == crate::terminal::grid::initial_grid(cols, rows, max_scrollback)
        &&& self.scroll_offset == 0
        &&& self.selection is None
        &&& self.clipboard@ == Seq::<char>::empty()
        &&& !self.clipboard_changed
        &&& self.images@ == Map::<u32, crate::terminal::images::TerminalImage>::empty()
        &&& self.images.next_id_value() == 1
        &&& self.dcs_handler is None
        &&& self.kitty_decoder is None
        &&& self.apc_state == ApcState::Normal
        &&& self.apc_buffer@ == Seq::<u8>::empty()
        &&& self.cell_width == 0
        &&& self.cell_height == 0
        &&& self.search is None
        &&& self.copy_mode is None
        &&& self.current_directory is None
        &&& self.pty_response@ == Seq::<u8>::empty()
        &&& self.dirty_image_ids@ == Seq::<u32>::empty()
        &&& self.notifications@ == Seq::<Notification>::empty()
        &&& self.notification_seq == 0
        &&& self.notifications_enabled
        &&& self.active_progress is None
        &&& self.pending_notifications@ == Seq::<Notification>::empty()
        &&& !self.allow_kitty_remote
    }

    /// A terminal of `cols` by `rows` cells keeping `max_scrollback` lines.
    pub fn with_scrollback(cols: usize, rows: usize, max_scrollback: usize) -> (r: Self)
        requires
            cols >= 1,
            rows >= 1,
            cols + 3 <= usize::MAX,
        ensures
            r.wf(),
            r.is_fresh(cols as nat, rows as nat, max_scrollback as nat),
    {
        Terminal {
            grid: Grid::with_scrollback(cols, rows, max_scrollback),
            scroll_offset: 0,
            selection: None,
            clipboard: String::new(),
            clipboard_changed: false,
            images: ImageRegistry::new(),
            dcs_handler: None,
            kitty_decoder: None,
            apc_state: ApcState::Normal,
            apc_buffer: Vec::new(),
            cell_width: 0,
            cell_height: 0,
            search: None,
            copy_mode: None,
            current_directory: None,
            pty_response: Vec::new(),
            dirty_image_ids: Vec::new(),
            notifications: VecDeque::new(),
            notification_seq: 0,
            notifications_enabled: true,
            active_progress: None,
            pending_notifications: Vec::new(),
            allow_kitty_remote: false,
        }
    }

    /// A terminal of `cols` by `rows` cells with the default scrollback.
    pub fn new(cols: usize, rows: usize) -> (r: Self)
        requires
            cols >= 1,
            rows >= 1,
            cols + 3 <= usize::MAX,
        ensures
            r.wf(),
            r.is_fresh(cols as nat, rows as nat, MAX_SCROLLBACK as nat),
    {
        Self::with_scrollback(cols, rows, MAX_SCROLLBACK)
    }

    /// Set cell size (for image placement calculation)
    pub fn set_cell_size(&mut self, width: u32, height: u32)
        ensures
            final(self).cell_width == width,
            final(self).cell_height == height,
            final(self).grid == old(self).grid,
            final(self).scroll_offset == old(self).scroll_offset,
            final(self).images == old(self).images,
            final(self).selection == old(self).selection,
    {
        self.cell_width = width;
        self.cell_height = height;
    }

    /// Get cell width
    pub fn cell_width(&self) -> (r: u32)
        ensures
            r == self.cell_width,
    {
        self.cell_width
    }

    /// Get cell height
    pub fn cell_height(&self) -> (r: u32)
        ensures
            r == self.cell_height,
    {
        self.cell_height
    }

    /// Check if any row needs redraw
    pub fn has_dirty_rows(&self) -> (r: bool)
        requires
            self.wf(),
        ensures
            r == (self.grid@.all_dirty || exists|i: int| 0 <= i < self.grid@.rows && self.grid@.dirty[i]),
    {
        self.grid.has_dirty_rows()
    }

    /// Clear all dirty flags (call after rendering)
    pub fn clear_dirty(&mut self)
        requires
            old(self).wf(),
        ensures
            final(self).wf(),
            final(self).grid@ == (GridModel {
                all_dirty: false,
                dirty: Seq::new(old(self).grid@.rows, |r: int| false),
                ..old(self).grid@
            }),
    {
        self.grid.clear_dirty();
    }

    /// Mark all rows as dirty (for full screen redraw)
    pub fn mark_all_dirty(&mut self)
        requires
            old(self).wf(),
        ensures
            final(self).wf(),
            final(self).grid@ == mark_rows_all(old(self).grid@),
    {
        self.grid.mark_all_dirty();
    }

    /// Resize the terminal: the grid keeps its common area; the view
    /// returns to the live screen, and the selection and all images are
    /// dropped.
    pub fn resize(&mut self, new_cols: usize, new_rows: usize)
        requires
            old(self).wf(),
            new_cols >= 1,
            new_rows >= 1,
            new_cols + 3 <= usize::MAX,
        ensures
            final(self).wf(),
            final(self).grid@ == (GridModel {
                placements: seq![],
                ..crate::terminal::grid::resized(old(self).grid@, new_cols as nat, new_rows as nat)
            }),
            final(self).scroll_offset == 0,
            final(self).selection is None,
            final(self).images@ == Map::<u32, crate::terminal::images::TerminalImage>::empty(),
    {
        self.grid.resize(new_cols, new_rows);
        self.scroll_offset = 0;
        self.selection = None;
        self.images.clear();
        self.grid.clear_image_placements();
    }

    /// Reset enhanced input modes (called by user via Ctrl+Shift+Escape)
    pub fn reset_enhanced_modes(&mut self)
        requires
            old(self).wf(),
        ensures
            final(self).wf(),
            final(self).grid@ == crate::terminal::grid::enhanced_modes_reset(old(self).grid@),
    {
        self.grid.reset_enhanced_modes();
    }

    /// Scroll towards history (upward), at most to the oldest line.
    pub fn scroll_back(&mut self, n: usize)
        requires
            old(self).wf(),
        ensures
            final(self).wf(),
            final(self).scroll_offset == crate::terminal::grid::min_int(
                old(self).scroll_offset + n,
                old(self).grid@.scrollback.len() as int,
            ),
            final(self).scroll_offset != old(self).scroll_offset ==> final(self).grid@ == mark_rows_all(
                old(self).grid@,
            ),
            final(self).scroll_offset == old(self).scroll_offset ==> final(self).grid@ == old(
                self,
            ).grid@,
    {
        let max = self.grid.scrollback_len();
        let new_offset = if self.scroll_offset < max && n < max - self.scroll_offset {
            self.scroll_offset + n
        } else {
            max
        };
        if new_offset != self.scroll_offset {
            self.scroll_offset = new_offset;
            self.grid.mark_all_dirty();
        }
    }

    /// Scroll towards live (downward)
    pub fn scroll_forward(&mut self, n: usize)
        requires
            old(self).wf(),
        ensures
            final(self).wf(),
            final(self).scroll_offset == crate::terminal::grid::sat_sub(
                old(self).scroll_offset as int,
                n as int,
            ),
            final(self).scroll_offset != old(self).scroll_offset ==> final(self).grid@ == mark_rows_all(
                old(self).grid@,
            ),
            final(self).scroll_offset == old(self).scroll_offset ==> final(self).grid@ == old(
                self,
            ).grid@,
    {
        let new_offset = self.scroll_offset.saturating_sub(n);
        if new_offset != self.scroll_offset {
            self.scroll_offset = new_offset;
            self.grid.mark_all_dirty();
        }
    }

    /// Return to live position
    pub fn scroll_to_bottom(&mut self)
        requires
            old(self).wf(),
        ensures
            final(self).wf(),
            final(self).scroll_offset == 0,
            old(self).scroll_offset != 0 ==> final(self).grid@ == mark_rows_all(old(self).grid@),
            old(self).scroll_offset == 0 ==> final(self).grid@ == old(self).grid@,
    {
        if self.scroll_offset != 0 {
            self.scroll_offset = 0;
            self.grid.mark_all_dirty();
        }
    }

    /// Check if mouse mode is enabled
    pub fn mouse_mode_enabled(&self) -> (r: bool)
        ensures
            r == (self.grid@.modes.mouse_mode != crate::terminal::grid::MouseMode::Off),
    {
        self.grid.mouse_mode() != crate::terminal::grid::MouseMode::Off
    }

    /// Check if Synchronized Update mode is enabled
    pub fn is_synchronized_update(&self) -> (r: bool)
        ensures
            r == self.grid@.modes.synchronized_update,
    {
        self.grid.synchronized_update()
    }
}

/// Scrolling the view back by `n` lines and then forward by `n` returns to
/// the offset it started from, when the scrollback reaches that far back.
pub proof fn lemma_scroll_back_forward(offset: nat, scrollback_len: nat, n: nat)
    requires
        offset + n <= scrollback_len,
    ensures
        crate::terminal::grid::sat_sub(
            crate::terminal::grid::min_int((offset + n) as int, scrollback_len as int),
            n as int,
        ) == offset,
{
}

} // verus!
