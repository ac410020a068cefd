//! Character grid
//!
//! The screen is a rectangle of cells, one row per line, with a cursor, the
//! current drawing attributes (the pen), a scroll region, a bounded
//! scrollback of lines that scrolled off the top, an optional saved main
//! screen while the alternate screen is shown, image placements, and the
//! mode flags that escape sequences set.
//!
//! Every operation is stated over [`GridModel`], the abstract state that
//! [`Grid::view`] gives: rows of [`CellModel`]s and plain fields.

use unicode_normalization::UnicodeNormalization;
use unicode_width::UnicodeWidthChar;
use vstd::prelude::*;

verus! {

/// Cursor style (DECSCUSR)
#[derive(Debug, Clone, Copy, PartialEq, Eq, Structural)]
pub enum CursorStyle {
    /// Block cursor (default)
    Block,
    /// Underline cursor
    Underline,
    /// Bar (vertical line) cursor
    Bar,
}

impl Default for CursorStyle {
    fn default() -> (r: Self)
        ensures
            r == CursorStyle::Block,
    {
        CursorStyle::Block
    }
}

/// Hyperlink information (OSC 8)
#[derive(Debug, Clone, PartialEq, Eq)]
pub struct Hyperlink {
    /// Link ID (optional)
    pub id: Option<String>,
    /// URL
    pub url: String,
}

/// A hyperlink as plain text values.
pub ghost struct LinkModel {
    pub id: Option<Seq<char>>,
    pub url: Seq<char>,
}

impl View for Hyperlink {
    type V = LinkModel;

    open spec fn view(&self) -> LinkModel {
        LinkModel {
            id: match self.id {
                Some(s) => Some(s@),
                None => None,
            },
            url: self.url@,
        }
    }
}

/// The hyperlink of an optional link, as plain values.
pub open spec fn link_view(link: Option<Hyperlink>) -> Option<LinkModel> {
    match link {
        Some(h) => Some(h@),
        None => None,
    }
}

impl Hyperlink {
    /// A copy of the link with the same ID and URL.
    pub fn duplicate(&self) -> (r: Hyperlink)
        ensures
            r@ == self@,
    {
        let id = match &self.id {
            Some(s) => Some(s.clone()),
            None => None,
        };
        Hyperlink { id, url: self.url.clone() }
    }
}

fn duplicate_link(link: &Option<Hyperlink>) -> (r: Option<Hyperlink>)
    ensures
        link_view(r) == link_view(*link),
{
    match link {
        Some(h) => Some(h.duplicate()),
        None => None,
    }
}

/// Maximum scrollback lines
pub const MAX_SCROLLBACK: usize = 10000;

/// Codepoints drawn two cells wide whatever their East Asian width says:
/// the emoji blocks of the supplementary plane and the regional indicators.
pub open spec fn spec_is_emoji(cp: u32) -> bool {
    (0x1F300 <= cp <= 0x1F5FF) || (0x1F600 <= cp <= 0x1F64F) || (0x1F680 <= cp <= 0x1F6FF) || (
    0x1F900 <= cp <= 0x1F9FF) || (0x1FA00 <= cp <= 0x1FAFF) || (0x1F1E0 <= cp <= 0x1F1FF)
}

/// Check if codepoint should be forced to width=2 (emoji)
///
/// Only the emoji blocks of the supplementary plane (where the width tables
/// say 1) and the Regional Indicator Symbols (flags) are forced; characters
/// of the basic plane keep the width the tables give.
pub fn is_emoji_codepoint(cp: u32) -> (r: bool)
    ensures
        r == spec_is_emoji(cp),
{
    (0x1F300 <= cp && cp <= 0x1F5FF) || (0x1F600 <= cp && cp <= 0x1F64F) || (0x1F680 <= cp && cp
        <= 0x1F6FF) || (0x1F900 <= cp && cp <= 0x1F9FF) || (0x1FA00 <= cp && cp <= 0x1FAFF) || (
    0x1F1E0 <= cp && cp <= 0x1F1FF)
}

/// Image placement information
#[derive(Debug, Clone, Copy)]
pub struct ImagePlacement {
    /// Image ID (corresponds to ImageRegistry ID)
    pub id: u32,
    /// Placement row (grid coordinates)
    pub row: usize,
    /// Placement column (grid coordinates)
    pub col: usize,
    /// Occupied cell width
    pub width_cells: usize,
    /// Occupied cell height
    pub height_cells: usize,
    /// Image pixel width
    pub pixel_width: u32,
    /// Image pixel height
    pub pixel_height: u32,
}

/// Text color
#[derive(Debug, Clone, Copy, PartialEq, Eq, Structural)]
pub enum Color {
    /// Default color (foreground: white, background: black)
    Default,
    /// 256-color palette index
    Indexed(u8),
    /// True Color (24bit RGB)
    Rgb(u8, u8, u8),
}

/// Underline style (CSI 4:x m)
#[derive(Debug, Clone, Copy, PartialEq, Eq, Structural)]
pub enum UnderlineStyle {
    /// No underline
    Off,
    /// Single line (CSI 4 m or CSI 4:1 m)
    Single,
    /// Double line (CSI 4:2 m)
    Double,
    /// Wavy line (CSI 4:3 m) - curly/wavy
    Curly,
    /// Dotted line (CSI 4:4 m)
    Dotted,
    /// Dashed line (CSI 4:5 m)
    Dashed,
}

impl Default for UnderlineStyle {
    fn default() -> (r: Self)
        ensures
            r == UnderlineStyle::Off,
    {
        UnderlineStyle::Off
    }
}

/// Cell character attributes: a set of flags in the bits of a `u16`.
#[derive(Debug, Clone, Copy, PartialEq, Eq, Structural)]
pub struct CellAttrs {
    pub bits: u16,
}

pub const ATTR_BOLD: u16 = 0x1;

pub const ATTR_DIM: u16 = 0x2;

pub const ATTR_ITALIC: u16 = 0x4;

/// Kept in step with the underline style.
pub const ATTR_UNDERLINE: u16 = 0x8;

pub const ATTR_BLINK: u16 = 0x10;

pub const ATTR_INVERSE: u16 = 0x20;

pub const ATTR_HIDDEN: u16 = 0x40;

pub const ATTR_STRIKE: u16 = 0x80;

/// Overline (CSI 53 m)
pub const ATTR_OVERLINE: u16 = 0x100;

/// Contains emoji (cached for rendering)
pub const ATTR_IS_EMOJI: u16 = 0x200;

impl CellAttrs {
    /// No attribute set.
    pub fn empty() -> (r: CellAttrs)
        ensures
            r.bits == 0,
    {
        CellAttrs { bits: 0 }
    }

    /// The attributes whose bits are given.
    pub fn from_bits(bits: u16) -> (r: CellAttrs)
        ensures
            r.bits == bits,
    {
        CellAttrs { bits }
    }

    /// Sets the flags of `other`.
    pub fn insert(&mut self, other: CellAttrs)
        ensures
            final(self).bits == old(self).bits | other.bits,
    {
        self.bits = self.bits | other.bits;
    }

    /// Clears the flags of `other`.
    pub fn remove(&mut self, other: CellAttrs)
        ensures
            final(self).bits == old(self).bits & !other.bits,
    {
        self.bits = self.bits & !other.bits;
    }

    /// Whether every flag of `other` is set.
    pub fn contains(&self, other: CellAttrs) -> (r: bool)
        ensures
            r == (self.bits & other.bits == other.bits),
    {
        self.bits & other.bits == other.bits
    }
}

impl Default for CellAttrs {
    fn default() -> (r: Self)
        ensures
            r.bits == 0,
    {
        CellAttrs { bits: 0 }
    }
}

/// Data for one cell
#[derive(Debug)]
pub struct Cell {
    /// Grapheme cluster (several codepoints for emoji sequences, flags and
    /// combining marks); empty for the second cell of a wide character
    pub grapheme: Vec<char>,
    pub fg: Color,
    pub bg: Color,
    pub attrs: CellAttrs,
    /// Character width: 1=half-width, 2=full-width(head), 0=full-width(continuation)
    pub width: u8,
    /// Hyperlink (OSC 8)
    pub hyperlink: Option<Hyperlink>,
    /// Underline style (CSI 4:x m)
    pub underline_style: UnderlineStyle,
    /// Underline color (CSI 58;2;r;g;b m) - Uses foreground color if None
    pub underline_color: Option<Color>,
}

/// A cell as plain values.
pub ghost struct CellModel {
    pub grapheme: Seq<char>,
    pub fg: Color,
    pub bg: Color,
    pub attrs: u16,
    pub width: u8,
    pub hyperlink: Option<LinkModel>,
    pub underline_style: UnderlineStyle,
    pub underline_color: Option<Color>,
}

impl View for Cell {
    type V = CellModel;

    open spec fn view(&self) -> CellModel {
        CellModel {
            grapheme: self.grapheme@,
            fg: self.fg,
            bg: self.bg,
            attrs: self.attrs.bits,
            width: self.width,
            hyperlink: link_view(self.hyperlink),
            underline_style: self.underline_style,
            underline_color: self.underline_color,
        }
    }
}

/// A blank cell: a space in the default foreground on background `bg`.
pub open spec fn blank_model(bg: Color) -> CellModel {
    CellModel {
        grapheme: seq![' '],
        fg: Color::Default,
        bg,
        attrs: 0,
        width: 1,
        hyperlink: None,
        underline_style: UnderlineStyle::Off,
        underline_color: None,
    }
}

/// The empty cell: a space in the default colors.
pub open spec fn default_model() -> CellModel {
    blank_model(Color::Default)
}

/// The cells of a row, as plain values.
pub open spec fn row_view(row: Seq<Cell>) -> Seq<CellModel> {
    Seq::new(row.len(), |i: int| row[i]@)
}

/// Rows of cells, as plain values.
pub open spec fn rows_view(rows: Seq<Vec<Cell>>) -> Seq<Seq<CellModel>> {
    Seq::new(rows.len(), |r: int| row_view(rows[r]@))
}

/// A row of `n` copies of `c`.
pub open spec fn uniform_row(n: nat, c: CellModel) -> Seq<CellModel> {
    Seq::new(n, |i: int| c)
}

impl Cell {
    /// Create empty cell
    pub fn empty() -> (r: Cell)
        ensures
            r@ == default_model(),
    {
        Cell::blank(Color::Default)
    }

    /// A space in the default foreground on background `bg`.
    pub fn blank(bg: Color) -> (r: Cell)
        ensures
            r@ == blank_model(bg),
    {
        let mut g: Vec<char> = Vec::new();
        g.push(' ');
        proof {
            assert(g@ =~= seq![' ']);
        }
        Cell {
            grapheme: g,
            fg: Color::Default,
            bg,
            attrs: CellAttrs { bits: 0 },
            width: 1,
            hyperlink: None,
            underline_style: UnderlineStyle::Off,
            underline_color: None,
        }
    }

    /// Backward compatible: returns first character
    pub fn ch(&self) -> (r: char)
        ensures
            r == (if self.grapheme@.len() > 0 {
                self.grapheme@[0]
            } else {
                ' '
            }),
    {
        if self.grapheme.len() > 0 {
            self.grapheme[0]
        } else {
            ' '
        }
    }

    /// A copy of the cell.
    pub fn duplicate(&self) -> (r: Cell)
        ensures
            r@ == self@,
    {
        Cell {
            grapheme: self.grapheme.clone(),
            fg: self.fg,
            bg: self.bg,
            attrs: self.attrs,
            width: self.width,
            hyperlink: duplicate_link(&self.hyperlink),
            underline_style: self.underline_style,
            underline_color: self.underline_color,
        }
    }
}

impl Default for Cell {
    fn default() -> (r: Self)
        ensures
            r@ == default_model(),
    {
        Cell::empty()
    }
}

/// A row of `n` copies of `c`.
fn row_of(n: usize, c: &Cell) -> (r: Vec<Cell>)
    ensures
        r@.len() == n,
        row_view(r@) == uniform_row(n as nat, c@),
{
    let mut r: Vec<Cell> = Vec::new();
    let mut i: usize = 0;
    while i < n
        invariant
            0 <= i <= n,
            r@.len() == i,
            row_view(r@) == uniform_row(i as nat, c@),
        decreases n - i,
    {
        let d = c.duplicate();
        let ghost prev = r@;
        r.push(d);
        proof {
            assert(r@ == prev.push(d));
            assert(prev.len() == i);
            assert(r@[i as int]@ == c@);
            assert(row_view(r@).len() == i + 1);
            assert(row_view(r@)[i as int] == c@);
            assert(row_view(r@) =~= uniform_row((i + 1) as nat, c@)) by {
                assert forall|j: int| 0 <= j < i + 1 implies row_view(r@)[j] == c@ by {
                    if j < i {
                        assert(row_view(prev)[j] == c@);
                        assert(r@[j] == prev[j]);
                    }
                }
            }
        }
        i = i + 1;
    }
    r
}

/// A copy of a row.
fn copy_row(src: &Vec<Cell>) -> (r: Vec<Cell>)
    ensures
        r@.len() == src@.len(),
        row_view(r@) == row_view(src@),
{
    let mut r: Vec<Cell> = Vec::new();
    let mut i: usize = 0;
    while i < src.len()
        invariant
            0 <= i <= src.len(),
            r@.len() == i,
            row_view(r@) == row_view(src@.subrange(0, i as int)),
        decreases src.len() - i,
    {
        let d = src[i].duplicate();
        let ghost prev = r@;
        r.push(d);
        proof {
            assert(r@ == prev.push(d));
            assert(r@[i as int]@ == src@[i as int]@);
            assert(row_view(r@) =~= row_view(src@.subrange(0, i + 1))) by {
                assert forall|j: int| 0 <= j < i + 1 implies row_view(r@)[j] == row_view(
                    src@.subrange(0, i + 1),
                )[j] by {
                    if j < i {
                        assert(row_view(prev)[j] == row_view(src@.subrange(0, i as int))[j]);
                        assert(r@[j] == prev[j]);
                    }
                }
            }
        }
        i = i + 1;
    }
    proof {
        assert(src@.subrange(0, src@.len() as int) =~= src@);
    }
    r
}

/// Pen state (current drawing attributes)
#[derive(Debug, Clone, Copy, PartialEq, Eq, Structural)]
pub struct Pen {
    pub fg: Color,
    pub bg: Color,
    pub attrs: CellAttrs,
    pub underline_style: UnderlineStyle,
    pub underline_color: Option<Color>,
}

/// The pen of a fresh screen: default colors, no attribute.
pub open spec fn default_pen() -> Pen {
    Pen {
        fg: Color::Default,
        bg: Color::Default,
        attrs: CellAttrs { bits: 0 },
        underline_style: UnderlineStyle::Off,
        underline_color: None,
    }
}

impl Default for Pen {
    fn default() -> (r: Self)
        ensures
            r == default_pen(),
    {
        Pen {
            fg: Color::Default,
            bg: Color::Default,
            attrs: CellAttrs { bits: 0 },
            underline_style: UnderlineStyle::Off,
            underline_color: None,
        }
    }
}

// ========== Sub-structures for Grid ==========
/// Mouse tracking mode
#[derive(Debug, Clone, Copy, PartialEq, Eq, Structural)]
pub enum MouseMode {
    /// Mouse tracking disabled
    Off,
    /// X10 mode (?1000) - button press only
    X10,
    /// Button event mode (?1002) - press/release/drag
    ButtonEvent,
    /// Any event mode (?1003) - includes movement
    AnyEvent,
}

impl Default for MouseMode {
    fn default() -> (r: Self)
        ensures
            r == MouseMode::Off,
    {
        MouseMode::Off
    }
}

/// Terminal mode flags (DECSET/DECRST)
#[derive(Debug, Clone, Copy, PartialEq, Eq, Structural)]
pub struct TerminalModes {
    /// Cursor visibility flag (DECTCEM, ?25)
    pub cursor_visible: bool,
    /// Auto-wrap mode (DECAWM, ?7)
    pub auto_wrap: bool,
    /// Application cursor keys mode (DECCKM, ?1)
    pub application_cursor_keys: bool,
    /// Bracketed paste mode (?2004)
    pub bracketed_paste: bool,
    /// Mouse mode (?1000=X10, ?1002=button, ?1003=all events)
    pub mouse_mode: MouseMode,
    /// SGR mouse mode (?1006) - extended coordinate format
    pub mouse_sgr: bool,
    /// Focus event reporting flag (?1004)
    pub send_focus_events: bool,
    /// Synchronized Update mode (?2026)
    pub synchronized_update: bool,
}

/// The modes of a fresh terminal: visible cursor and auto-wrap, nothing else.
pub open spec fn initial_modes() -> TerminalModes {
    TerminalModes {
        cursor_visible: true,
        auto_wrap: true,
        application_cursor_keys: false,
        bracketed_paste: false,
        mouse_mode: MouseMode::Off,
        mouse_sgr: false,
        send_focus_events: false,
        synchronized_update: false,
    }
}

impl TerminalModes {
    pub fn new() -> (r: Self)
        ensures
            r == initial_modes(),
    {
        TerminalModes {
            cursor_visible: true,
            auto_wrap: true,
            application_cursor_keys: false,
            bracketed_paste: false,
            mouse_mode: MouseMode::Off,
            mouse_sgr: false,
            send_focus_events: false,
            synchronized_update: false,
        }
    }
}

impl Default for TerminalModes {
    fn default() -> (r: Self)
        ensures
            r == (TerminalModes {
                cursor_visible: false,
                auto_wrap: false,
                application_cursor_keys: false,
                bracketed_paste: false,
                mouse_mode: MouseMode::Off,
                mouse_sgr: false,
                send_focus_events: false,
                synchronized_update: false,
            }),
    {
        TerminalModes {
            cursor_visible: false,
            auto_wrap: false,
            application_cursor_keys: false,
            bracketed_paste: false,
            mouse_mode: MouseMode::Off,
            mouse_sgr: false,
            send_focus_events: false,
            synchronized_update: false,
        }
    }
}

/// Cursor appearance state
#[derive(Debug, Clone, Copy, PartialEq, Eq, Structural)]
pub struct CursorAppearance {
    /// Cursor style (DECSCUSR)
    pub style: CursorStyle,
    /// Cursor blink flag
    pub blink: bool,
}

impl Default for CursorAppearance {
    fn default() -> (r: Self)
        ensures
            r == (CursorAppearance { style: CursorStyle::Block, blink: false }),
    {
        CursorAppearance { style: CursorStyle::Block, blink: false }
    }
}

/// Shell integration state (OSC 133)
#[derive(Debug, Clone, Copy, PartialEq, Eq, Structural)]
pub struct ShellState {
    /// Prompt start row
    pub prompt_row: Option<usize>,
    /// Command execution start row
    pub command_row: Option<usize>,
    /// Last command exit code
    pub last_exit_code: Option<i32>,
}

impl Default for ShellState {
    fn default() -> (r: Self)
        ensures
            r == (ShellState { prompt_row: None, command_row: None, last_exit_code: None }),
    {
        ShellState { prompt_row: None, command_row: None, last_exit_code: None }
    }
}

/// Stack depth limit of the Kitty keyboard protocol.
pub const MAX_KITTY_STACK_DEPTH: usize = 256;

/// Keyboard protocol state
#[derive(Debug, Clone)]
pub struct KeyboardState {
    /// modifyOtherKeys level (0=disabled, 1=partial, 2=full)
    pub modify_other_keys: u8,
    /// Kitty keyboard protocol flags (current)
    /// Bit 0: Report ambiguous keys in CSI u format
    /// Bit 1: Report event type (press/repeat/release)
    /// Bit 2: Report alternate keys
    /// Bit 3: Report all keys in CSI u format
    /// Bit 4: Report associated text
    pub kitty_flags: u32,
    /// Kitty keyboard protocol stack (for nested push/pop)
    /// Max depth: 256 (per Kitty spec)
    pub kitty_stack: Vec<u32>,
}

/// Keyboard protocol state as plain values.
pub ghost struct KeyboardModel {
    pub modify_other_keys: u8,
    pub kitty_flags: u32,
    pub kitty_stack: Seq<u32>,
}

impl View for KeyboardState {
    type V = KeyboardModel;

    open spec fn view(&self) -> KeyboardModel {
        KeyboardModel {
            modify_other_keys: self.modify_other_keys,
            kitty_flags: self.kitty_flags,
            kitty_stack: self.kitty_stack@,
        }
    }
}

/// Pops `n` entries: each restores the flags it held; an empty stack resets
/// the flags to 0 and stops.
pub open spec fn kitty_pop_n(flags: u32, stack: Seq<u32>, n: nat) -> (u32, Seq<u32>)
    decreases n,
{
    if n == 0 {
        (flags, stack)
    } else if stack.len() == 0 {
        (0, stack)
    } else {
        kitty_pop_n(stack.last(), stack.drop_last(), (n - 1) as nat)
    }
}

impl KeyboardState {
    pub fn new() -> (r: Self)
        ensures
            r@ == (KeyboardModel { modify_other_keys: 0, kitty_flags: 0, kitty_stack: seq![] }),
    {
        KeyboardState { modify_other_keys: 0, kitty_flags: 0, kitty_stack: Vec::new() }
    }

    /// Push current flags onto stack and set new flags; at the depth limit
    /// the current flags are dropped instead of pushed.
    pub fn kitty_push(&mut self, flags: u32)
        ensures
            final(self).kitty_flags == flags,
            final(self).modify_other_keys == old(self).modify_other_keys,
            final(self).kitty_stack@ == (if old(self).kitty_stack@.len() < MAX_KITTY_STACK_DEPTH {
                old(self).kitty_stack@.push(old(self).kitty_flags)
            } else {
                old(self).kitty_stack@
            }),
    {
        if self.kitty_stack.len() < MAX_KITTY_STACK_DEPTH {
            self.kitty_stack.push(self.kitty_flags);
        }
        self.kitty_flags = flags;
    }

    /// Pop flags from stack (restore previous state)
    /// If count is 0, pop one entry
    /// If count > 0, pop that many entries
    pub fn kitty_pop(&mut self, count: u16)
        ensures
            final(self).modify_other_keys == old(self).modify_other_keys,
            (final(self).kitty_flags, final(self).kitty_stack@) == kitty_pop_n(
                old(self).kitty_flags,
                old(self).kitty_stack@,
                if count == 0 {
                    1
                } else {
                    count as nat
                },
            ),
    {
        let n: usize = if count == 0 {
            1
        } else {
            count as usize
        };
        let ghost total = n as nat;
        let mut i: usize = 0;
        while i < n
            invariant
                0 <= i <= n,
                total == n,
                self.modify_other_keys == old(self).modify_other_keys,
                kitty_pop_n(self.kitty_flags, self.kitty_stack@, (n - i) as nat) == kitty_pop_n(
                    old(self).kitty_flags,
                    old(self).kitty_stack@,
                    total,
                ),
            decreases n - i,
        {
            match self.kitty_stack.pop() {
                Some(flags) => {
                    self.kitty_flags = flags;
                    i = i + 1;
                },
                None => {
                    proof {
                        lemma_kitty_pop_empty(self.kitty_stack@, (n - i) as nat);
                        assert(kitty_pop_n(self.kitty_flags, self.kitty_stack@, (n - i) as nat)
                            == (0u32, self.kitty_stack@));
                    }
                    self.kitty_flags = 0;
                    i = n;
                },
            }
        }
    }
}

proof fn lemma_kitty_pop_empty(stack: Seq<u32>, n: nat)
    requires
        stack.len() == 0,
        n > 0,
    ensures
        forall|f: u32| kitty_pop_n(f, stack, n) == (0u32, stack),
    decreases n,
{
    if n > 1 {
        lemma_kitty_pop_empty(stack, (n - 1) as nat);
    }
}

/// A push below the depth limit followed by a single pop restores the flags
/// and the stack as they were.
pub proof fn lemma_kitty_push_pop(flags: u32, stack: Seq<u32>, pushed: u32)
    requires
        stack.len() < MAX_KITTY_STACK_DEPTH,
    ensures
        kitty_pop_n(pushed, stack.push(flags), 1) == (flags, stack),
{
    assert(stack.push(flags).drop_last() =~= stack);
    reveal_with_fuel(kitty_pop_n, 2);
}

impl Default for KeyboardState {
    fn default() -> (r: Self)
        ensures
            r@ == (KeyboardModel { modify_other_keys: 0, kitty_flags: 0, kitty_stack: seq![] }),
    {
        KeyboardState::new()
    }
}

/// Dynamic colors (OSC 10/11)
#[derive(Debug, Clone, Copy, PartialEq, Eq)]
pub struct DynamicColors {
    /// OSC 10 foreground color (RGB, None = use default)
    pub fg: Option<(u8, u8, u8)>,
    /// OSC 11 background color (RGB, None = use default)
    pub bg: Option<(u8, u8, u8)>,
}

impl Default for DynamicColors {
    fn default() -> (r: Self)
        ensures
            r == (DynamicColors { fg: None, bg: None }),
    {
        DynamicColors { fg: None, bg: None }
    }
}

/// Saved main screen while the alternate screen is shown.
struct AlternateScreen {
    cells: Vec<Vec<Cell>>,
    cursor_row: usize,
    cursor_col: usize,
    pen: Pen,
    scroll_top: usize,
    scroll_bottom: usize,
}

/// The saved main screen, as plain values.
pub ghost struct SavedScreen {
    pub screen: Seq<Seq<CellModel>>,
    pub cursor_row: nat,
    pub cursor_col: nat,
    pub pen: Pen,
    pub scroll_top: nat,
    pub scroll_bottom: nat,
}

/// The state of a grid as plain values.
pub ghost struct GridModel {
    /// Rows of cells, top to bottom
    pub screen: Seq<Seq<CellModel>>,
    pub cols: nat,
    pub rows: nat,
    pub cursor_row: nat,
    /// May reach past the last column (by up to two): a character was
    /// written at the right edge and the next one wraps
    pub cursor_col: nat,
    pub pen: Pen,
    /// Lines that scrolled off the top, oldest first
    pub scrollback: Seq<Seq<CellModel>>,
    pub max_scrollback: nat,
    pub saved_cursor: Option<(usize, usize)>,
    pub last_char: char,
    pub scroll_top: nat,
    pub scroll_bottom: nat,
    pub in_zwj_sequence: bool,
    pub alternate: Option<SavedScreen>,
    pub bell_triggered: bool,
    pub hyperlink: Option<LinkModel>,
    pub placements: Seq<ImagePlacement>,
    pub modes: TerminalModes,
    pub cursor: CursorAppearance,
    pub shell: ShellState,
    pub keyboard: KeyboardModel,
    pub colors: DynamicColors,
    pub dirty: Seq<bool>,
    pub all_dirty: bool,
}

/// Every row of `screen` has `cols` cells.
pub open spec fn rows_have_width(screen: Seq<Seq<CellModel>>, cols: nat) -> bool {
    forall|r: int| 0 <= r < screen.len() ==> #[trigger] screen[r].len() == cols
}

impl GridModel {
    /// The shape constraints every grid keeps.
    pub open spec fn wf(&self) -> bool {
        &&& self.rows >= 1
        &&& self.cols >= 1
        &&& self.cols + 3 <= usize::MAX
        &&& self.rows <= usize::MAX
        &&& self.screen.len() == self.rows
        &&& rows_have_width(self.screen, self.cols)
        &&& self.cursor_row < self.rows
        &&& self.cursor_col <= self.cols + 2
        &&& self.scroll_top <= self.scroll_bottom < self.rows
        &&& self.dirty.len() == self.rows
        &&& self.scrollback.len() <= self.max_scrollback
        &&& self.keyboard.kitty_stack.len() <= MAX_KITTY_STACK_DEPTH
        &&& match self.alternate {
            Some(saved) => {
                &&& saved.screen.len() == self.rows
                &&& rows_have_width(saved.screen, self.cols)
                &&& saved.cursor_row < self.rows
                &&& saved.cursor_col <= self.cols + 2
                &&& saved.scroll_top <= saved.scroll_bottom < self.rows
            },
            None => true,
        }
    }

    /// Whether `row` needs redrawing.
    pub open spec fn row_dirty(&self, row: int) -> bool {
        self.all_dirty || (0 <= row < self.rows && self.dirty[row])
    }
}

/// Character grid
pub struct Grid {
    /// Rows of cells
    screen: Vec<Vec<Cell>>,
    /// Number of columns
    cols: usize,
    /// Number of rows
    rows: usize,
    /// Cursor row (0-indexed)
    cursor_row: usize,
    /// Cursor column (0-indexed)
    cursor_col: usize,
    /// Current pen state
    pen: Pen,
    /// Scrollback history (oldest at front, newest at back)
    scrollback: std::collections::VecDeque<Vec<Cell>>,
    /// Maximum scrollback lines
    max_scrollback: usize,
    /// Saved cursor position
    saved_cursor: Option<(usize, usize)>,
    /// Last printed character (for REP)
    last_char: char,
    /// Top of scroll region (0-indexed)
    scroll_top: usize,
    /// Bottom of scroll region (0-indexed, inclusive)
    scroll_bottom: usize,
    /// In ZWJ sequence flag
    in_zwj_sequence: bool,
    /// Alternate screen buffer (?1049)
    alternate_screen: Option<AlternateScreen>,
    /// Bell notification flag (reset after drawing)
    bell_triggered: bool,
    /// Current hyperlink (OSC 8)
    current_hyperlink: Option<Hyperlink>,
    /// Image placement list
    image_placements: Vec<ImagePlacement>,
    /// Terminal mode flags
    modes: TerminalModes,
    /// Cursor appearance
    cursor: CursorAppearance,
    /// Shell integration
    shell: ShellState,
    /// Keyboard protocol
    keyboard: KeyboardState,
    /// Dynamic colors
    colors: DynamicColors,
    /// Dirty row flags (true = row needs redraw)
    dirty_rows: Vec<bool>,
    /// All rows dirty flag (optimization for full screen updates)
    all_dirty: bool,
}

/// A saved screen as plain values.
spec fn saved_view(a: Option<AlternateScreen>) -> Option<SavedScreen> {
    match a {
        Some(s) => Some(
            SavedScreen {
                screen: rows_view(s.cells@),
                cursor_row: s.cursor_row as nat,
                cursor_col: s.cursor_col as nat,
                pen: s.pen,
                scroll_top: s.scroll_top as nat,
                scroll_bottom: s.scroll_bottom as nat,
            },
        ),
        None => None,
    }
}

impl View for Grid {
    type V = GridModel;

    closed spec fn view(&self) -> GridModel {
        GridModel {
            screen: rows_view(self.screen@),
            cols: self.cols as nat,
            rows: self.rows as nat,
            cursor_row: self.cursor_row as nat,
            cursor_col: self.cursor_col as nat,
            pen: self.pen,
            scrollback: rows_view(self.scrollback@),
            max_scrollback: self.max_scrollback as nat,
            saved_cursor: self.saved_cursor,
            last_char: self.last_char,
            scroll_top: self.scroll_top as nat,
            scroll_bottom: self.scroll_bottom as nat,
            in_zwj_sequence: self.in_zwj_sequence,
            alternate: saved_view(self.alternate_screen),
            bell_triggered: self.bell_triggered,
            hyperlink: link_view(self.current_hyperlink),
            placements: self.image_placements@,
            modes: self.modes,
            cursor: self.cursor,
            shell: self.shell,
            keyboard: self.keyboard@,
            colors: self.colors,
            dirty: self.dirty_rows@,
            all_dirty: self.all_dirty,
        }
    }
}

/// A grid of `rows` rows of `cols` blank cells.
pub open spec fn blank_screen(cols: nat, rows: nat) -> Seq<Seq<CellModel>> {
    Seq::new(rows, |r: int| uniform_row(cols, default_model()))
}

/// The state of a freshly created grid.
pub open spec fn initial_grid(cols: nat, rows: nat, max_scrollback: nat) -> GridModel {
    GridModel {
        screen: blank_screen(cols, rows),
        cols,
        rows,
        cursor_row: 0,
        cursor_col: 0,
        pen: default_pen(),
        scrollback: seq![],
        max_scrollback,
        saved_cursor: None,
        last_char: ' ',
        scroll_top: 0,
        scroll_bottom: (rows - 1) as nat,
        in_zwj_sequence: false,
        alternate: None,
        bell_triggered: false,
        hyperlink: None,
        placements: seq![],
        modes: initial_modes(),
        cursor: CursorAppearance { style: CursorStyle::Block, blink: false },
        shell: ShellState { prompt_row: None, command_row: None, last_exit_code: None },
        keyboard: KeyboardModel { modify_other_keys: 0, kitty_flags: 0, kitty_stack: seq![] },
        colors: DynamicColors { fg: None, bg: None },
        dirty: Seq::new(rows, |r: int| true),
        all_dirty: true,
    }
}

/// `n` copies of a row.
fn screen_of(cols: usize, rows: usize) -> (r: Vec<Vec<Cell>>)
    ensures
        rows_view(r@) == blank_screen(cols as nat, rows as nat),
{
    let blank = Cell::empty();
    let mut r: Vec<Vec<Cell>> = Vec::new();
    let mut i: usize = 0;
    while i < rows
        invariant
            0 <= i <= rows,
            r@.len() == i,
            blank@ == default_model(),
            rows_view(r@) == blank_screen(cols as nat, i as nat),
        decreases rows - i,
    {
        let row = row_of(cols, &blank);
        let ghost prev = r@;
        r.push(row);
        proof {
            assert(rows_view(r@) =~= blank_screen(cols as nat, (i + 1) as nat)) by {
                assert forall|j: int| 0 <= j < i + 1 implies rows_view(r@)[j] == blank_screen(
                    cols as nat,
                    (i + 1) as nat,
                )[j] by {
                    if j < i {
                        assert(r@[j] == prev[j]);
                        assert(rows_view(prev)[j] == blank_screen(cols as nat, i as nat)[j]);
                    }
                }
            }
        }
        i = i + 1;
    }
    r
}

/// `n` copies of `v`.
fn flags_of(n: usize, v: bool) -> (r: Vec<bool>)
    ensures
        r@ == Seq::new(n as nat, |i: int| v),
{
    let mut r: Vec<bool> = Vec::new();
    let mut i: usize = 0;
    while i < n
        invariant
            0 <= i <= n,
            r@ == Seq::new(i as nat, |j: int| v),
        decreases n - i,
    {
        r.push(v);
        proof {
            assert(r@ =~= Seq::new((i + 1) as nat, |j: int| v));
        }
        i = i + 1;
    }
    r
}

impl Grid {
    /// The grid keeps its shape constraints.
    pub open spec fn wf(&self) -> bool {
        self@.wf()
    }

    /// Create grid with specified size
    pub fn new(cols: usize, rows: usize) -> (r: Self)
        requires
            cols >= 1,
            rows >= 1,
            cols + 3 <= usize::MAX,
        ensures
            r@ == initial_grid(cols as nat, rows as nat, MAX_SCROLLBACK as nat),
            r.wf(),
    {
        Self::with_scrollback(cols, rows, MAX_SCROLLBACK)
    }

    /// Create grid with specified size and scrollback limit
    pub fn with_scrollback(cols: usize, rows: usize, max_scrollback: usize) -> (r: Self)
        requires
            cols >= 1,
            rows >= 1,
            cols + 3 <= usize::MAX,
        ensures
            r@ == initial_grid(cols as nat, rows as nat, max_scrollback as nat),
            r.wf(),
    {
        let g = Grid {
            screen: screen_of(cols, rows),
            cols,
            rows,
            cursor_row: 0,
            cursor_col: 0,
            pen: Pen::default(),
            scrollback: std::collections::VecDeque::new(),
            max_scrollback,
            saved_cursor: None,
            last_char: ' ',
            scroll_top: 0,
            scroll_bottom: rows - 1,
            in_zwj_sequence: false,
            alternate_screen: None,
            bell_triggered: false,
            current_hyperlink: None,
            image_placements: Vec::new(),
            modes: TerminalModes::new(),
            cursor: CursorAppearance::default(),
            shell: ShellState::default(),
            keyboard: KeyboardState::new(),
            colors: DynamicColors::default(),
            dirty_rows: flags_of(rows, true),
            all_dirty: true,
        };
        proof {
            assert(rows_view(g.scrollback@) =~= Seq::<Seq<CellModel>>::empty());
            assert(g@ =~= initial_grid(cols as nat, rows as nat, max_scrollback as nat));
        }
        g
    }

    pub fn cols(&self) -> (r: usize)
        ensures
            r == self@.cols,
    {
        self.cols
    }

    pub fn rows(&self) -> (r: usize)
        ensures
            r == self@.rows,
    {
        self.rows
    }

    /// Cursor row (0-indexed)
    pub fn cursor_row(&self) -> (r: usize)
        ensures
            r == self@.cursor_row,
    {
        self.cursor_row
    }

    /// Cursor column (0-indexed)
    pub fn cursor_col(&self) -> (r: usize)
        ensures
            r == self@.cursor_col,
    {
        self.cursor_col
    }

    /// Maximum scrollback lines
    pub fn max_scrollback(&self) -> (r: usize)
        ensures
            r == self@.max_scrollback,
    {
        self.max_scrollback
    }

    // ========== Dirty row tracking ==========
    /// Mark a row as dirty (needs redraw)
    pub fn mark_dirty(&mut self, row: usize)
        requires
            old(self).wf(),
        ensures
            final(self)@ == (GridModel {
                dirty: if row < old(self)@.rows {
                    old(self)@.dirty.update(row as int, true)
                } else {
                    old(self)@.dirty
                },
                ..old(self)@
            }),
            final(self).wf(),
    {
        if row < self.rows {
            self.dirty_rows.set(row, true);
        }
        proof {
            assert(self@ =~= (GridModel {
                dirty: if row < old(self)@.rows {
                    old(self)@.dirty.update(row as int, true)
                } else {
                    old(self)@.dirty
                },
                ..old(self)@
            }));
        }
    }

    /// Mark all rows as dirty
    pub fn mark_all_dirty(&mut self)
        requires
            old(self).wf(),
        ensures
            final(self)@ == (GridModel {
                all_dirty: true,
                dirty: Seq::new(old(self)@.rows, |r: int| true),
                ..old(self)@
            }),
            final(self).wf(),
    {
        self.all_dirty = true;
        self.dirty_rows = flags_of(self.rows, true);
        proof {
            assert(self@ =~= (GridModel {
                all_dirty: true,
                dirty: Seq::new(old(self)@.rows, |r: int| true),
                ..old(self)@
            }));
        }
    }

    /// Check if a row is dirty
    pub fn is_row_dirty(&self, row: usize) -> (r: bool)
        requires
            self.wf(),
        ensures
            r == self@.row_dirty(row as int),
    {
        self.all_dirty || (row < self.rows && self.dirty_rows[row])
    }

    /// Check if all rows are dirty (full screen redraw needed)
    pub fn is_all_dirty(&self) -> (r: bool)
        ensures
            r == self@.all_dirty,
    {
        self.all_dirty
    }

    /// Check if any row is dirty
    pub fn has_dirty_rows(&self) -> (r: bool)
        requires
            self.wf(),
        ensures
            r == (self@.all_dirty || exists|i: int| 0 <= i < self@.rows && self@.dirty[i]),
    {
        if self.all_dirty {
            return true;
        }
        let mut i: usize = 0;
        while i < self.dirty_rows.len()
            invariant
                self.wf(),
                !self@.all_dirty,
                0 <= i <= self.dirty_rows.len(),
                self.dirty_rows@ == self@.dirty,
                forall|j: int| 0 <= j < i ==> !self@.dirty[j],
            decreases self.dirty_rows.len() - i,
        {
            if self.dirty_rows[i] {
                return true;
            }
            i = i + 1;
        }
        false
    }

    /// Clear all dirty flags (call after rendering)
    pub fn clear_dirty(&mut self)
        requires
            old(self).wf(),
        ensures
            final(self)@ == (GridModel {
                all_dirty: false,
                dirty: Seq::new(old(self)@.rows, |r: int| false),
                ..old(self)@
            }),
            final(self).wf(),
    {
        self.all_dirty = false;
        self.dirty_rows = flags_of(self.rows, false);
        proof {
            assert(self@ =~= (GridModel {
                all_dirty: false,
                dirty: Seq::new(old(self)@.rows, |r: int| false),
                ..old(self)@
            }));
        }
    }

    /// The rows that need redrawing, in increasing order.
    pub fn dirty_row_indices(&self) -> (r: Vec<usize>)
        requires
            self.wf(),
        ensures
            forall|i: int| 0 <= i < r@.len() ==> self@.row_dirty(#[trigger] r@[i] as int) && r@[i]
                < self@.rows,
            forall|i: int, j: int| 0 <= i < j < r@.len() ==> r@[i] < r@[j],
            forall|row: int| 0 <= row < self@.rows && #[trigger] self@.row_dirty(row) ==> r@.contains(
                row as usize,
            ),
    {
        let mut r: Vec<usize> = Vec::new();
        let mut row: usize = 0;
        while row < self.rows
            invariant
                self.wf(),
                0 <= row <= self.rows,
                forall|i: int| 0 <= i < r@.len() ==> self@.row_dirty(#[trigger] r@[i] as int) && r@[i]
                    < row,
                forall|i: int, j: int| 0 <= i < j < r@.len() ==> r@[i] < r@[j],
                forall|x: int| 0 <= x < row && #[trigger] self@.row_dirty(x) ==> r@.contains(
                    x as usize,
                ),
            decreases self.rows - row,
        {
            if self.is_row_dirty(row) {
                let ghost prev = r@;
                r.push(row);
                proof {
                    assert forall|i: int| 0 <= i < r@.len() implies self@.row_dirty(
                        #[trigger] r@[i] as int,
                    ) && r@[i] < row + 1 by {
                        if i < prev.len() {
                            assert(r@[i] == prev[i]);
                        }
                    }
                    assert forall|i: int, j: int| 0 <= i < j < r@.len() implies r@[i] < r@[j] by {
                        if j < prev.len() {
                            assert(r@[i] == prev[i]);
                            assert(r@[j] == prev[j]);
                        } else {
                            assert(r@[i] == prev[i]);
                        }
                    }
                    assert forall|x: int| 0 <= x < row + 1 && #[trigger] self@.row_dirty(
                        x,
                    ) implies r@.contains(x as usize) by {
                        if x < row {
                            let k = choose|k: int| 0 <= k < prev.len() && prev[k] == x as usize;
                            assert(r@[k] == x as usize);
                        } else {
                            assert(r@[prev.len() as int] == x as usize);
                        }
                    }
                }
            }
            row = row + 1;
        }
        r
    }

    // ========== Accessors ==========
    pub fn cursor_visible(&self) -> (r: bool)
        ensures
            r == self@.modes.cursor_visible,
    {
        self.modes.cursor_visible
    }

    pub fn auto_wrap(&self) -> (r: bool)
        ensures
            r == self@.modes.auto_wrap,
    {
        self.modes.auto_wrap
    }

    pub fn application_cursor_keys(&self) -> (r: bool)
        ensures
            r == self@.modes.application_cursor_keys,
    {
        self.modes.application_cursor_keys
    }

    pub fn bracketed_paste(&self) -> (r: bool)
        ensures
            r == self@.modes.bracketed_paste,
    {
        self.modes.bracketed_paste
    }

    pub fn mouse_mode(&self) -> (r: MouseMode)
        ensures
            r == self@.modes.mouse_mode,
    {
        self.modes.mouse_mode
    }

    pub fn mouse_sgr(&self) -> (r: bool)
        ensures
            r == self@.modes.mouse_sgr,
    {
        self.modes.mouse_sgr
    }

    pub fn send_focus_events(&self) -> (r: bool)
        ensures
            r == self@.modes.send_focus_events,
    {
        self.modes.send_focus_events
    }

    pub fn synchronized_update(&self) -> (r: bool)
        ensures
            r == self@.modes.synchronized_update,
    {
        self.modes.synchronized_update
    }

    /// All mode flags.
    pub fn modes(&self) -> (r: TerminalModes)
        ensures
            r == self@.modes,
    {
        self.modes
    }

    pub fn cursor_style(&self) -> (r: CursorStyle)
        ensures
            r == self@.cursor.style,
    {
        self.cursor.style
    }

    pub fn cursor_blink(&self) -> (r: bool)
        ensures
            r == self@.cursor.blink,
    {
        self.cursor.blink
    }

    pub fn shell_prompt_row(&self) -> (r: Option<usize>)
        ensures
            r == self@.shell.prompt_row,
    {
        self.shell.prompt_row
    }

    pub fn shell_command_row(&self) -> (r: Option<usize>)
        ensures
            r == self@.shell.command_row,
    {
        self.shell.command_row
    }

    pub fn shell_last_exit_code(&self) -> (r: Option<i32>)
        ensures
            r == self@.shell.last_exit_code,
    {
        self.shell.last_exit_code
    }

    pub fn modify_other_keys(&self) -> (r: u8)
        ensures
            r == self@.keyboard.modify_other_keys,
    {
        self.keyboard.modify_other_keys
    }

    pub fn kitty_keyboard_flags(&self) -> (r: u32)
        ensures
            r == self@.keyboard.kitty_flags,
    {
        self.keyboard.kitty_flags
    }

    /// Depth of the Kitty keyboard flag stack.
    pub fn kitty_stack_depth(&self) -> (r: usize)
        ensures
            r == self@.keyboard.kitty_stack.len(),
    {
        self.keyboard.kitty_stack.len()
    }

    pub fn osc_fg_color(&self) -> (r: Option<(u8, u8, u8)>)
        ensures
            r == self@.colors.fg,
    {
        self.colors.fg
    }

    pub fn osc_bg_color(&self) -> (r: Option<(u8, u8, u8)>)
        ensures
            r == self@.colors.bg,
    {
        self.colors.bg
    }

    /// Whether the bell rang since the flag was last cleared.
    pub fn bell_triggered(&self) -> (r: bool)
        ensures
            r == self@.bell_triggered,
    {
        self.bell_triggered
    }

    /// The image placements on the screen.
    pub fn image_placements(&self) -> (r: &Vec<ImagePlacement>)
        ensures
            r@ == self@.placements,
    {
        &self.image_placements
    }

    /// Get reference to cell
    pub fn cell(&self, row: usize, col: usize) -> (r: &Cell)
        requires
            self.wf(),
            row < self@.rows,
            col < self@.cols,
        ensures
            r@ == self@.screen[row as int][col as int],
    {
        assert(self.screen@[row as int]@.len() == self.cols) by {
            assert(self@.screen[row as int].len() == self@.cols);
        }
        &self.screen[row][col]
    }
}

/// Every row marked for redrawing.
pub open spec fn mark_rows_all(g: GridModel) -> GridModel {
    GridModel { all_dirty: true, dirty: Seq::new(g.rows, |r: int| true), ..g }
}

/// Kitty keyboard flags and stack, modifyOtherKeys, mouse reporting,
/// bracketed paste and focus events all off.
pub open spec fn enhanced_modes_reset(g: GridModel) -> GridModel {
    GridModel {
        keyboard: KeyboardModel { modify_other_keys: 0, kitty_flags: 0, kitty_stack: seq![] },
        modes: TerminalModes {
            mouse_mode: MouseMode::Off,
            mouse_sgr: false,
            bracketed_paste: false,
            send_focus_events: false,
            ..g.modes
        },
        ..g
    }
}

/// `a - b`, or 0 when `b` is larger.
pub open spec fn sat_sub(a: int, b: int) -> nat {
    if a > b {
        (a - b) as nat
    } else {
        0
    }
}

/// The smaller of two integers.
pub open spec fn min_int(a: int, b: int) -> int {
    if a < b {
        a
    } else {
        b
    }
}

/// The next tab stop (a multiple of 8) after column `col`, not past the
/// last column.
pub open spec fn next_tab_stop(col: nat, cols: nat) -> nat {
    min_int(((col / 8 + 1) * 8) as int, cols - 1) as nat
}

impl Grid {
    // ========== Cursor movement ==========
    /// Move cursor to absolute position (1-indexed -> 0-indexed)
    pub fn move_cursor_to(&mut self, row: usize, col: usize)
        requires
            old(self).wf(),
        ensures
            final(self)@ == (GridModel {
                cursor_row: min_int(sat_sub(row as int, 1) as int, old(self)@.rows - 1) as nat,
                cursor_col: min_int(sat_sub(col as int, 1) as int, old(self)@.cols - 1) as nat,
                ..old(self)@
            }),
            final(self).wf(),
    {
        let r = row.saturating_sub(1);
        self.cursor_row = if r < self.rows - 1 {
            r
        } else {
            self.rows - 1
        };
        let c = col.saturating_sub(1);
        self.cursor_col = if c < self.cols - 1 {
            c
        } else {
            self.cols - 1
        };
        proof {
            assert(self@ =~= (GridModel {
                cursor_row: min_int(sat_sub(row as int, 1) as int, old(self)@.rows - 1) as nat,
                cursor_col: min_int(sat_sub(col as int, 1) as int, old(self)@.cols - 1) as nat,
                ..old(self)@
            }));
        }
    }

    /// Move cursor up (CSI A)
    pub fn move_cursor_up(&mut self, n: usize)
        requires
            old(self).wf(),
        ensures
            final(self)@ == (GridModel {
                cursor_row: sat_sub(old(self)@.cursor_row as int, n as int),
                ..old(self)@
            }),
            final(self).wf(),
    {
        self.cursor_row = self.cursor_row.saturating_sub(n);
        proof {
            assert(self@ =~= (GridModel {
                cursor_row: sat_sub(old(self)@.cursor_row as int, n as int),
                ..old(self)@
            }));
        }
    }

    /// Move cursor down (CSI B)
    pub fn move_cursor_down(&mut self, n: usize)
        requires
            old(self).wf(),
        ensures
            final(self)@ == (GridModel {
                cursor_row: min_int(old(self)@.cursor_row + n, old(self)@.rows - 1) as nat,
                ..old(self)@
            }),
            final(self).wf(),
    {
        let room = self.rows - 1 - self.cursor_row;
        self.cursor_row = if n < room {
            self.cursor_row + n
        } else {
            self.rows - 1
        };
        proof {
            assert(self@ =~= (GridModel {
                cursor_row: min_int(old(self)@.cursor_row + n, old(self)@.rows - 1) as nat,
                ..old(self)@
            }));
        }
    }

    /// Move cursor right (CSI C)
    pub fn move_cursor_forward(&mut self, n: usize)
        requires
            old(self).wf(),
        ensures
            final(self)@ == (GridModel {
                cursor_col: min_int(old(self)@.cursor_col + n, old(self)@.cols - 1) as nat,
                ..old(self)@
            }),
            final(self).wf(),
    {
        let last = self.cols - 1;
        let c = if self.cursor_col >= last || n >= last - self.cursor_col {
            last
        } else {
            self.cursor_col + n
        };
        self.set_cursor_col(c);
    }

    /// Moves the cursor to `(row, col)`.
    pub fn set_cursor_position(&mut self, row: usize, col: usize)
        requires
            old(self).wf(),
            row < old(self)@.rows,
            col <= old(self)@.cols,
        ensures
            final(self)@ == (GridModel { cursor_row: row as nat, cursor_col: col as nat, ..old(self)@ }),
            final(self).wf(),
    {
        self.cursor_row = row;
        self.cursor_col = col;
        proof {
            assert(self@ =~= (GridModel { cursor_row: row as nat, cursor_col: col as nat, ..old(self)@ }));
        }
    }

    /// Moves the cursor to row `row`.
    fn set_cursor_row(&mut self, row: usize)
        requires
            old(self).wf(),
            row < old(self)@.rows,
        ensures
            final(self)@ == (GridModel { cursor_row: row as nat, ..old(self)@ }),
            final(self).wf(),
    {
        self.cursor_row = row;
        proof {
            assert(self@ =~= (GridModel { cursor_row: row as nat, ..old(self)@ }));
        }
    }

    /// Moves the cursor to column `col`.
    fn set_cursor_col(&mut self, col: usize)
        requires
            old(self).wf(),
            col <= old(self)@.cols,
        ensures
            final(self)@ == (GridModel { cursor_col: col as nat, ..old(self)@ }),
            final(self).wf(),
    {
        self.cursor_col = col;
        proof {
            assert(self@ =~= (GridModel { cursor_col: col as nat, ..old(self)@ }));
        }
    }

    /// Move cursor left (CSI D)
    pub fn move_cursor_backward(&mut self, n: usize)
        requires
            old(self).wf(),
        ensures
            final(self)@ == (GridModel {
                cursor_col: sat_sub(old(self)@.cursor_col as int, n as int),
                ..old(self)@
            }),
            final(self).wf(),
    {
        self.cursor_col = self.cursor_col.saturating_sub(n);
        proof {
            assert(self@ =~= (GridModel {
                cursor_col: sat_sub(old(self)@.cursor_col as int, n as int),
                ..old(self)@
            }));
        }
    }

    /// Carriage return (CR)
    pub fn carriage_return(&mut self)
        requires
            old(self).wf(),
        ensures
            final(self)@ == (GridModel { cursor_col: 0, ..old(self)@ }),
            final(self).wf(),
    {
        self.cursor_col = 0;
        proof {
            assert(self@ =~= (GridModel { cursor_col: 0, ..old(self)@ }));
        }
    }

    /// Tab (HT): move to the next multiple of 8, not past the last column
    pub fn tab(&mut self)
        requires
            old(self).wf(),
        ensures
            final(self)@ == (GridModel {
                cursor_col: next_tab_stop(old(self)@.cursor_col, old(self)@.cols),
                ..old(self)@
            }),
            final(self).wf(),
    {
        let base = self.cursor_col / 8 * 8;
        let last = self.cols - 1;
        self.cursor_col = if base < last && last - base > 8 {
            base + 8
        } else {
            last
        };
        proof {
            let c = old(self)@.cursor_col;
            assert((c / 8 + 1) * 8 == c / 8 * 8 + 8) by (nonlinear_arith);
            assert(c / 8 * 8 <= c) by (nonlinear_arith);
            assert(self@ =~= (GridModel {
                cursor_col: next_tab_stop(old(self)@.cursor_col, old(self)@.cols),
                ..old(self)@
            }));
        }
    }

    /// Backspace (BS): move left one column only; shells send one
    /// backspace per column of a wide character.
    pub fn backspace(&mut self)
        requires
            old(self).wf(),
        ensures
            final(self)@ == (GridModel {
                cursor_col: sat_sub(old(self)@.cursor_col as int, 1),
                ..old(self)@
            }),
            final(self).wf(),
    {
        if self.cursor_col > 0 {
            self.cursor_col = self.cursor_col - 1;
        }
        proof {
            assert(self@ =~= (GridModel {
                cursor_col: sat_sub(old(self)@.cursor_col as int, 1),
                ..old(self)@
            }));
        }
    }

    // ========== SGR (attribute setting) ==========
    /// Replaces the pen.
    fn set_pen(&mut self, pen: Pen)
        requires
            old(self).wf(),
        ensures
            final(self)@ == (GridModel { pen, ..old(self)@ }),
            final(self).wf(),
    {
        self.pen = pen;
        proof {
            assert(self@ =~= (GridModel { pen, ..old(self)@ }));
        }
    }

    /// SGR reset
    pub fn reset_attrs(&mut self)
        requires
            old(self).wf(),
        ensures
            final(self)@ == (GridModel { pen: default_pen(), ..old(self)@ }),
            final(self).wf(),
    {
        self.set_pen(Pen::default());
    }

    /// Set foreground color
    pub fn set_fg(&mut self, color: Color)
        requires
            old(self).wf(),
        ensures
            final(self)@ == (GridModel { pen: Pen { fg: color, ..old(self)@.pen }, ..old(self)@ }),
            final(self).wf(),
    {
        let pen = Pen { fg: color, ..self.pen };
        self.set_pen(pen);
    }

    /// Set background color
    pub fn set_bg(&mut self, color: Color)
        requires
            old(self).wf(),
        ensures
            final(self)@ == (GridModel { pen: Pen { bg: color, ..old(self)@.pen }, ..old(self)@ }),
            final(self).wf(),
    {
        let pen = Pen { bg: color, ..self.pen };
        self.set_pen(pen);
    }

    /// Set attribute
    pub fn set_attr(&mut self, attr: CellAttrs)
        requires
            old(self).wf(),
        ensures
            final(self)@ == (GridModel {
                pen: Pen {
                    attrs: CellAttrs { bits: old(self)@.pen.attrs.bits | attr.bits },
                    ..old(self)@.pen
                },
                ..old(self)@
            }),
            final(self).wf(),
    {
        let mut pen = self.pen;
        pen.attrs.insert(attr);
        self.set_pen(pen);
    }

    /// Clear attribute
    pub fn clear_attr(&mut self, attr: CellAttrs)
        requires
            old(self).wf(),
        ensures
            final(self)@ == (GridModel {
                pen: Pen {
                    attrs: CellAttrs { bits: old(self)@.pen.attrs.bits & !attr.bits },
                    ..old(self)@.pen
                },
                ..old(self)@
            }),
            final(self).wf(),
    {
        let mut pen = self.pen;
        pen.attrs.remove(attr);
        self.set_pen(pen);
    }

    /// Set underline style (CSI 4:x m); the UNDERLINE flag follows it.
    pub fn set_underline_style(&mut self, style: UnderlineStyle)
        requires
            old(self).wf(),
        ensures
            final(self)@ == (GridModel {
                pen: Pen {
                    underline_style: style,
                    attrs: CellAttrs {
                        bits: if style != UnderlineStyle::Off {
                            old(self)@.pen.attrs.bits | ATTR_UNDERLINE
                        } else {
                            old(self)@.pen.attrs.bits & !ATTR_UNDERLINE
                        },
                    },
                    ..old(self)@.pen
                },
                ..old(self)@
            }),
            final(self).wf(),
    {
        let mut pen = self.pen;
        pen.underline_style = style;
        if style != UnderlineStyle::Off {
            pen.attrs.insert(CellAttrs { bits: ATTR_UNDERLINE });
        } else {
            pen.attrs.remove(CellAttrs { bits: ATTR_UNDERLINE });
        }
        self.set_pen(pen);
    }

    /// Set underline color (CSI 58;2;r;g;b m)
    pub fn set_underline_color(&mut self, color: Color)
        requires
            old(self).wf(),
        ensures
            final(self)@ == (GridModel {
                pen: Pen { underline_color: Some(color), ..old(self)@.pen },
                ..old(self)@
            }),
            final(self).wf(),
    {
        let pen = Pen { underline_color: Some(color), ..self.pen };
        self.set_pen(pen);
    }

    /// Reset underline color (CSI 59 m)
    pub fn reset_underline_color(&mut self)
        requires
            old(self).wf(),
        ensures
            final(self)@ == (GridModel {
                pen: Pen { underline_color: None, ..old(self)@.pen },
                ..old(self)@
            }),
            final(self).wf(),
    {
        let pen = Pen { underline_color: None, ..self.pen };
        self.set_pen(pen);
    }

    /// Save cursor position (CSI s / SCOSC)
    pub fn save_cursor(&mut self)
        requires
            old(self).wf(),
        ensures
            final(self)@ == (GridModel {
                saved_cursor: Some(
                    (old(self)@.cursor_row as usize, old(self)@.cursor_col as usize),
                ),
                ..old(self)@
            }),
            final(self).wf(),
    {
        self.saved_cursor = Some((self.cursor_row, self.cursor_col));
        proof {
            assert(self@ =~= (GridModel {
                saved_cursor: Some(
                    (old(self)@.cursor_row as usize, old(self)@.cursor_col as usize),
                ),
                ..old(self)@
            }));
        }
    }

    /// Restore cursor position (CSI u / SCORC), clamped to the screen
    pub fn restore_cursor(&mut self)
        requires
            old(self).wf(),
        ensures
            final(self)@ == (match old(self)@.saved_cursor {
                Some((r, c)) => GridModel {
                    cursor_row: min_int(r as int, old(self)@.rows - 1) as nat,
                    cursor_col: min_int(c as int, old(self)@.cols - 1) as nat,
                    ..old(self)@
                },
                None => old(self)@,
            }),
            final(self).wf(),
    {
        if let Some((row, col)) = self.saved_cursor {
            self.cursor_row = if row < self.rows - 1 {
                row
            } else {
                self.rows - 1
            };
            self.cursor_col = if col < self.cols - 1 {
                col
            } else {
                self.cols - 1
            };
        }
        proof {
            assert(self@ =~= (match old(self)@.saved_cursor {
                Some((r, c)) => GridModel {
                    cursor_row: min_int(r as int, old(self)@.rows - 1) as nat,
                    cursor_col: min_int(c as int, old(self)@.cols - 1) as nat,
                    ..old(self)@
                },
                None => old(self)@,
            }));
        }
    }

    /// Set scroll region (CSI r / DECSTBM)
    /// top, bottom are 1-indexed; 0 means the default (the whole screen).
    /// A region that is not at least two rows tall is ignored; the cursor
    /// moves to the top left either way.
    pub fn set_scroll_region(&mut self, top: usize, bottom: usize)
        requires
            old(self).wf(),
        ensures
            ({
                let g = old(self)@;
                let t = min_int((if top == 0 { 1 } else { top as int }) - 1, g.rows - 1);
                let b = min_int((if bottom == 0 { g.rows as int } else { bottom as int }) - 1, g.rows - 1);
                final(self)@ == GridModel {
                    scroll_top: if t < b { t as nat } else { g.scroll_top },
                    scroll_bottom: if t < b { b as nat } else { g.scroll_bottom },
                    cursor_row: 0,
                    cursor_col: 0,
                    ..g
                }
            }),
            final(self).wf(),
    {
        let top = if top == 0 {
            1
        } else {
            top
        };
        let bottom = if bottom == 0 {
            self.rows
        } else {
            bottom
        };
        let t = if top - 1 < self.rows - 1 {
            top - 1
        } else {
            self.rows - 1
        };
        let b = if bottom - 1 < self.rows - 1 {
            bottom - 1
        } else {
            self.rows - 1
        };
        if t < b {
            self.scroll_top = t;
            self.scroll_bottom = b;
        }
        self.cursor_row = 0;
        self.cursor_col = 0;
        proof {
            let g = old(self)@;
            let t = min_int((if top == 0 { 1 } else { top as int }) - 1, g.rows - 1);
            let b = min_int((if bottom == 0 { g.rows as int } else { bottom as int }) - 1, g.rows - 1);
            assert(self@ =~= GridModel {
                scroll_top: if t < b { t as nat } else { g.scroll_top },
                scroll_bottom: if t < b { b as nat } else { g.scroll_bottom },
                cursor_row: 0,
                cursor_col: 0,
                ..g
            });
        }
    }

    /// Get scroll region
    pub fn scroll_region(&self) -> (r: (usize, usize))
        ensures
            r == (self@.scroll_top as usize, self@.scroll_bottom as usize),
    {
        (self.scroll_top, self.scroll_bottom)
    }

    /// Check if in alternate screen
    pub fn is_alternate_screen(&self) -> (r: bool)
        ensures
            r == self@.alternate.is_some(),
    {
        self.alternate_screen.is_some()
    }

    /// Reset enhanced input modes (Kitty keyboard, mouse capture, bracketed
    /// paste, focus events); used when an application left the terminal in
    /// a bad state.
    pub fn reset_enhanced_modes(&mut self)
        requires
            old(self).wf(),
        ensures
            final(self)@ == (GridModel {
                keyboard: KeyboardModel { modify_other_keys: 0, kitty_flags: 0, kitty_stack: seq![] },
                modes: TerminalModes {
                    mouse_mode: MouseMode::Off,
                    mouse_sgr: false,
                    bracketed_paste: false,
                    send_focus_events: false,
                    ..old(self)@.modes
                },
                ..old(self)@
            }),
            final(self).wf(),
    {
        self.keyboard.kitty_flags = 0;
        self.keyboard.kitty_stack.clear();
        self.keyboard.modify_other_keys = 0;
        self.modes.mouse_mode = MouseMode::Off;
        self.modes.mouse_sgr = false;
        self.modes.bracketed_paste = false;
        self.modes.send_focus_events = false;
        proof {
            assert(self@ =~= (GridModel {
                keyboard: KeyboardModel { modify_other_keys: 0, kitty_flags: 0, kitty_stack: seq![] },
                modes: TerminalModes {
                    mouse_mode: MouseMode::Off,
                    mouse_sgr: false,
                    bracketed_paste: false,
                    send_focus_events: false,
                    ..old(self)@.modes
                },
                ..old(self)@
            }));
        }
    }

    // ========== Setters of the state escape sequences control ==========
    /// Replaces the mode flags.
    pub fn set_modes(&mut self, modes: TerminalModes)
        requires
            old(self).wf(),
        ensures
            final(self)@ == (GridModel { modes, ..old(self)@ }),
            final(self).wf(),
    {
        self.modes = modes;
        proof {
            assert(self@ =~= (GridModel { modes, ..old(self)@ }));
        }
    }

    /// Replaces the cursor appearance.
    pub fn set_cursor_appearance(&mut self, cursor: CursorAppearance)
        requires
            old(self).wf(),
        ensures
            final(self)@ == (GridModel { cursor, ..old(self)@ }),
            final(self).wf(),
    {
        self.cursor = cursor;
        proof {
            assert(self@ =~= (GridModel { cursor, ..old(self)@ }));
        }
    }

    /// Replaces the shell integration state.
    pub fn set_shell(&mut self, shell: ShellState)
        requires
            old(self).wf(),
        ensures
            final(self)@ == (GridModel { shell, ..old(self)@ }),
            final(self).wf(),
    {
        self.shell = shell;
        proof {
            assert(self@ =~= (GridModel { shell, ..old(self)@ }));
        }
    }

    /// Replaces the dynamic colors.
    pub fn set_colors(&mut self, colors: DynamicColors)
        requires
            old(self).wf(),
        ensures
            final(self)@ == (GridModel { colors, ..old(self)@ }),
            final(self).wf(),
    {
        self.colors = colors;
        proof {
            assert(self@ =~= (GridModel { colors, ..old(self)@ }));
        }
    }

    /// Sets or clears the bell flag.
    pub fn set_bell(&mut self, rang: bool)
        requires
            old(self).wf(),
        ensures
            final(self)@ == (GridModel { bell_triggered: rang, ..old(self)@ }),
            final(self).wf(),
    {
        self.bell_triggered = rang;
        proof {
            assert(self@ =~= (GridModel { bell_triggered: rang, ..old(self)@ }));
        }
    }

    /// Sets the hyperlink of the cells written next (OSC 8).
    pub fn set_hyperlink(&mut self, link: Option<Hyperlink>)
        requires
            old(self).wf(),
        ensures
            final(self)@ == (GridModel { hyperlink: link_view(link), ..old(self)@ }),
            final(self).wf(),
    {
        self.current_hyperlink = link;
        proof {
            assert(self@ =~= (GridModel { hyperlink: link_view(link), ..old(self)@ }));
        }
    }

    /// Sets the modifyOtherKeys level.
    pub fn set_modify_other_keys(&mut self, level: u8)
        requires
            old(self).wf(),
        ensures
            final(self)@ == (GridModel {
                keyboard: KeyboardModel { modify_other_keys: level, ..old(self)@.keyboard },
                ..old(self)@
            }),
            final(self).wf(),
    {
        self.keyboard.modify_other_keys = level;
        proof {
            assert(self@ =~= (GridModel {
                keyboard: KeyboardModel { modify_other_keys: level, ..old(self)@.keyboard },
                ..old(self)@
            }));
        }
    }

    /// Sets the Kitty keyboard flags without touching the stack.
    pub fn set_kitty_flags(&mut self, flags: u32)
        requires
            old(self).wf(),
        ensures
            final(self)@ == (GridModel {
                keyboard: KeyboardModel { kitty_flags: flags, ..old(self)@.keyboard },
                ..old(self)@
            }),
            final(self).wf(),
    {
        self.keyboard.kitty_flags = flags;
        proof {
            assert(self@ =~= (GridModel {
                keyboard: KeyboardModel { kitty_flags: flags, ..old(self)@.keyboard },
                ..old(self)@
            }));
        }
    }

    /// Kitty keyboard push (CSI > flags u).
    pub fn kitty_push(&mut self, flags: u32)
        requires
            old(self).wf(),
        ensures
            final(self)@ == (GridModel {
                keyboard: KeyboardModel {
                    kitty_flags: flags,
                    kitty_stack: if old(self)@.keyboard.kitty_stack.len() < MAX_KITTY_STACK_DEPTH {
                        old(self)@.keyboard.kitty_stack.push(old(self)@.keyboard.kitty_flags)
                    } else {
                        old(self)@.keyboard.kitty_stack
                    },
                    ..old(self)@.keyboard
                },
                ..old(self)@
            }),
            final(self).wf(),
    {
        self.keyboard.kitty_push(flags);
        proof {
            assert(self@ =~= (GridModel {
                keyboard: KeyboardModel {
                    kitty_flags: flags,
                    kitty_stack: if old(self)@.keyboard.kitty_stack.len() < MAX_KITTY_STACK_DEPTH {
                        old(self)@.keyboard.kitty_stack.push(old(self)@.keyboard.kitty_flags)
                    } else {
                        old(self)@.keyboard.kitty_stack
                    },
                    ..old(self)@.keyboard
                },
                ..old(self)@
            }));
        }
    }

    /// Kitty keyboard pop (CSI < count u).
    pub fn kitty_pop(&mut self, count: u16)
        requires
            old(self).wf(),
        ensures
            ({
                let (f, st) = kitty_pop_n(
                    old(self)@.keyboard.kitty_flags,
                    old(self)@.keyboard.kitty_stack,
                    if count == 0 { 1 } else { count as nat },
                );
                final(self)@ == (GridModel {
                    keyboard: KeyboardModel { kitty_flags: f, kitty_stack: st, ..old(self)@.keyboard },
                    ..old(self)@
                })
            }),
            final(self).wf(),
    {
        self.keyboard.kitty_pop(count);
        proof {
            lemma_kitty_pop_shrinks(
                old(self)@.keyboard.kitty_flags,
                old(self)@.keyboard.kitty_stack,
                if count == 0 { 1 } else { count as nat },
            );
            let (f, st) = kitty_pop_n(
                old(self)@.keyboard.kitty_flags,
                old(self)@.keyboard.kitty_stack,
                if count == 0 { 1 } else { count as nat },
            );
            assert(self@ =~= (GridModel {
                keyboard: KeyboardModel { kitty_flags: f, kitty_stack: st, ..old(self)@.keyboard },
                ..old(self)@
            }));
        }
    }
}

proof fn lemma_kitty_pop_shrinks(flags: u32, stack: Seq<u32>, n: nat)
    ensures
        kitty_pop_n(flags, stack, n).1.len() <= stack.len(),
    decreases n,
{
    if n > 0 && stack.len() > 0 {
        lemma_kitty_pop_shrinks(stack.last(), stack.drop_last(), (n - 1) as nat);
    }
}

// ========== Screen transformations ==========
/// `s` with the cells `[start, end)` replaced by `c`.
pub open spec fn fill_range(s: Seq<CellModel>, start: int, end: int, c: CellModel) -> Seq<
    CellModel,
> {
    Seq::new(s.len(), |i: int| if start <= i < end { c } else { s[i] })
}

/// `n` rows of `cols` copies of `c`.
pub open spec fn blank_rows(n: nat, cols: nat, c: CellModel) -> Seq<Seq<CellModel>> {
    Seq::new(n, |i: int| uniform_row(cols, c))
}

/// Rows `top..=bottom` move up by `n`; `n` blank rows enter at `bottom`.
pub open spec fn shift_rows_up(
    screen: Seq<Seq<CellModel>>,
    top: int,
    bottom: int,
    n: nat,
    blank: Seq<CellModel>,
) -> Seq<Seq<CellModel>> {
    screen.subrange(0, top) + screen.subrange(top + n, bottom + 1) + Seq::new(n, |i: int| blank)
        + screen.subrange(bottom + 1, screen.len() as int)
}

/// Rows `top..=bottom` move down by `n`; `n` blank rows enter at `top`.
pub open spec fn shift_rows_down(
    screen: Seq<Seq<CellModel>>,
    top: int,
    bottom: int,
    n: nat,
    blank: Seq<CellModel>,
) -> Seq<Seq<CellModel>> {
    screen.subrange(0, top) + Seq::new(n, |i: int| blank) + screen.subrange(top, bottom + 1 - n)
        + screen.subrange(bottom + 1, screen.len() as int)
}

/// The newest `max` lines of a history.
pub open spec fn keep_newest(h: Seq<Seq<CellModel>>, max: nat) -> Seq<Seq<CellModel>> {
    if h.len() > max {
        h.subrange(h.len() - max, h.len() as int)
    } else {
        h
    }
}

/// Dirty flags with rows `top..=bottom` also marked.
pub open spec fn mark_rows(dirty: Seq<bool>, top: int, bottom: int) -> Seq<bool> {
    Seq::new(dirty.len(), |r: int| dirty[r] || (top <= r <= bottom))
}

/// How an image placement fares under an edit of the screen.
pub enum PlacementRule {
    /// Removed when it covers the row
    OffRow(usize),
    /// Removed when it overlaps columns `[col, col + width)` of the row
    OffCells(usize, usize, usize),
    /// Scroll of rows `top..=bottom` up by `n`
    ScrollUp(usize, usize, usize),
    /// Scroll of rows `top..=bottom` down by `n`
    ScrollDown(usize, usize, usize),
    /// Removed unless it starts above row `rows`
    Visible(usize),
    /// Removed when it shows the image with this ID
    NotId(u32),
}

/// The placement after the edit, or `None` when the edit removes it.
pub open spec fn apply_rule(rule: PlacementRule, p: ImagePlacement) -> Option<ImagePlacement> {
    match rule {
        PlacementRule::OffRow(row) => {
            if row < p.row || row > p.row + sat_sub(p.height_cells as int, 1) {
                Some(p)
            } else {
                None
            }
        },
        PlacementRule::OffCells(row, col, width) => {
            if row >= p.row + p.height_cells || row < p.row || col >= p.col + p.width_cells || col
                + width <= p.col {
                Some(p)
            } else {
                None
            }
        },
        PlacementRule::ScrollUp(top, bottom, n) => {
            if top <= p.row <= bottom {
                if p.row < top + n {
                    if p.row + p.height_cells <= top + n {
                        None
                    } else {
                        Some(ImagePlacement { row: top, ..p })
                    }
                } else {
                    Some(ImagePlacement { row: (p.row - n) as usize, ..p })
                }
            } else {
                Some(p)
            }
        },
        PlacementRule::ScrollDown(top, bottom, n) => {
            if top <= p.row <= bottom {
                if p.row + n > bottom {
                    None
                } else {
                    Some(ImagePlacement { row: (p.row + n) as usize, ..p })
                }
            } else {
                Some(p)
            }
        },
        PlacementRule::Visible(rows) => {
            if p.row < rows {
                Some(p)
            } else {
                None
            }
        },
        PlacementRule::NotId(id) => {
            if p.id != id {
                Some(p)
            } else {
                None
            }
        },
    }
}

/// Placements after an edit.
pub open spec fn apply_rule_all(rule: PlacementRule, ps: Seq<ImagePlacement>) -> Seq<
    ImagePlacement,
> {
    ps.filter_map(|p: ImagePlacement| apply_rule(rule, p))
}

fn apply_rule_exec(rule: &PlacementRule, p: &ImagePlacement) -> (r: Option<ImagePlacement>)
    ensures
        r == apply_rule(*rule, *p),
{
    match rule {
        PlacementRule::OffRow(row) => {
            let row = *row;
            let h1 = p.height_cells.saturating_sub(1);
            if row < p.row || row - p.row > h1 {
                Some(*p)
            } else {
                None
            }
        },
        PlacementRule::OffCells(row, col, width) => {
            let (row, col, width) = (*row, *col, *width);
            if (row >= p.row && row - p.row >= p.height_cells) || row < p.row || (col >= p.col && col
                - p.col >= p.width_cells) || (p.col >= col && p.col - col >= width) {
                Some(*p)
            } else {
                None
            }
        },
        PlacementRule::ScrollUp(top, bottom, n) => {
            let (top, bottom, n) = (*top, *bottom, *n);
            if top <= p.row && p.row <= bottom {
                if p.row - top < n {
                    if p.height_cells <= n - (p.row - top) {
                        None
                    } else {
                        Some(ImagePlacement { row: top, ..*p })
                    }
                } else {
                    Some(ImagePlacement { row: p.row - n, ..*p })
                }
            } else {
                Some(*p)
            }
        },
        PlacementRule::ScrollDown(top, bottom, n) => {
            let (top, bottom, n) = (*top, *bottom, *n);
            if top <= p.row && p.row <= bottom {
                if n > bottom - p.row {
                    None
                } else {
                    Some(ImagePlacement { row: p.row + n, ..*p })
                }
            } else {
                Some(*p)
            }
        },
        PlacementRule::Visible(rows) => {
            if p.row < *rows {
                Some(*p)
            } else {
                None
            }
        },
        PlacementRule::NotId(id) => {
            if p.id != *id {
                Some(*p)
            } else {
                None
            }
        },
    }
}

impl Grid {
    /// Applies an edit to every image placement, dropping those it removes.
    fn retain_placements(&mut self, rule: PlacementRule)
        requires
            old(self).wf(),
        ensures
            final(self)@ == (GridModel {
                placements: apply_rule_all(rule, old(self)@.placements),
                ..old(self)@
            }),
            final(self).wf(),
    {
        let ghost ps = self.image_placements@;
        let mut kept: Vec<ImagePlacement> = Vec::new();
        let mut i: usize = 0;
        while i < self.image_placements.len()
            invariant
                0 <= i <= self.image_placements.len(),
                self.image_placements@ == ps,
                kept@ == apply_rule_all(rule, ps.take(i as int)),
            decreases self.image_placements.len() - i,
        {
            let r = apply_rule_exec(&rule, &self.image_placements[i]);
            proof {
                assert(ps.take(i + 1).drop_last() =~= ps.take(i as int));
                assert(ps.take(i + 1).last() == ps[i as int]);
            }
            match r {
                Some(p) => {
                    kept.push(p);
                    proof {
                        assert(kept@ =~= apply_rule_all(rule, ps.take(i + 1)));
                    }
                },
                None => {},
            }
            i = i + 1;
        }
        proof {
            assert(ps.take(ps.len() as int) =~= ps);
        }
        self.image_placements = kept;
        proof {
            assert(self@ =~= (GridModel {
                placements: apply_rule_all(rule, old(self)@.placements),
                ..old(self)@
            }));
        }
    }

    /// Replaces cell `(row, col)`.
    fn set_cell(&mut self, row: usize, col: usize, cell: Cell)
        requires
            old(self).wf(),
            row < old(self)@.rows,
            col < old(self)@.cols,
        ensures
            final(self)@ == (GridModel {
                screen: old(self)@.screen.update(
                    row as int,
                    old(self)@.screen[row as int].update(col as int, cell@),
                ),
                ..old(self)@
            }),
            final(self).wf(),
    {
        let ghost c = cell@;
        proof {
            assert(self.screen@[row as int]@.len() == self.cols) by {
                assert(self@.screen[row as int].len() == self@.cols);
            }
        }
        self.screen[row].set(col, cell);
        proof {
            let target = GridModel {
                screen: old(self)@.screen.update(
                    row as int,
                    old(self)@.screen[row as int].update(col as int, c),
                ),
                ..old(self)@
            };
            assert(rows_view(self.screen@) =~= target.screen) by {
                assert forall|r: int| 0 <= r < self.rows implies rows_view(self.screen@)[r]
                    =~= target.screen[r] by {
                    if r == row {
                        assert(row_view(self.screen@[r]@) =~= old(self)@.screen[r].update(
                            col as int,
                            c,
                        ));
                    } else {
                        assert(self.screen@[r] == old(self).screen@[r]);
                    }
                }
            }
            assert(self@ =~= target);
        }
    }

    /// Replaces row `row`.
    fn set_row(&mut self, row: usize, cells: Vec<Cell>)
        requires
            old(self).wf(),
            row < old(self)@.rows,
            cells@.len() == old(self)@.cols,
        ensures
            final(self)@ == (GridModel {
                screen: old(self)@.screen.update(row as int, row_view(cells@)),
                ..old(self)@
            }),
            final(self).wf(),
    {
        let ghost v = row_view(cells@);
        self.screen.set(row, cells);
        proof {
            let target = GridModel {
                screen: old(self)@.screen.update(row as int, v),
                ..old(self)@
            };
            assert(rows_view(self.screen@) =~= target.screen);
            assert(self@ =~= target);
        }
    }

    /// Replaces the cells `[start, end)` of row `row` with copies of `cell`.
    fn fill_cells(&mut self, row: usize, start: usize, end: usize, cell: &Cell)
        requires
            old(self).wf(),
            row < old(self)@.rows,
            start <= end <= old(self)@.cols,
        ensures
            final(self)@ == (GridModel {
                screen: old(self)@.screen.update(
                    row as int,
                    fill_range(old(self)@.screen[row as int], start as int, end as int, cell@),
                ),
                ..old(self)@
            }),
            final(self).wf(),
    {
        let mut c = start;
        proof {
            let orig = old(self)@.screen[row as int];
            assert(fill_range(orig, start as int, start as int, cell@) =~= orig);
            assert(old(self)@.screen.update(row as int, orig) =~= old(self)@.screen);
        }
        while c < end
            invariant
                self.wf(),
                old(self).wf(),
                start <= c <= end <= self@.cols,
                row < self@.rows,
                self@ == (GridModel {
                    screen: old(self)@.screen.update(
                        row as int,
                        fill_range(old(self)@.screen[row as int], start as int, c as int, cell@),
                    ),
                    ..old(self)@
                }),
            decreases end - c,
        {
            let d = cell.duplicate();
            self.set_cell(row, c, d);
            proof {
                assert(old(self)@.screen[row as int].len() == old(self)@.cols);
                assert(fill_range(old(self)@.screen[row as int], start as int, c as int, cell@).update(
                    c as int,
                    cell@,
                ) =~= fill_range(old(self)@.screen[row as int], start as int, c + 1, cell@));
                assert(self@.screen =~= old(self)@.screen.update(
                    row as int,
                    fill_range(old(self)@.screen[row as int], start as int, c + 1, cell@),
                ));
            }
            c = c + 1;
        }
        proof {
            if start == end {
                assert(fill_range(old(self)@.screen[row as int], start as int, end as int, cell@)
                    =~= old(self)@.screen[row as int]);
            }
        }
    }

    /// Create a blank cell using current SGR background color
    /// Used by erase operations (ECH, EL, ED) per ECMA-48 spec
    fn blank_cell(&self) -> (r: Cell)
        ensures
            r@ == blank_model(self@.pen.bg),
    {
        Cell::blank(self.pen.bg)
    }

    /// Clear row with current background color
    fn clear_row_with_bg(&mut self, row: usize)
        requires
            old(self).wf(),
            row < old(self)@.rows,
        ensures
            final(self)@ == (GridModel {
                screen: old(self)@.screen.update(
                    row as int,
                    uniform_row(old(self)@.cols, blank_model(old(self)@.pen.bg)),
                ),
                ..old(self)@
            }),
            final(self).wf(),
    {
        let blank = self.blank_cell();
        let cells = row_of(self.cols, &blank);
        self.set_row(row, cells);
    }

    /// Delete images overlapping specified row
    fn remove_images_at_row(&mut self, row: usize)
        requires
            old(self).wf(),
        ensures
            final(self)@ == (GridModel {
                placements: apply_rule_all(PlacementRule::OffRow(row), old(self)@.placements),
                ..old(self)@
            }),
            final(self).wf(),
    {
        self.retain_placements(PlacementRule::OffRow(row));
    }

    /// Delete images overlapping specified cell range
    fn remove_images_at_cell(&mut self, row: usize, col: usize, width: usize)
        requires
            old(self).wf(),
        ensures
            final(self)@ == (GridModel {
                placements: apply_rule_all(
                    PlacementRule::OffCells(row, col, width),
                    old(self)@.placements,
                ),
                ..old(self)@
            }),
            final(self).wf(),
    {
        self.retain_placements(PlacementRule::OffCells(row, col, width));
    }

    /// Delete image placements that start below the screen
    pub fn cleanup_image_placements(&mut self)
        requires
            old(self).wf(),
        ensures
            final(self)@ == (GridModel {
                placements: apply_rule_all(
                    PlacementRule::Visible(old(self)@.rows as usize),
                    old(self)@.placements,
                ),
                ..old(self)@
            }),
            final(self).wf(),
    {
        self.retain_placements(PlacementRule::Visible(self.rows));
    }

    /// Delete the placements of the image with ID `id`.
    pub fn remove_placements_of(&mut self, id: u32)
        requires
            old(self).wf(),
        ensures
            final(self)@ == (GridModel {
                placements: apply_rule_all(PlacementRule::NotId(id), old(self)@.placements),
                ..old(self)@
            }),
            final(self).wf(),
    {
        self.retain_placements(PlacementRule::NotId(id));
    }

    /// Delete all image placements.
    pub fn clear_image_placements(&mut self)
        requires
            old(self).wf(),
        ensures
            final(self)@ == (GridModel { placements: seq![], ..old(self)@ }),
            final(self).wf(),
    {
        self.image_placements = Vec::new();
        proof {
            assert(self@ =~= (GridModel { placements: seq![], ..old(self)@ }));
        }
    }
}

proof fn lemma_shift_up_step<A>(s: Seq<A>, top: int, bottom: int, i: nat, blank: A)
    requires
        0 <= top <= bottom < s.len(),
        i < bottom - top + 1,
    ensures
        ({
            let cur = s.subrange(0, top) + s.subrange(top + i, bottom + 1) + Seq::new(
                i,
                |k: int| blank,
            ) + s.subrange(bottom + 1, s.len() as int);
            cur.remove(top).insert(bottom, blank) =~= s.subrange(0, top) + s.subrange(
                top + i + 1,
                bottom + 1,
            ) + Seq::new(i + 1, |k: int| blank) + s.subrange(bottom + 1, s.len() as int)
        }),
{
}

proof fn lemma_shift_down_step<A>(s: Seq<A>, top: int, bottom: int, i: nat, blank: A)
    requires
        0 <= top <= bottom < s.len(),
        i < bottom - top + 1,
    ensures
        ({
            let cur = s.subrange(0, top) + Seq::new(i, |k: int| blank) + s.subrange(
                top,
                bottom + 1 - i,
            ) + s.subrange(bottom + 1, s.len() as int);
            cur.remove(bottom).insert(top, blank) =~= s.subrange(0, top) + Seq::new(
                i + 1,
                |k: int| blank,
            ) + s.subrange(top, bottom - i) + s.subrange(bottom + 1, s.len() as int)
        }),
{
}

proof fn lemma_rows_view_remove(s: Seq<Vec<Cell>>, k: int)
    requires
        0 <= k < s.len(),
    ensures
        rows_view(s.remove(k)) =~= rows_view(s).remove(k),
{
}

proof fn lemma_rows_view_insert(s: Seq<Vec<Cell>>, k: int, x: Vec<Cell>)
    requires
        0 <= k <= s.len(),
    ensures
        rows_view(s.insert(k, x)) =~= rows_view(s).insert(k, row_view(x@)),
{
}

proof fn lemma_rows_view_push(s: Seq<Vec<Cell>>, x: Vec<Cell>)
    ensures
        rows_view(s.push(x)) =~= rows_view(s).push(row_view(x@)),
{
}

/// Moves rows `top..=bottom` of `screen` up by `n`, blank rows of `cols`
/// copies of `blank` entering at `bottom`; returns the rows moved out.
fn shift_up_rows(
    screen: &mut Vec<Vec<Cell>>,
    top: usize,
    bottom: usize,
    n: usize,
    blank: &Cell,
    cols: usize,
) -> (out: Vec<Vec<Cell>>)
    requires
        top <= bottom < old(screen)@.len(),
        n <= bottom - top + 1,
    ensures
        rows_view(final(screen)@) == shift_rows_up(
            rows_view(old(screen)@),
            top as int,
            bottom as int,
            n as nat,
            uniform_row(cols as nat, blank@),
        ),
        rows_view(out@) == rows_view(old(screen)@).subrange(top as int, top + n),
{
    let ghost s = rows_view(screen@);
    let ghost blank_row = uniform_row(cols as nat, blank@);
    let mut out: Vec<Vec<Cell>> = Vec::new();
    let mut i: usize = 0;
    proof {
        assert(s =~= s.subrange(0, top as int) + s.subrange(top as int, bottom + 1) + Seq::new(
            0,
            |k: int| blank_row,
        ) + s.subrange(bottom + 1, s.len() as int));
        assert(rows_view(out@) =~= s.subrange(top as int, top as int));
    }
    while i < n
        invariant
            0 <= i <= n <= bottom - top + 1,
            top <= bottom < s.len(),
            s.len() == screen@.len(),
            blank_row == uniform_row(cols as nat, blank@),
            rows_view(screen@) == s.subrange(0, top as int) + s.subrange(top + i, bottom + 1)
                + Seq::new(i as nat, |k: int| blank_row) + s.subrange(bottom + 1, s.len() as int),
            rows_view(out@) == s.subrange(top as int, top + i),
        decreases n - i,
    {
        let ghost before = screen@;
        let removed = screen.remove(top);
        let ghost mid = screen@;
        let new_row = row_of(cols, blank);
        screen.insert(bottom, new_row);
        proof {
            lemma_rows_view_remove(before, top as int);
            lemma_rows_view_insert(mid, bottom as int, new_row);
            lemma_shift_up_step(s, top as int, bottom as int, i as nat, blank_row);
            assert(rows_view(before)[top as int] == row_view(removed@));
            let parts = s.subrange(0, top as int) + s.subrange(top + i, bottom + 1) + Seq::new(
                i as nat,
                |k: int| blank_row,
            ) + s.subrange(bottom + 1, s.len() as int);
            assert(parts[top as int] == s[top + i]);
            assert(row_view(removed@) == s[top + i]);
        }
        let ghost before_out = out@;
        out.push(removed);
        proof {
            lemma_rows_view_push(before_out, removed);
            assert(s.subrange(top as int, top + i + 1) =~= s.subrange(top as int, top + i).push(
                s[top + i],
            ));
        }
        i = i + 1;
    }
    out
}

/// Moves rows `top..=bottom` of `screen` down by `n`, blank rows of `cols`
/// copies of `blank` entering at `top`.
fn shift_down_rows(
    screen: &mut Vec<Vec<Cell>>,
    top: usize,
    bottom: usize,
    n: usize,
    blank: &Cell,
    cols: usize,
)
    requires
        top <= bottom < old(screen)@.len(),
        n <= bottom - top + 1,
    ensures
        rows_view(final(screen)@) == shift_rows_down(
            rows_view(old(screen)@),
            top as int,
            bottom as int,
            n as nat,
            uniform_row(cols as nat, blank@),
        ),
{
    let ghost s = rows_view(screen@);
    let ghost blank_row = uniform_row(cols as nat, blank@);
    let mut i: usize = 0;
    proof {
        assert(s =~= s.subrange(0, top as int) + Seq::new(0, |k: int| blank_row) + s.subrange(
            top as int,
            bottom + 1,
        ) + s.subrange(bottom + 1, s.len() as int));
    }
    while i < n
        invariant
            0 <= i <= n <= bottom - top + 1,
            top <= bottom < s.len(),
            s.len() == screen@.len(),
            blank_row == uniform_row(cols as nat, blank@),
            rows_view(screen@) == s.subrange(0, top as int) + Seq::new(i as nat, |k: int| blank_row)
                + s.subrange(top as int, bottom + 1 - i) + s.subrange(bottom + 1, s.len() as int),
        decreases n - i,
    {
        let ghost before = screen@;
        let _removed = screen.remove(bottom);
        let ghost mid = screen@;
        let new_row = row_of(cols, blank);
        screen.insert(top, new_row);
        proof {
            lemma_rows_view_remove(before, bottom as int);
            lemma_rows_view_insert(mid, top as int, new_row);
            lemma_shift_down_step(s, top as int, bottom as int, i as nat, blank_row);
        }
        i = i + 1;
    }
}

proof fn lemma_shift_shapes(
    s: Seq<Seq<CellModel>>,
    top: int,
    bottom: int,
    n: nat,
    blank: Seq<CellModel>,
    cols: nat,
)
    requires
        rows_have_width(s, cols),
        blank.len() == cols,
        0 <= top <= bottom < s.len(),
        n <= bottom - top + 1,
    ensures
        shift_rows_up(s, top, bottom, n, blank).len() == s.len(),
        rows_have_width(shift_rows_up(s, top, bottom, n, blank), cols),
        shift_rows_down(s, top, bottom, n, blank).len() == s.len(),
        rows_have_width(shift_rows_down(s, top, bottom, n, blank), cols),
{
    let u = shift_rows_up(s, top, bottom, n, blank);
    let d = shift_rows_down(s, top, bottom, n, blank);
    assert forall|r: int| 0 <= r < u.len() implies #[trigger] u[r].len() == cols by {
        if r < top {
        } else if r < bottom + 1 - n {
            assert(u[r] == s[r + n]);
        } else if r < bottom + 1 {
        } else {
        }
    }
    assert forall|r: int| 0 <= r < d.len() implies #[trigger] d[r].len() == cols by {
        if r < top {
        } else if r < top + n {
        } else if r < bottom + 1 {
            assert(d[r] == s[r - n]);
        } else {
        }
    }
}

/// The scroll of the scroll region up by `n` lines (at most its height):
/// lines leave at the top of the region and blank lines in the pen's
/// background enter at its bottom. A scroll of the whole screen keeps the
/// lines that leave in the scrollback, of which the newest
/// `max_scrollback` stay. Image placements in the region move with it.
pub open spec fn scrolled_up(g: GridModel, n: nat) -> GridModel {
    let t = g.scroll_top as int;
    let b = g.scroll_bottom as int;
    let m = min_int(n as int, b - t + 1) as nat;
    GridModel {
        screen: shift_rows_up(g.screen, t, b, m, uniform_row(g.cols, blank_model(g.pen.bg))),
        scrollback: if t == 0 && b == g.rows - 1 {
            keep_newest(g.scrollback + g.screen.subrange(0, m as int), g.max_scrollback)
        } else {
            g.scrollback
        },
        placements: apply_rule_all(
            PlacementRule::ScrollUp(t as usize, b as usize, m as usize),
            g.placements,
        ),
        dirty: mark_rows(g.dirty, t, b),
        ..g
    }
}

/// The scroll of the scroll region down by `n` lines (at most its height):
/// blank lines enter at its top; image placements pushed past its bottom
/// are dropped.
pub open spec fn scrolled_down(g: GridModel, n: nat) -> GridModel {
    let t = g.scroll_top as int;
    let b = g.scroll_bottom as int;
    let m = min_int(n as int, b - t + 1) as nat;
    GridModel {
        screen: shift_rows_down(g.screen, t, b, m, uniform_row(g.cols, blank_model(g.pen.bg))),
        placements: apply_rule_all(
            PlacementRule::ScrollDown(t as usize, b as usize, m as usize),
            g.placements,
        ),
        dirty: mark_rows(g.dirty, t, b),
        ..g
    }
}

/// Deletion of `n` lines at the cursor (within the scroll region).
pub open spec fn lines_deleted(g: GridModel, n: nat) -> GridModel {
    let c = g.cursor_row as int;
    let b = g.scroll_bottom as int;
    if c < g.scroll_top || c > b {
        g
    } else {
        let m = min_int(n as int, b - c + 1) as nat;
        GridModel {
            screen: shift_rows_up(g.screen, c, b, m, uniform_row(g.cols, blank_model(g.pen.bg))),
            dirty: mark_rows(g.dirty, c, b),
            ..g
        }
    }
}

/// Insertion of `n` blank lines at the cursor (within the scroll region).
pub open spec fn lines_inserted(g: GridModel, n: nat) -> GridModel {
    let c = g.cursor_row as int;
    let b = g.scroll_bottom as int;
    if c < g.scroll_top || c > b {
        g
    } else {
        let m = min_int(n as int, b - c + 1) as nat;
        GridModel {
            screen: shift_rows_down(g.screen, c, b, m, uniform_row(g.cols, blank_model(g.pen.bg))),
            dirty: mark_rows(g.dirty, c, b),
            ..g
        }
    }
}

/// Line feed: at the bottom of the scroll region the region scrolls up a
/// line; elsewhere the cursor moves down unless on the last row.
pub open spec fn after_linefeed(g: GridModel) -> GridModel {
    if g.cursor_row == g.scroll_bottom {
        scrolled_up(g, 1)
    } else if g.cursor_row < g.rows - 1 {
        GridModel { cursor_row: g.cursor_row + 1, ..g }
    } else {
        g
    }
}

/// Reverse index: at the top of the scroll region the region scrolls down
/// a line; elsewhere the cursor moves up unless on the first row.
pub open spec fn after_reverse_index(g: GridModel) -> GridModel {
    if g.cursor_row == g.scroll_top {
        scrolled_down(g, 1)
    } else if g.cursor_row > 0 {
        GridModel { cursor_row: (g.cursor_row - 1) as nat, ..g }
    } else {
        g
    }
}

impl Grid {
    /// Marks rows `top..=bottom` dirty.
    fn mark_dirty_range(&mut self, top: usize, bottom: usize)
        requires
            old(self).wf(),
            top <= bottom < old(self)@.rows,
        ensures
            final(self)@ == (GridModel {
                dirty: mark_rows(old(self)@.dirty, top as int, bottom as int),
                ..old(self)@
            }),
            final(self).wf(),
    {
        let mut r = top;
        proof {
            assert(mark_rows(old(self)@.dirty, top as int, top - 1) =~= old(self)@.dirty);
            assert(self@ =~= (GridModel {
                dirty: mark_rows(old(self)@.dirty, top as int, r - 1),
                ..old(self)@
            }));
        }
        while r <= bottom
            invariant
                self.wf(),
                old(self).wf(),
                top <= r <= bottom + 1,
                bottom < self@.rows,
                self@ == (GridModel {
                    dirty: mark_rows(old(self)@.dirty, top as int, r - 1),
                    ..old(self)@
                }),
            decreases bottom + 1 - r,
        {
            self.mark_dirty(r);
            proof {
                assert(mark_rows(old(self)@.dirty, top as int, r - 1).update(r as int, true)
                    =~= mark_rows(old(self)@.dirty, top as int, r as int));
            }
            r = r + 1;
        }
    }

    /// Appends lines to the scrollback, keeping the newest `max_scrollback`.
    fn push_history(&mut self, lines: Vec<Vec<Cell>>)
        requires
            old(self).wf(),
        ensures
            final(self)@ == (GridModel {
                scrollback: keep_newest(
                    old(self)@.scrollback + rows_view(lines@),
                    old(self)@.max_scrollback,
                ),
                ..old(self)@
            }),
            final(self).wf(),
    {
        let ghost full = old(self)@.scrollback + rows_view(lines@);
        let mut lines = lines;
        let mut i: usize = 0;
        let n = lines.len();
        let ghost all = lines@;
        while i < n
            invariant
                0 <= i <= n == all.len(),
                rows_view(self.scrollback@) == old(self)@.scrollback + rows_view(all.subrange(
                    0,
                    i as int,
                )),
                lines@ == all,
                self.screen == old(self).screen,
                self@ == (GridModel { scrollback: rows_view(self.scrollback@), ..old(self)@ }),
            decreases n - i,
        {
            let line = copy_row(&lines[i]);
            let ghost before = self.scrollback@;
            self.scrollback.push_back(line);
            proof {
                lemma_rows_view_push(before, line);
                assert(rows_view(all.subrange(0, i + 1)) =~= rows_view(all.subrange(0, i as int)).push(
                    row_view(all[i as int]@),
                ));
                assert(rows_view(self.scrollback@) =~= old(self)@.scrollback + rows_view(all.subrange(
                    0,
                    i + 1,
                )));
                assert(self@ =~= (GridModel { scrollback: rows_view(self.scrollback@), ..old(self)@ }));
            }
            i = i + 1;
        }
        proof {
            assert(all.subrange(0, n as int) =~= all);
        }
        let ghost k0: int = 0;
        let ghost mut k: int = 0;
        proof {
            assert(full.subrange(0, full.len() as int) =~= full);
        }
        while self.scrollback.len() > self.max_scrollback
            invariant
                0 <= k <= full.len(),
                rows_view(self.scrollback@) == full.subrange(k, full.len() as int),
                full.len() > self.max_scrollback ==> k <= full.len() - self.max_scrollback,
                full.len() <= self.max_scrollback ==> k == 0,
                self.max_scrollback == old(self)@.max_scrollback,
                self@ == (GridModel { scrollback: rows_view(self.scrollback@), ..old(self)@ }),
            decreases self.scrollback@.len(),
        {
            let ghost before = self.scrollback@;
            let _ = self.scrollback.pop_front();
            proof {
                assert(rows_view(before).len() == before.len());
                assert(before.len() > 0);
                assert(k < full.len());
                assert(rows_view(self.scrollback@) =~= rows_view(before).subrange(
                    1,
                    before.len() as int,
                ));
                assert(rows_view(self.scrollback@) =~= full.subrange(k + 1, full.len() as int));
                k = k + 1;
                assert(self@ =~= (GridModel { scrollback: rows_view(self.scrollback@), ..old(self)@ }));
            }
        }
        proof {
            assert(rows_view(self.scrollback@).len() == self.scrollback@.len());
            assert(rows_view(self.scrollback@) =~= keep_newest(full, old(self)@.max_scrollback));
        }
    }

    /// Shifts the rows `top..=bottom` up by `m`, blank rows entering at the
    /// bottom; returns the rows shifted out.
    #[verifier::spinoff_prover]
    fn shift_region_up(&mut self, top: usize, bottom: usize, m: usize) -> (out: Vec<Vec<Cell>>)
        requires
            old(self).wf(),
            top == old(self)@.scroll_top,
            bottom == old(self)@.scroll_bottom,
            m <= bottom - top + 1,
        ensures
            final(self)@ == (GridModel {
                screen: shift_rows_up(
                    old(self)@.screen,
                    top as int,
                    bottom as int,
                    m as nat,
                    uniform_row(old(self)@.cols, blank_model(old(self)@.pen.bg)),
                ),
                ..old(self)@
            }),
            rows_view(out@) == old(self)@.screen.subrange(top as int, top + m),
            final(self).wf(),
    {
        let blank = self.blank_cell();
        let ghost g = self@;
        let cols = self.cols;
        let out = shift_up_rows(&mut self.screen, top, bottom, m, &blank, cols);
        proof {
            lemma_shift_shapes(
                g.screen,
                top as int,
                bottom as int,
                m as nat,
                uniform_row(g.cols, blank_model(g.pen.bg)),
                g.cols,
            );
            assert(self@ =~= (GridModel {
                screen: shift_rows_up(
                    g.screen,
                    top as int,
                    bottom as int,
                    m as nat,
                    uniform_row(g.cols, blank_model(g.pen.bg)),
                ),
                ..g
            }));
        }
        out
    }

    /// Shifts the scroll region up by `m` rows; when the region is the whole
    /// screen, the rows shifted out join the scrollback.
    #[verifier::spinoff_prover]
    fn shift_region_up_with_history(&mut self, top: usize, bottom: usize, m: usize)
        requires
            old(self).wf(),
            top == old(self)@.scroll_top,
            bottom == old(self)@.scroll_bottom,
            m <= bottom - top + 1,
        ensures
            final(self)@ == (GridModel {
                screen: shift_rows_up(
                    old(self)@.screen,
                    top as int,
                    bottom as int,
                    m as nat,
                    uniform_row(old(self)@.cols, blank_model(old(self)@.pen.bg)),
                ),
                scrollback: if top == 0 && bottom == old(self)@.rows - 1 {
                    keep_newest(
                        old(self)@.scrollback + old(self)@.screen.subrange(0, m as int),
                        old(self)@.max_scrollback,
                    )
                } else {
                    old(self)@.scrollback
                },
                ..old(self)@
            }),
            final(self).wf(),
    {
        let rows = self.rows();
        let out = self.shift_region_up(top, bottom, m);
        if top == 0 && bottom == rows - 1 {
            self.push_history(out);
        }
    }

    /// Scroll up (n lines) within the scroll region
    #[verifier::spinoff_prover]
    #[verifier::rlimit(40)]
    pub fn scroll_up(&mut self, n: usize)
        requires
            old(self).wf(),
        ensures
            final(self)@ == scrolled_up(old(self)@, n as nat),
            final(self).wf(),
    {
        let ghost g = self@;
        let (top, bottom) = self.scroll_region();
        let height = bottom - top + 1;
        let m = if n < height {
            n
        } else {
            height
        };
        self.shift_region_up_with_history(top, bottom, m);
        self.retain_placements(PlacementRule::ScrollUp(top, bottom, m));
        self.mark_dirty_range(top, bottom);
        proof {
            let target = scrolled_up(g, n as nat);
            assert(m as nat == min_int(n as int, g.scroll_bottom - g.scroll_top + 1) as nat);
            assert(self@.screen == target.screen);
            assert(self@.scrollback == target.scrollback);
            assert(self@.placements == target.placements);
            assert(self@.dirty == target.dirty);
            assert(self@ =~= target);
        }
    }

    /// Scroll down (CSI T / SD) within the scroll region
    #[verifier::spinoff_prover]
    #[verifier::rlimit(40)]
    pub fn scroll_down(&mut self, n: usize)
        requires
            old(self).wf(),
        ensures
            final(self)@ == scrolled_down(old(self)@, n as nat),
            final(self).wf(),
    {
        let top = self.scroll_top;
        let bottom = self.scroll_bottom;
        let height = bottom - top + 1;
        let m = if n < height {
            n
        } else {
            height
        };
        let blank = self.blank_cell();
        let ghost g = self@;
        let cols = self.cols;
        shift_down_rows(&mut self.screen, top, bottom, m, &blank, cols);
        proof {
            lemma_shift_shapes(
                g.screen,
                top as int,
                bottom as int,
                m as nat,
                uniform_row(g.cols, blank_model(g.pen.bg)),
                g.cols,
            );
            assert(self@ =~= (GridModel {
                screen: shift_rows_down(
                    g.screen,
                    top as int,
                    bottom as int,
                    m as nat,
                    uniform_row(g.cols, blank_model(g.pen.bg)),
                ),
                ..g
            }));
        }
        let ghost g1 = self@;
        self.retain_placements(PlacementRule::ScrollDown(top, bottom, m));
        let ghost g2 = self@;
        self.mark_dirty_range(top, bottom);
        proof {
            let target = scrolled_down(g, n as nat);
            assert(m as nat == min_int(n as int, g.scroll_bottom - g.scroll_top + 1) as nat);
            assert(self@.screen == target.screen);
            assert(self@.placements == target.placements);
            assert(self@.dirty == target.dirty);
            assert(self@ =~= target);
        }
    }

    /// Delete lines and scroll (CSI M), within the scroll region
    #[verifier::spinoff_prover]
    pub fn delete_lines(&mut self, n: usize)
        requires
            old(self).wf(),
        ensures
            final(self)@ == lines_deleted(old(self)@, n as nat),
            final(self).wf(),
    {
        let bottom = self.scroll_bottom;
        if self.cursor_row < self.scroll_top || self.cursor_row > bottom {
            return;
        }
        let start = self.cursor_row;
        let height = bottom - start + 1;
        let m = if n < height {
            n
        } else {
            height
        };
        let blank = self.blank_cell();
        let ghost g = self@;
        let cols = self.cols;
        let _out = shift_up_rows(&mut self.screen, start, bottom, m, &blank, cols);
        proof {
            lemma_shift_shapes(
                g.screen,
                start as int,
                bottom as int,
                m as nat,
                uniform_row(g.cols, blank_model(g.pen.bg)),
                g.cols,
            );
            assert(self@ =~= (GridModel {
                screen: shift_rows_up(
                    g.screen,
                    start as int,
                    bottom as int,
                    m as nat,
                    uniform_row(g.cols, blank_model(g.pen.bg)),
                ),
                ..g
            }));
        }
        self.mark_dirty_range(start, bottom);
        proof {
            assert(self@ =~= lines_deleted(g, n as nat));
        }
    }

    /// Insert lines (CSI L), within the scroll region
    #[verifier::spinoff_prover]
    pub fn insert_lines(&mut self, n: usize)
        requires
            old(self).wf(),
        ensures
            final(self)@ == lines_inserted(old(self)@, n as nat),
            final(self).wf(),
    {
        let bottom = self.scroll_bottom;
        if self.cursor_row < self.scroll_top || self.cursor_row > bottom {
            return;
        }
        let start = self.cursor_row;
        let height = bottom - start + 1;
        let m = if n < height {
            n
        } else {
            height
        };
        let blank = self.blank_cell();
        let ghost g = self@;
        let cols = self.cols;
        shift_down_rows(&mut self.screen, start, bottom, m, &blank, cols);
        proof {
            lemma_shift_shapes(
                g.screen,
                start as int,
                bottom as int,
                m as nat,
                uniform_row(g.cols, blank_model(g.pen.bg)),
                g.cols,
            );
            assert(self@ =~= (GridModel {
                screen: shift_rows_down(
                    g.screen,
                    start as int,
                    bottom as int,
                    m as nat,
                    uniform_row(g.cols, blank_model(g.pen.bg)),
                ),
                ..g
            }));
        }
        self.mark_dirty_range(start, bottom);
        proof {
            assert(self@ =~= lines_inserted(g, n as nat));
        }
    }

    /// Line feed (LF)
    #[verifier::spinoff_prover]
    pub fn linefeed(&mut self)
        requires
            old(self).wf(),
        ensures
            final(self)@ == after_linefeed(old(self)@),
            final(self).wf(),
    {
        if self.cursor_row == self.scroll_bottom {
            self.scroll_up(1);
        } else if self.cursor_row < self.rows - 1 {
            let r = self.cursor_row + 1;
            self.set_cursor_row(r);
        }
    }

    /// Reverse index (RI / ESC M)
    #[verifier::spinoff_prover]
    pub fn reverse_index(&mut self)
        requires
            old(self).wf(),
        ensures
            final(self)@ == after_reverse_index(old(self)@),
            final(self).wf(),
    {
        if self.cursor_row == self.scroll_top {
            self.scroll_down(1);
        } else if self.cursor_row > 0 {
            let r = self.cursor_row - 1;
            self.set_cursor_row(r);
        }
    }

    /// Number of scrollback lines
    pub fn scrollback_len(&self) -> (r: usize)
        ensures
            r == self@.scrollback.len(),
    {
        proof {
            assert(rows_view(self.scrollback@).len() == self.scrollback@.len());
        }
        self.scrollback.len()
    }

    /// Get scrollback line (0 = oldest line)
    pub fn scrollback_row(&self, idx: usize) -> (r: Option<&[Cell]>)
        ensures
            idx < self@.scrollback.len() <==> r.is_some(),
            r matches Some(cells) ==> row_view(cells@) == self@.scrollback[idx as int],
    {
        if idx < self.scrollback.len() {
            let row: &Vec<Cell> = &self.scrollback[idx];
            Some(row.as_slice())
        } else {
            None
        }
    }
}

// ========== Erasing ==========
/// Row `row` after Erase in Line with the cursor at `col`: mode 0 erases
/// from the cursor to the end (and the head of a wide character whose
/// second half is under the cursor), mode 1 from the start to the cursor
/// (and the second half of a wide character whose head is there), mode 2
/// the whole line; other modes change nothing.
pub open spec fn erase_line_row(row: Seq<CellModel>, col: int, mode: u16, blank: CellModel) -> Seq<
    CellModel,
> {
    let cols = row.len() as int;
    if mode == 0 {
        let start = if col < cols && row[col].width == 0 && col > 0 {
            col - 1
        } else {
            col
        };
        fill_range(row, start, cols, blank)
    } else if mode == 1 {
        let end = min_int(col, cols - 1);
        let stop = if row[end].width == 2 && end + 1 < cols {
            end + 2
        } else {
            end + 1
        };
        fill_range(row, 0, stop, blank)
    } else if mode == 2 {
        fill_range(row, 0, cols, blank)
    } else {
        row
    }
}

/// Erase in Line (CSI K): the cursor's row erased as [`erase_line_row`]
/// says in the pen's background, images on the row dropped (modes 0-2),
/// and the row marked dirty.
pub open spec fn erased_in_line(g: GridModel, mode: u16) -> GridModel {
    let r = g.cursor_row as int;
    GridModel {
        screen: g.screen.update(
            r,
            erase_line_row(g.screen[r], g.cursor_col as int, mode, blank_model(g.pen.bg)),
        ),
        placements: if mode <= 2 {
            apply_rule_all(PlacementRule::OffRow(r as usize), g.placements)
        } else {
            g.placements
        },
        dirty: g.dirty.update(r, true),
        ..g
    }
}

/// Row `r` blanked in the pen's background, its images dropped, marked dirty.
pub open spec fn row_cleared(g: GridModel, r: int) -> GridModel {
    GridModel {
        screen: g.screen.update(r, uniform_row(g.cols, blank_model(g.pen.bg))),
        placements: apply_rule_all(PlacementRule::OffRow(r as usize), g.placements),
        dirty: g.dirty.update(r, true),
        ..g
    }
}

/// Rows `from..to` cleared one after the other.
pub open spec fn rows_cleared(g: GridModel, from: int, to: int) -> GridModel
    decreases to - from,
{
    if to <= from {
        g
    } else {
        row_cleared(rows_cleared(g, from, to - 1), to - 1)
    }
}

/// Erase in Display (CSI J): mode 0 from the cursor to the end of the
/// screen, mode 1 from the start to the cursor, modes 2 and 3 the whole
/// screen (with every image placement and a full redraw); other modes
/// change nothing.
pub open spec fn erased_in_display(g: GridModel, mode: u16) -> GridModel {
    if mode == 0 {
        rows_cleared(erased_in_line(g, 0), g.cursor_row + 1int, g.rows as int)
    } else if mode == 1 {
        erased_in_line(rows_cleared(g, 0, g.cursor_row as int), 1)
    } else if mode == 2 || mode == 3 {
        GridModel {
            screen: blank_rows(g.rows, g.cols, blank_model(g.pen.bg)),
            placements: seq![],
            all_dirty: true,
            dirty: Seq::new(g.rows, |r: int| true),
            ..g
        }
    } else {
        g
    }
}

proof fn lemma_rows_cleared_keeps(g: GridModel, from: int, to: int)
    requires
        g.wf(),
        0 <= from,
        to <= g.rows,
    ensures
        rows_cleared(g, from, to).wf(),
        rows_cleared(g, from, to).cursor_row == g.cursor_row,
        rows_cleared(g, from, to).cursor_col == g.cursor_col,
        rows_cleared(g, from, to).pen == g.pen,
        rows_cleared(g, from, to).cols == g.cols,
        rows_cleared(g, from, to).rows == g.rows,
    decreases to - from,
{
    if to > from {
        lemma_rows_cleared_keeps(g, from, to - 1);
    }
}

/// Clearing rows `from..to` blanks exactly those rows of the screen.
proof fn lemma_rows_cleared_screen(g: GridModel, from: int, to: int)
    requires
        g.wf(),
        0 <= from,
        to <= g.rows,
    ensures
        rows_cleared(g, from, to).screen.len() == g.screen.len(),
        rows_cleared(g, from, to).pen == g.pen,
        forall|r: int|
            0 <= r < g.screen.len() ==> #[trigger] rows_cleared(g, from, to).screen[r] == (if from
                <= r < to {
                uniform_row(g.cols, blank_model(g.pen.bg))
            } else {
                g.screen[r]
            }),
    decreases to - from,
{
    if to > from {
        lemma_rows_cleared_screen(g, from, to - 1);
        lemma_rows_cleared_keeps(g, from, to - 1);
    }
}

/// Erase in Display from the cursor (mode 0) keeps everything before the
/// cursor: every row above it and, on its row, every cell left of it (but
/// the first half of a wide character whose second half is under the
/// cursor); it blanks, in the pen's background, the cursor's row from the
/// cursor on and every row below.
pub proof fn lemma_erase_below_keeps_above(g: GridModel)
    requires
        g.wf(),
    ensures
        ({
            let h = erased_in_display(g, 0);
            let cr = g.cursor_row as int;
            let cc = g.cursor_col as int;
            let blank = blank_model(g.pen.bg);
            &&& h.screen.len() == g.rows
            &&& forall|r: int| 0 <= r < cr ==> #[trigger] h.screen[r] == g.screen[r]
            &&& forall|c: int|
                0 <= c < cc && c < g.cols && !(c + 1 == cc && cc < g.cols && g.screen[cr][cc].width
                    == 0) ==> #[trigger] h.screen[cr][c] == g.screen[cr][c]
            &&& forall|c: int| cc <= c < g.cols ==> #[trigger] h.screen[cr][c] == blank
            &&& forall|r: int, c: int|
                cr < r < g.rows && 0 <= c < g.cols ==> #[trigger] h.screen[r][c] == blank
        }),
{
    let g1 = erased_in_line(g, 0);
    let cr = g.cursor_row as int;
    assert(g1.screen[cr].len() == g.cols);
    assert(g1.wf()) by {
        assert forall|r: int| 0 <= r < g1.screen.len() implies #[trigger] g1.screen[r].len() == g1.cols by {
            if r != cr {
                assert(g1.screen[r] == g.screen[r]);
            }
        }
    }
    lemma_rows_cleared_screen(g1, cr + 1, g.rows as int);
    let h = erased_in_display(g, 0);
    assert forall|r: int| 0 <= r < cr implies #[trigger] h.screen[r] == g.screen[r] by {
        assert(h.screen[r] == g1.screen[r]);
    }
    assert(h.screen[cr] == g1.screen[cr]);
}

/// Deleting `n` lines with the cursor on row `c` inside the scroll region
/// moves the rest of the region up: row `c + k` holds what row
/// `c + k + n` held, for every `k` with `c + k + n` still in the region;
/// the region's last rows become blank rows in the pen's background, and
/// rows outside the cursor..bottom range are untouched.
pub proof fn lemma_delete_lines_moves_up(g: GridModel, n: nat)
    requires
        g.wf(),
        g.scroll_top <= g.cursor_row <= g.scroll_bottom,
    ensures
        ({
            let h = lines_deleted(g, n);
            let c = g.cursor_row as int;
            let b = g.scroll_bottom as int;
            &&& h.screen.len() == g.rows
            &&& forall|k: int| 0 <= k && c + k + n <= b ==> #[trigger] h.screen[c + k] == g.screen[c
                + k + n]
            &&& forall|r: int| c <= r <= b && r + n > b ==> #[trigger] h.screen[r] == uniform_row(
                g.cols,
                blank_model(g.pen.bg),
            )
            &&& forall|r: int|
                0 <= r < g.rows && (r < c || r > b) ==> #[trigger] h.screen[r] == g.screen[r]
        }),
{
    let c = g.cursor_row as int;
    let b = g.scroll_bottom as int;
    let m = min_int(n as int, b - c + 1) as nat;
    let blank = uniform_row(g.cols, blank_model(g.pen.bg));
    let s = g.screen;
    let h = lines_deleted(g, n);
    assert(h.screen == shift_rows_up(s, c, b, m, blank));
    let p0 = s.subrange(0, c);
    let p1 = s.subrange(c + m, b + 1);
    let p2 = Seq::new(m, |i: int| blank);
    let p3 = s.subrange(b + 1, s.len() as int);
    assert(h.screen == p0 + p1 + p2 + p3);
    assert(h.screen.len() == g.rows);
    assert forall|k: int| 0 <= k && c + k + n <= b implies #[trigger] h.screen[c + k] == s[c + k + n] by {
        assert(m == n);
        assert((p0 + p1 + p2 + p3)[c + k] == p1[k]);
    }
    assert forall|r: int| c <= r <= b && r + n > b implies #[trigger] h.screen[r] == blank by {
        assert((p0 + p1 + p2 + p3)[r] == p2[r - c - (b + 1 - c - m)]);
    }
    assert forall|r: int| 0 <= r < g.rows && (r < c || r > b) implies #[trigger] h.screen[r] == s[r] by {
        if r < c {
            assert((p0 + p1 + p2 + p3)[r] == p0[r]);
        } else {
            assert((p0 + p1 + p2 + p3)[r] == p3[r - b - 1]);
        }
    }
}

/// Erase in Display to the cursor (mode 1) blanks every row above the
/// cursor and, on its row, every cell up to and including the cursor's; it
/// keeps every row below and, on the cursor's row, every cell past the one
/// right of the cursor (which goes with the cursor's cell when that is a
/// wide character). Modes 2 and 3 blank every cell.
pub proof fn lemma_erase_above_and_all(g: GridModel)
    requires
        g.wf(),
    ensures
        ({
            let h = erased_in_display(g, 1);
            let cr = g.cursor_row as int;
            let cc = g.cursor_col as int;
            let blank = blank_model(g.pen.bg);
            &&& h.screen.len() == g.rows
            &&& forall|r: int, c: int| 0 <= r < cr && 0 <= c < g.cols ==> #[trigger] h.screen[r][c]
                == blank
            &&& forall|c: int| 0 <= c <= cc && c < g.cols ==> #[trigger] h.screen[cr][c] == blank
            &&& forall|c: int| cc + 1 < c < g.cols ==> #[trigger] h.screen[cr][c] == g.screen[cr][c]
            &&& forall|r: int| cr < r < g.rows ==> #[trigger] h.screen[r] == g.screen[r]
        }),
        forall|mode: u16, r: int, c: int|
            (mode == 2 || mode == 3) && 0 <= r < g.rows && 0 <= c < g.cols ==> #[trigger] erased_in_display(
                g,
                mode,
            ).screen[r][c] == blank_model(g.pen.bg),
{
    let cr = g.cursor_row as int;
    lemma_rows_cleared_screen(g, 0, cr);
    lemma_rows_cleared_keeps(g, 0, cr);
    let g1 = rows_cleared(g, 0, cr);
    assert(g1.screen[cr] == g.screen[cr]);
    let h = erased_in_display(g, 1);
    assert forall|r: int| cr < r < g.rows implies #[trigger] h.screen[r] == g.screen[r] by {
        assert(h.screen[r] == g1.screen[r]);
    }
    assert forall|r: int, c: int| 0 <= r < cr && 0 <= c < g.cols implies #[trigger] h.screen[r][c]
        == blank_model(g.pen.bg) by {
        assert(h.screen[r] == g1.screen[r]);
    }
}

/// Erase in Line touches only the cursor's row: from the cursor (mode 0)
/// it blanks the cells from the cursor on and keeps those left of it (but
/// the first half of a wide character whose second half is under the
/// cursor); mode 2 blanks the whole row.
pub proof fn lemma_erase_in_line_row(g: GridModel)
    requires
        g.wf(),
    ensures
        ({
            let h = erased_in_line(g, 0);
            let cr = g.cursor_row as int;
            let cc = g.cursor_col as int;
            &&& forall|r: int| 0 <= r < g.rows && r != cr ==> #[trigger] h.screen[r] == g.screen[r]
            &&& forall|c: int| cc <= c < g.cols ==> #[trigger] h.screen[cr][c] == blank_model(g.pen.bg)
            &&& forall|c: int|
                0 <= c < cc && c < g.cols && !(c + 1 == cc && cc < g.cols && g.screen[cr][cc].width
                    == 0) ==> #[trigger] h.screen[cr][c] == g.screen[cr][c]
        }),
        forall|r: int, c: int|
            0 <= r < g.rows && 0 <= c < g.cols ==> #[trigger] erased_in_line(g, 2).screen[r][c] == (if r
                == g.cursor_row {
                blank_model(g.pen.bg)
            } else {
                g.screen[r][c]
            }),
{
}

/// Inserting `n` lines with the cursor on row `c` inside the scroll region
/// moves the rest of the region down: row `c + k + n` holds what row
/// `c + k` held, for every `k` with `c + k + n` still in the region; the
/// rows from the cursor down to the inserted count become blank rows in the
/// pen's background, and rows outside the cursor..bottom range are
/// untouched.
pub proof fn lemma_insert_lines_moves_down(g: GridModel, n: nat)
    requires
        g.wf(),
        g.scroll_top <= g.cursor_row <= g.scroll_bottom,
    ensures
        ({
            let h = lines_inserted(g, n);
            let c = g.cursor_row as int;
            let b = g.scroll_bottom as int;
            &&& h.screen.len() == g.rows
            &&& forall|k: int| 0 <= k && c + k + n <= b ==> #[trigger] h.screen[c + k + n] == g.screen[c
                + k]
            &&& forall|r: int| c <= r <= b && r < c + n ==> #[trigger] h.screen[r] == uniform_row(
                g.cols,
                blank_model(g.pen.bg),
            )
            &&& forall|r: int|
                0 <= r < g.rows && (r < c || r > b) ==> #[trigger] h.screen[r] == g.screen[r]
        }),
{
    let c = g.cursor_row as int;
    let b = g.scroll_bottom as int;
    let m = min_int(n as int, b - c + 1) as nat;
    let blank = uniform_row(g.cols, blank_model(g.pen.bg));
    let s = g.screen;
    let h = lines_inserted(g, n);
    assert(h.screen == shift_rows_down(s, c, b, m, blank));
    let p0 = s.subrange(0, c);
    let p1 = Seq::new(m, |i: int| blank);
    let p2 = s.subrange(c, b + 1 - m);
    let p3 = s.subrange(b + 1, s.len() as int);
    assert(h.screen == p0 + p1 + p2 + p3);
    assert(h.screen.len() == g.rows);
    assert forall|k: int| 0 <= k && c + k + n <= b implies #[trigger] h.screen[c + k + n] == s[c + k] by {
        assert(m == n);
        assert((p0 + p1 + p2 + p3)[c + k + n] == p2[k]);
    }
    assert forall|r: int| c <= r <= b && r < c + n implies #[trigger] h.screen[r] == blank by {
        assert((p0 + p1 + p2 + p3)[r] == p1[r - c]);
    }
    assert forall|r: int| 0 <= r < g.rows && (r < c || r > b) implies #[trigger] h.screen[r] == s[r] by {
        if r < c {
            assert((p0 + p1 + p2 + p3)[r] == p0[r]);
        } else {
            assert((p0 + p1 + p2 + p3)[r] == p3[r - b - 1]);
        }
    }
}

impl Grid {
    /// Erases the cells of the cursor's row as [`erase_line_row`] says.
    fn erase_line_cells(&mut self, mode: u16)
        requires
            old(self).wf(),
        ensures
            final(self)@ == (GridModel {
                screen: old(self)@.screen.update(
                    old(self)@.cursor_row as int,
                    erase_line_row(
                        old(self)@.screen[old(self)@.cursor_row as int],
                        old(self)@.cursor_col as int,
                        mode,
                        blank_model(old(self)@.pen.bg),
                    ),
                ),
                ..old(self)@
            }),
            final(self).wf(),
    {
        let ghost g = self@;
        let row = self.cursor_row;
        let col = self.cursor_col;
        let cols = self.cols;
        let blank = self.blank_cell();
        let ghost old_row = g.screen[row as int];
        proof {
            assert(old_row.len() == g.cols);
        }
        if mode == 0 {
            let start = if col < cols && col > 0 && self.cell(row, col).width == 0 {
                col - 1
            } else if col < cols {
                col
            } else {
                cols
            };
            self.fill_cells(row, start, cols, &blank);
            proof {
                assert(fill_range(old_row, start as int, cols as int, blank@) =~= erase_line_row(
                    old_row,
                    col as int,
                    mode,
                    blank@,
                ));
            }
        } else if mode == 1 {
            let end = if col < cols - 1 {
                col
            } else {
                cols - 1
            };
            let stop = if self.cell(row, end).width == 2 && end + 1 < cols {
                end + 2
            } else {
                end + 1
            };
            self.fill_cells(row, 0, stop, &blank);
        } else if mode == 2 {
            self.fill_cells(row, 0, cols, &blank);
        } else {
            proof {
                assert(g.screen.update(row as int, old_row) =~= g.screen);
            }
        }
    }

    /// Erase line (CSI K)
    /// mode: 0=from cursor, 1=to cursor, 2=entire line
    /// Uses current SGR background color per ECMA-48
    #[verifier::spinoff_prover]
    #[verifier::rlimit(40)]
    pub fn erase_in_line(&mut self, mode: u16)
        requires
            old(self).wf(),
        ensures
            final(self)@ == erased_in_line(old(self)@, mode),
            final(self).wf(),
    {
        let row = self.cursor_row;
        self.erase_line_cells(mode);
        if mode <= 2 {
            self.remove_images_at_row(row);
        }
        self.mark_dirty(row);
        proof {
            assert(self@ =~= erased_in_line(old(self)@, mode));
        }
    }

    /// Clears row `r` and drops the images on it.
    fn clear_row_fully(&mut self, r: usize)
        requires
            old(self).wf(),
            r < old(self)@.rows,
        ensures
            final(self)@ == row_cleared(old(self)@, r as int),
            final(self).wf(),
    {
        self.clear_row_with_bg(r);
        self.remove_images_at_row(r);
        self.mark_dirty(r);
        proof {
            assert(self@ =~= row_cleared(old(self)@, r as int));
        }
    }

    /// Erase display (CSI J)
    /// mode: 0=from cursor, 1=to cursor, 2=entire screen
    /// Uses current SGR background color per ECMA-48
    #[verifier::spinoff_prover]
    pub fn erase_in_display(&mut self, mode: u16)
        requires
            old(self).wf(),
        ensures
            final(self)@ == erased_in_display(old(self)@, mode),
            final(self).wf(),
    {
        let ghost g = self@;
        if mode == 0 {
            self.erase_in_line(0);
            let ghost g1 = self@;
            let mut r = self.cursor_row + 1;
            proof {
                lemma_rows_cleared_keeps(g1, g1.cursor_row + 1int, r as int);
            }
            while r < self.rows
                invariant
                    self.wf(),
                    g1.wf(),
                    g1.cursor_row + 1 <= r <= g1.rows,
                    self@ == rows_cleared(g1, g1.cursor_row + 1int, r as int),
                    self@.rows == g1.rows,
                decreases self@.rows - r,
            {
                self.clear_row_fully(r);
                proof {
                    lemma_rows_cleared_keeps(g1, g1.cursor_row + 1int, r + 1);
                }
                r = r + 1;
            }
        } else if mode == 1 {
            let mut r: usize = 0;
            while r < self.cursor_row
                invariant
                    self.wf(),
                    g.wf(),
                    0 <= r <= g.cursor_row,
                    self@ == rows_cleared(g, 0, r as int),
                decreases g.cursor_row - r,
            {
                proof {
                    lemma_rows_cleared_keeps(g, 0, r as int);
                }
                self.clear_row_fully(r);
                r = r + 1;
            }
            proof {
                lemma_rows_cleared_keeps(g, 0, r as int);
            }
            self.erase_in_line(1);
        } else if mode == 2 || mode == 3 {
            let blank = self.blank_cell();
            let mut r: usize = 0;
            proof {
                assert(blank_rows(0, g.cols, blank_model(g.pen.bg)) + g.screen.subrange(
                    0,
                    g.rows as int,
                ) =~= g.screen);
                assert(self@ =~= (GridModel {
                    screen: blank_rows(0, g.cols, blank_model(g.pen.bg)) + g.screen.subrange(
                        0,
                        g.rows as int,
                    ),
                    ..g
                }));
            }
            while r < self.rows
                invariant
                    self.wf(),
                    g.wf(),
                    0 <= r <= g.rows,
                    self@ == (GridModel {
                        screen: blank_rows(r as nat, g.cols, blank_model(g.pen.bg)) + g.screen.subrange(
                            r as int,
                            g.rows as int,
                        ),
                        ..g
                    }),
                    blank@ == blank_model(g.pen.bg),
                decreases g.rows - r,
            {
                let cells = row_of(self.cols, &blank);
                self.set_row(r, cells);
                proof {
                    assert(blank_rows((r + 1) as nat, g.cols, blank_model(g.pen.bg)) + g.screen.subrange(
                        r + 1,
                        g.rows as int,
                    ) =~= (blank_rows(r as nat, g.cols, blank_model(g.pen.bg)) + g.screen.subrange(
                        r as int,
                        g.rows as int,
                    )).update(r as int, uniform_row(g.cols, blank_model(g.pen.bg))));
                }
                r = r + 1;
            }
            self.clear_image_placements();
            self.mark_all_dirty();
            proof {
                assert(g.screen.subrange(g.rows as int, g.rows as int) =~= Seq::<
                    Seq<CellModel>,
                >::empty());
                assert(self@ =~= erased_in_display(g, mode));
            }
        } else {
        }
    }
}

// ========== Character insertion and deletion ==========
/// Width of the cell under the cursor as the row-major layout of the
/// screen reads it: past the last column, the first cell of the next row.
pub open spec fn width_at_cursor(g: GridModel) -> u8 {
    if g.cursor_col < g.cols {
        g.screen[g.cursor_row as int][g.cursor_col as int].width
    } else {
        g.screen[g.cursor_row + 1int][0].width
    }
}

/// Character editing (ICH, DCH, ECH) is defined at the cursor: it is on the
/// screen, or just past the last column of a row that has a row below it.
pub open spec fn char_edit_defined(g: GridModel) -> bool {
    g.cursor_col < g.cols || (g.cursor_col == g.cols && g.cursor_row + 1 < g.rows)
}

/// The cells that deleting `n` characters at `col` empties first: the head
/// of a wide character whose second half is under the cursor, the head
/// whose second half is the first cell kept, and the second half of a wide
/// character whose head is the last cell deleted.
#[verifier::opaque]
pub open spec fn delete_fixups(row0: Seq<CellModel>, col: int, n: int, w0: u8) -> Seq<CellModel> {
    let cols = row0.len() as int;
    let d = default_model();
    let row1 = if w0 == 0 && col > 0 {
        row0.update(col - 1, d)
    } else {
        row0
    };
    let row2 = if col + n < cols && row1[col + n].width == 0 && col + n > 0 {
        row1.update(col + n - 1, d)
    } else {
        row1
    };
    if n > 0 && row2[col + n - 1].width == 2 && col + n < cols {
        row2.update(col + n, d)
    } else {
        row2
    }
}

/// The row after deleting `n` characters at `col` (DCH): after
/// [`delete_fixups`], the rest of the row moves left and `n` blank cells
/// enter at the right.
#[verifier::opaque]
pub open spec fn delete_chars_row(row0: Seq<CellModel>, col: int, n: int, w0: u8, blank: CellModel) -> Seq<
    CellModel,
> {
    let row3 = delete_fixups(row0, col, n, w0);
    row3.subrange(0, col) + row3.subrange(col + n, row0.len() as int) + uniform_row(n as nat, blank)
}

/// The cells that inserting `n` characters at `col` empties first: the
/// head of a wide character whose second half is under the cursor, the
/// second half of a wide character whose head is under the cursor, and a
/// head whose second half is pushed off the right edge.
#[verifier::opaque]
pub open spec fn insert_fixups(row0: Seq<CellModel>, col: int, n: int, w0: u8) -> Seq<CellModel> {
    let cols = row0.len() as int;
    let d = default_model();
    let row1 = if w0 == 0 && col > 0 {
        row0.update(col - 1, d)
    } else {
        row0
    };
    let row2 = if col + 1 < cols && row1[col].width == 2 {
        row1.update(col + 1, d)
    } else {
        row1
    };
    let sb = cols - n;
    if 0 < sb < cols && row2[sb - 1].width == 2 {
        row2.update(sb - 1, d)
    } else {
        row2
    }
}

/// The row after inserting `n` blank characters at `col` (ICH): after
/// [`insert_fixups`], the rest of the row moves right and the last `n`
/// cells fall off.
#[verifier::opaque]
pub open spec fn insert_chars_row(row0: Seq<CellModel>, col: int, n: int, w0: u8, blank: CellModel) -> Seq<
    CellModel,
> {
    let row3 = insert_fixups(row0, col, n, w0);
    row3.subrange(0, col) + uniform_row(n as nat, blank) + row3.subrange(col, row0.len() - n)
}

/// The row after erasing `n` characters at `col` (ECH): the cells become
/// blank, together with the other half of a wide character cut at either
/// end.
#[verifier::opaque]
pub open spec fn erase_chars_row(row0: Seq<CellModel>, col: int, n: int, w0: u8, blank: CellModel) -> Seq<
    CellModel,
> {
    let cols = row0.len() as int;
    let row1 = if w0 == 0 && col > 0 {
        row0.update(col - 1, blank)
    } else {
        row0
    };
    let end = col + n;
    let row2 = if end < cols && row1[end].width != 0 && end > 0 && row1[end - 1].width == 2 {
        row1.update(end, blank)
    } else {
        row1
    };
    fill_range(row2, col, end, blank)
}

/// The count of cells an edit at the cursor covers: `n`, at most to the
/// end of the row.
pub open spec fn edit_count(g: GridModel, n: nat) -> int {
    min_int(n as int, g.cols - g.cursor_col)
}

/// Delete characters (CSI P / DCH) on the cursor's row.
pub open spec fn chars_deleted(g: GridModel, n: nat) -> GridModel {
    let r = g.cursor_row as int;
    GridModel {
        screen: g.screen.update(
            r,
            delete_chars_row(
                g.screen[r],
                g.cursor_col as int,
                edit_count(g, n),
                width_at_cursor(g),
                blank_model(g.pen.bg),
            ),
        ),
        dirty: g.dirty.update(r, true),
        ..g
    }
}

/// Insert characters (CSI @ / ICH) on the cursor's row.
pub open spec fn chars_inserted(g: GridModel, n: nat) -> GridModel {
    let r = g.cursor_row as int;
    GridModel {
        screen: g.screen.update(
            r,
            insert_chars_row(
                g.screen[r],
                g.cursor_col as int,
                edit_count(g, n),
                width_at_cursor(g),
                blank_model(g.pen.bg),
            ),
        ),
        dirty: g.dirty.update(r, true),
        ..g
    }
}

/// Erase characters (CSI X / ECH) on the cursor's row.
pub open spec fn chars_erased(g: GridModel, n: nat) -> GridModel {
    let r = g.cursor_row as int;
    GridModel {
        screen: g.screen.update(
            r,
            erase_chars_row(
                g.screen[r],
                g.cursor_col as int,
                edit_count(g, n),
                width_at_cursor(g),
                blank_model(g.pen.bg),
            ),
        ),
        dirty: g.dirty.update(r, true),
        ..g
    }
}

/// Appends copies of `src[start..end]` to `out`.
fn push_cells(out: &mut Vec<Cell>, src: &Vec<Cell>, start: usize, end: usize)
    requires
        start <= end <= src@.len(),
    ensures
        final(out)@.len() == old(out)@.len() + (end - start),
        row_view(final(out)@) == row_view(old(out)@) + row_view(src@).subrange(
            start as int,
            end as int,
        ),
{
    let mut i = start;
    while i < end
        invariant
            start <= i <= end <= src@.len(),
            out@.len() == old(out)@.len() + (i - start),
            row_view(out@) == row_view(old(out)@) + row_view(src@).subrange(start as int, i as int),
        decreases end - i,
    {
        let d = src[i].duplicate();
        let ghost prev = out@;
        out.push(d);
        proof {
            assert(row_view(out@) =~= row_view(prev).push(d@));
            assert(row_view(src@).subrange(start as int, i + 1) =~= row_view(src@).subrange(
                start as int,
                i as int,
            ).push(src@[i as int]@));
            assert(row_view(out@) =~= row_view(old(out)@) + row_view(src@).subrange(
                start as int,
                i + 1,
            ));
        }
        i = i + 1;
    }
}

/// Appends `n` copies of `c` to `out`.
fn push_copies(out: &mut Vec<Cell>, n: usize, c: &Cell)
    ensures
        final(out)@.len() == old(out)@.len() + n,
        row_view(final(out)@) == row_view(old(out)@) + uniform_row(n as nat, c@),
{
    let mut i: usize = 0;
    while i < n
        invariant
            0 <= i <= n,
            out@.len() == old(out)@.len() + i,
            row_view(out@) == row_view(old(out)@) + uniform_row(i as nat, c@),
        decreases n - i,
    {
        let d = c.duplicate();
        let ghost prev = out@;
        out.push(d);
        proof {
            assert(row_view(out@) =~= row_view(prev).push(d@));
            assert(row_view(out@) =~= row_view(old(out)@) + uniform_row((i + 1) as nat, c@));
        }
        i = i + 1;
    }
}

impl Grid {
    /// The width of the cell under the cursor, read the row-major way.
    fn cursor_cell_width(&self) -> (r: u8)
        requires
            self.wf(),
            char_edit_defined(self@),
        ensures
            r == width_at_cursor(self@),
    {
        if self.cursor_col < self.cols {
            self.cell(self.cursor_row, self.cursor_col).width
        } else {
            self.cell(self.cursor_row + 1, 0).width
        }
    }

    /// Sets cell `(row, col)` to `c` when `cond` holds.
    fn set_cell_if(&mut self, cond: bool, row: usize, col: usize, c: &Cell)
        requires
            old(self).wf(),
            row < old(self)@.rows,
            cond ==> col < old(self)@.cols,
        ensures
            final(self)@ == (GridModel {
                screen: if cond {
                    old(self)@.screen.update(
                        row as int,
                        old(self)@.screen[row as int].update(col as int, c@),
                    )
                } else {
                    old(self)@.screen
                },
                ..old(self)@
            }),
            final(self).wf(),
    {
        if cond {
            let d = c.duplicate();
            self.set_cell(row, col, d);
        } else {
            proof {
                assert(self@ =~= (GridModel { screen: old(self)@.screen, ..old(self)@ }));
            }
        }
    }

    /// Delete characters (CSI P / DCH)
    /// Delete n characters from cursor position and shift right characters left
    #[verifier::spinoff_prover]
    #[verifier::rlimit(80)]
    pub fn delete_chars(&mut self, n: usize)
        requires
            old(self).wf(),
            char_edit_defined(old(self)@),
        ensures
            final(self)@ == chars_deleted(old(self)@, n as nat),
            final(self).wf(),
    {
        let ghost g = self@;
        let row = self.cursor_row;
        let col = self.cursor_col;
        let cols = self.cols;
        let m = if n < cols - col {
            n
        } else {
            cols - col
        };
        let blank = self.blank_cell();
        let w0 = self.cursor_cell_width();
        let cur = self.row_copy(row);
        let out = row_with_chars_deleted(cur, col, m, w0, &blank);
        let ghost new_row = delete_chars_row(
            g.screen[row as int],
            col as int,
            edit_count(g, n as nat),
            width_at_cursor(g),
            blank_model(g.pen.bg),
        );
        proof {
            assert(m == edit_count(g, n as nat));
            assert(row_view(out@) == new_row);
        }
        self.set_row(row, out);
        self.mark_dirty(row);
        proof {
            assert(self@.screen == g.screen.update(row as int, new_row));
            assert(self@.dirty == g.dirty.update(row as int, true));
            assert(self@ =~= chars_deleted(g, n as nat));
        }
    }

    /// A copy of row `row`.
    fn row_copy(&self, row: usize) -> (r: Vec<Cell>)
        requires
            self.wf(),
            row < self@.rows,
        ensures
            row_view(r@) == self@.screen[row as int],
            r@.len() == self@.cols,
    {
        proof {
            assert(self@.screen[row as int].len() == self@.cols);
        }
        copy_row(&self.screen[row])
    }
}

/// Sets cell `idx` of a row to `c` when `cond` holds.
fn row_set_if(row: &mut Vec<Cell>, cond: bool, idx: usize, c: &Cell)
    requires
        cond ==> idx < old(row)@.len(),
    ensures
        final(row)@.len() == old(row)@.len(),
        row_view(final(row)@) == (if cond {
            row_view(old(row)@).update(idx as int, c@)
        } else {
            row_view(old(row)@)
        }),
{
    if cond {
        let d = c.duplicate();
        row.set(idx, d);
        proof {
            assert(row_view(row@) =~= row_view(old(row)@).update(idx as int, c@));
        }
    }
}

/// The row [`delete_chars_row`] gives.
fn row_with_chars_deleted(cur: Vec<Cell>, col: usize, m: usize, w0: u8, blank: &Cell) -> (out: Vec<
    Cell,
>)
    requires
        col + m <= cur@.len(),
    ensures
        out@.len() == cur@.len(),
        row_view(out@) == delete_chars_row(row_view(cur@), col as int, m as int, w0, blank@),
{
    let cols = cur.len();
    let d = Cell::empty();
    let mut cur = cur;
    let ghost row0 = row_view(cur@);
    row_set_if(&mut cur, w0 == 0 && col > 0, if col > 0 { col - 1 } else { 0 }, &d);
    let c1 = col + m < cols && col + m > 0 && cur[col + m].width == 0;
    row_set_if(&mut cur, c1, if col + m > 0 { col + m - 1 } else { 0 }, &d);
    let c2 = m > 0 && col + m < cols && cur[col + m - 1].width == 2;
    row_set_if(&mut cur, c2, col + m, &d);
    proof {
        reveal(delete_fixups);
        assert(row_view(cur@) =~= delete_fixups(row0, col as int, m as int, w0));
    }
    let mut out: Vec<Cell> = Vec::new();
    push_cells(&mut out, &cur, 0, col);
    push_cells(&mut out, &cur, col + m, cols);
    push_copies(&mut out, m, blank);
    proof {
        reveal(delete_chars_row);
        assert(row_view(out@) =~= delete_chars_row(row0, col as int, m as int, w0, blank@));
    }
    out
}

/// The row [`insert_chars_row`] gives.
fn row_with_chars_inserted(cur: Vec<Cell>, col: usize, m: usize, w0: u8, blank: &Cell) -> (out: Vec<
    Cell,
>)
    requires
        col + m <= cur@.len(),
    ensures
        out@.len() == cur@.len(),
        row_view(out@) == insert_chars_row(row_view(cur@), col as int, m as int, w0, blank@),
{
    let cols = cur.len();
    let d = Cell::empty();
    let mut cur = cur;
    let ghost row0 = row_view(cur@);
    row_set_if(&mut cur, w0 == 0 && col > 0, if col > 0 { col - 1 } else { 0 }, &d);
    let c1 = col < cols && cols - col > 1 && cur[col].width == 2;
    row_set_if(&mut cur, c1, if c1 { col + 1 } else { 0 }, &d);
    let sb = cols - m;
    let c2 = 0 < sb && sb < cols && cur[sb - 1].width == 2;
    row_set_if(&mut cur, c2, if sb > 0 { sb - 1 } else { 0 }, &d);
    proof {
        reveal(insert_fixups);
        assert(row_view(cur@) =~= insert_fixups(row0, col as int, m as int, w0));
    }
    let mut out: Vec<Cell> = Vec::new();
    push_cells(&mut out, &cur, 0, col);
    push_copies(&mut out, m, blank);
    push_cells(&mut out, &cur, col, cols - m);
    proof {
        reveal(insert_chars_row);
        assert(row_view(out@) =~= insert_chars_row(row0, col as int, m as int, w0, blank@));
    }
    out
}

/// The row [`erase_chars_row`] gives.
fn row_with_chars_erased(cur: Vec<Cell>, col: usize, m: usize, w0: u8, blank: &Cell) -> (out: Vec<
    Cell,
>)
    requires
        col + m <= cur@.len(),
    ensures
        out@.len() == cur@.len(),
        row_view(out@) == erase_chars_row(row_view(cur@), col as int, m as int, w0, blank@),
{
    let cols = cur.len();
    let mut cur = cur;
    let ghost row0 = row_view(cur@);
    row_set_if(&mut cur, w0 == 0 && col > 0, if col > 0 { col - 1 } else { 0 }, blank);
    let end = col + m;
    let c1 = end < cols && end > 0 && cur[end].width != 0 && cur[end - 1].width == 2;
    row_set_if(&mut cur, c1, end, blank);
    let mut out: Vec<Cell> = Vec::new();
    push_cells(&mut out, &cur, 0, col);
    push_copies(&mut out, m, blank);
    push_cells(&mut out, &cur, end, cols);
    proof {
        reveal(erase_chars_row);
        assert(row_view(out@) =~= erase_chars_row(row0, col as int, m as int, w0, blank@));
    }
    out
}

impl Grid {
    /// Insert characters (CSI @ / ICH)
    /// Insert n spaces at cursor position and shift right characters right
    /// Uses current SGR background color for inserted spaces
    #[verifier::spinoff_prover]
    #[verifier::rlimit(80)]
    pub fn insert_chars(&mut self, n: usize)
        requires
            old(self).wf(),
            char_edit_defined(old(self)@),
        ensures
            final(self)@ == chars_inserted(old(self)@, n as nat),
            final(self).wf(),
    {
        let ghost g = self@;
        let row = self.cursor_row;
        let col = self.cursor_col;
        let cols = self.cols;
        let m = if n < cols - col {
            n
        } else {
            cols - col
        };
        let blank = self.blank_cell();
        let w0 = self.cursor_cell_width();
        let cur = self.row_copy(row);
        let out = row_with_chars_inserted(cur, col, m, w0, &blank);
        let ghost new_row = insert_chars_row(
            g.screen[row as int],
            col as int,
            edit_count(g, n as nat),
            width_at_cursor(g),
            blank_model(g.pen.bg),
        );
        proof {
            assert(m == edit_count(g, n as nat));
            assert(row_view(out@) == new_row);
        }
        self.set_row(row, out);
        self.mark_dirty(row);
        proof {
            assert(self@.screen == g.screen.update(row as int, new_row));
            assert(self@ =~= chars_inserted(g, n as nat));
        }
    }

    /// Erase characters (CSI X / ECH)
    /// Overwrite n characters from cursor position with spaces (no shift)
    /// Uses current SGR background color per ECMA-48
    #[verifier::spinoff_prover]
    #[verifier::rlimit(80)]
    pub fn erase_chars(&mut self, n: usize)
        requires
            old(self).wf(),
            char_edit_defined(old(self)@),
        ensures
            final(self)@ == chars_erased(old(self)@, n as nat),
            final(self).wf(),
    {
        let ghost g = self@;
        let row = self.cursor_row;
        let col = self.cursor_col;
        let cols = self.cols;
        let m = if n < cols - col {
            n
        } else {
            cols - col
        };
        let blank = self.blank_cell();
        let w0 = self.cursor_cell_width();
        let cur = self.row_copy(row);
        let out = row_with_chars_erased(cur, col, m, w0, &blank);
        let ghost new_row = erase_chars_row(
            g.screen[row as int],
            col as int,
            edit_count(g, n as nat),
            width_at_cursor(g),
            blank_model(g.pen.bg),
        );
        proof {
            assert(m == edit_count(g, n as nat));
            assert(row_view(out@) == new_row);
        }
        self.set_row(row, out);
        self.mark_dirty(row);
        proof {
            assert(self@.screen == g.screen.update(row as int, new_row));
            assert(self@ =~= chars_erased(g, n as nat));
        }
    }
}

// ========== Character writing ==========
/// The display width the Unicode width tables give a character.
pub uninterp spec fn unicode_width(c: char) -> Option<usize>;

/// Display width of a character in columns.
///
/// Wraps `UnicodeWidthChar::width` of the `unicode-width` crate. Its source
/// returns `None` exactly for the C0 and C1 control codes (below U+0020
/// and U+007F to U+009F), 1 for the other ASCII characters, and otherwise
/// a width from its tables, which holds at most 3.
#[verifier::external_body]
fn char_display_width(c: char) -> (r: Option<usize>)
    ensures
        r == unicode_width(c),
        r is None <==> ((c as u32) < 0x20 || (0x7F <= (c as u32) < 0xA0)),
        0x20 <= (c as u32) < 0x7F ==> r == Some(1usize),
        r matches Some(w) ==> w <= 3,
{
    c.width()
}

/// The canonical composition (Unicode Normalization Form C) of a sequence
/// of characters.
pub uninterp spec fn nfc_form(s: Seq<char>) -> Seq<char>;

/// Normalization Form C of `s`.
///
/// Wraps the `nfc` iterator adapter of the `unicode-normalization` crate.
#[verifier::external_body]
fn nfc_chars(s: &Vec<char>) -> (r: Vec<char>)
    ensures
        r@ == nfc_form(s@),
{
    s.iter().copied().nfc().collect()
}

/// Zero width joiner.
pub const ZWJ: char = '\u{200D}';

/// Variation selector 16 (emoji presentation).
pub const VS16: char = '\u{FE0F}';

/// A Regional Indicator Symbol (half of a flag).
pub open spec fn is_regional_indicator(cp: u32) -> bool {
    0x1F1E6 <= cp <= 0x1F1FF
}

/// `g` with cell `(r, c)` replaced.
pub open spec fn cell_set(g: GridModel, r: int, c: int, cell: CellModel) -> GridModel {
    GridModel { screen: g.screen.update(r, g.screen[r].update(c, cell)), ..g }
}

/// The cell before the cursor in row-major order: the previous column, the
/// last column of the previous row at the left edge, and, past the right
/// edge, the cell the row-major layout puts there (on the next row).
pub open spec fn prev_cell(g: GridModel) -> Option<(int, int)> {
    if g.cursor_col == 0 {
        if g.cursor_row > 0 {
            Some((g.cursor_row - 1, g.cols - 1))
        } else {
            None
        }
    } else if g.cursor_col - 1 < g.cols {
        Some((g.cursor_row as int, g.cursor_col - 1))
    } else {
        Some((g.cursor_row + 1int, g.cursor_col - 1 - g.cols))
    }
}

/// The cell before the cursor, when there is one, lies on the screen.
pub open spec fn prev_cell_on_screen(g: GridModel) -> bool {
    match prev_cell(g) {
        Some((r, c)) => 0 <= r < g.rows && 0 <= c < g.cols,
        None => true,
    }
}

/// The cell a combining character joins: the one before the cursor, or
/// the head of the wide character whose second half it is.
pub open spec fn combine_target(g: GridModel) -> Option<(int, int)> {
    match prev_cell(g) {
        Some((r, c)) => if g.screen[r][c].width == 0 && c > 0 {
            Some((r, c - 1))
        } else {
            Some((r, c))
        },
        None => None,
    }
}

/// The head of the wide character column `c` belongs to: moving left over
/// second halves (width 0).
pub open spec fn head_col(row: Seq<CellModel>, c: int) -> int
    decreases c,
{
    if c > 0 && row[c].width == 0 {
        head_col(row, c - 1)
    } else {
        c
    }
}

/// A cell that holds nothing to combine with.
pub open spec fn is_blank_grapheme(g: Seq<char>) -> bool {
    g.len() == 0 || g == seq![' ']
}

/// A zero width joiner or variation selector (or an emoji following a
/// joiner) appended to the grapheme before the cursor, which is marked as
/// emoji when the appended character is one; nothing when there is no
/// such grapheme.
pub open spec fn grapheme_extended(g: GridModel, ch: char) -> GridModel {
    match combine_target(g) {
        Some((r, c)) => {
            let cell = g.screen[r][c];
            if is_blank_grapheme(cell.grapheme) {
                g
            } else {
                cell_set(
                    g,
                    r,
                    c,
                    CellModel {
                        grapheme: cell.grapheme.push(ch),
                        attrs: if spec_is_emoji(ch as u32) {
                            cell.attrs | ATTR_IS_EMOJI
                        } else {
                            cell.attrs
                        },
                        ..cell
                    },
                )
            }
        },
        None => g,
    }
}

/// A combining mark joined to the grapheme before the cursor, the result
/// put in Normalization Form C.
pub open spec fn mark_combined(g: GridModel, ch: char) -> GridModel {
    match combine_target(g) {
        Some((r, c)) => {
            let cell = g.screen[r][c];
            if is_blank_grapheme(cell.grapheme) {
                g
            } else {
                cell_set(
                    g,
                    r,
                    c,
                    CellModel { grapheme: nfc_form(cell.grapheme.push(ch)), ..cell },
                )
            }
        },
        None => g,
    }
}

/// Where a regional indicator looks for its partner.
pub open spec fn flag_target(g: GridModel) -> Option<(int, int)> {
    match prev_cell(g) {
        Some((r, c)) => Some((r, head_col(g.screen[r], c))),
        None => None,
    }
}

/// The character before the cursor is a lone regional indicator.
pub open spec fn flag_half_before(g: GridModel) -> bool {
    match flag_target(g) {
        Some((r, c)) => {
            let gr = g.screen[r][c].grapheme;
            gr.len() == 1 && is_regional_indicator(gr[0] as u32)
        },
        None => false,
    }
}

/// The second regional indicator of a flag joined to the first.
pub open spec fn flag_completed(g: GridModel, ch: char) -> GridModel {
    match flag_target(g) {
        Some((r, c)) => {
            let cell = g.screen[r][c];
            cell_set(g, r, c, CellModel { grapheme: cell.grapheme.push(ch), ..cell })
        },
        None => g,
    }
}

/// Cursor to the start of the next line, scrolling the scroll region up
/// when it was on the last row.
pub open spec fn wrapped_to_next_line(g: GridModel) -> GridModel {
    if g.cursor_row + 1 >= g.rows {
        GridModel {
            cursor_row: (g.rows - 1) as nat,
            ..scrolled_up(GridModel { cursor_col: 0, ..g }, 1)
        }
    } else {
        GridModel { cursor_row: g.cursor_row + 1, cursor_col: 0, ..g }
    }
}

/// Overwriting one half of a wide character empties its other half.
pub open spec fn wide_cleared(g: GridModel, r: int, c: int) -> GridModel {
    let w = g.screen[r][c].width;
    if w == 2 && c + 1 < g.cols {
        cell_set(g, r, c + 1, default_model())
    } else if w == 0 && c > 0 {
        cell_set(g, r, c - 1, default_model())
    } else {
        g
    }
}

/// The cell a character of width `w` is written as, with the pen's
/// attributes and the current hyperlink.
pub open spec fn written_cell(g: GridModel, ch: char, w: nat) -> CellModel {
    CellModel {
        grapheme: seq![ch],
        fg: g.pen.fg,
        bg: g.pen.bg,
        attrs: if spec_is_emoji(ch as u32) {
            g.pen.attrs.bits | ATTR_IS_EMOJI
        } else {
            g.pen.attrs.bits
        },
        width: w as u8,
        hyperlink: g.hyperlink,
        underline_style: g.pen.underline_style,
        underline_color: g.pen.underline_color,
    }
}

/// The second half of a wide character written with `ch`'s attributes.
pub open spec fn continuation_cell(g: GridModel, ch: char) -> CellModel {
    CellModel { grapheme: seq![], width: 0, ..written_cell(g, ch, 2) }
}

/// The cursor made ready for a character of width `w`: past the right edge
/// it wraps to the next line (or stays in the last column without
/// auto-wrap); a wide character that would not fit leaves an empty cell and
/// goes to the next line.
pub open spec fn cursor_prepared(g: GridModel, w: nat) -> GridModel {
    let g3 = if g.cursor_col >= g.cols {
        if g.modes.auto_wrap {
            wrapped_to_next_line(g)
        } else {
            GridModel { cursor_col: (g.cols - 1) as nat, ..g }
        }
    } else {
        g
    };
    if w == 2 && g3.cursor_col + 1 >= g3.cols {
        let r = g3.cursor_row as int;
        let c = g3.cursor_col as int;
        wrapped_to_next_line(cell_set(wide_cleared(g3, r, c), r, c, default_model()))
    } else {
        g3
    }
}

/// The cells of a character of width `w` written at the cursor: the
/// character's cell and, for a wide character that fits, its second half;
/// halves of wide characters they overwrite are emptied.
pub open spec fn char_cells_written(g: GridModel, ch: char, w: nat) -> GridModel {
    let r = g.cursor_row as int;
    let c = g.cursor_col as int;
    let g6 = cell_set(wide_cleared(g, r, c), r, c, written_cell(g, ch, w));
    if w == 2 && c + 1 < g6.cols {
        cell_set(wide_cleared(g6, r, c + 1), r, c + 1, continuation_cell(g, ch))
    } else {
        g6
    }
}

/// A character of width `w` (at least 1) written at the cursor: the
/// cursor is prepared, the cells written, images under them dropped, and
/// the cursor advances by `w`.
pub open spec fn char_placed(g: GridModel, ch: char, w: nat) -> GridModel {
    let g4 = cursor_prepared(g, w);
    let r = g4.cursor_row as int;
    let c = g4.cursor_col as int;
    let g7 = char_cells_written(g4, ch, w);
    GridModel {
        placements: apply_rule_all(
            PlacementRule::OffCells(r as usize, c as usize, w as usize),
            g7.placements,
        ),
        cursor_col: (c + w) as nat,
        last_char: ch,
        dirty: g7.dirty.update(r, true),
        ..g7
    }
}

/// Writing a character (print): joiners and variation selectors extend the
/// grapheme before the cursor, an emoji after a joiner joins it, a second
/// regional indicator completes a flag, characters of width 0 combine with
/// the grapheme before the cursor, control characters are ignored, and
/// other characters are placed with their width (2 for the emoji blocks).
pub open spec fn after_put_char(g: GridModel, ch: char) -> GridModel {
    let cp = ch as u32;
    if ch == ZWJ {
        GridModel { in_zwj_sequence: true, ..grapheme_extended(g, ch) }
    } else if ch == VS16 {
        grapheme_extended(g, ch)
    } else {
        let g1 = GridModel { in_zwj_sequence: false, ..g };
        if g.in_zwj_sequence && spec_is_emoji(cp) {
            grapheme_extended(g1, ch)
        } else if is_regional_indicator(cp) && flag_half_before(g1) {
            flag_completed(g1, ch)
        } else if spec_is_emoji(cp) {
            char_placed(g1, ch, 2)
        } else {
            match unicode_width(ch) {
                None => g1,
                Some(w) => if w == 0 {
                    mark_combined(g1, ch)
                } else {
                    char_placed(g1, ch, w as nat)
                },
            }
        }
    }
}

/// Writing `ch` reads the cell before the cursor.
pub open spec fn reads_previous(g: GridModel, ch: char) -> bool {
    let cp = ch as u32;
    ch == ZWJ || ch == VS16 || (g.in_zwj_sequence && spec_is_emoji(cp)) || is_regional_indicator(cp)
        || (!spec_is_emoji(cp) && unicode_width(ch) == Some(0usize))
}

/// Writing `ch` at the cursor is defined: the cell it may read before the
/// cursor lies on the screen.
pub open spec fn put_char_defined(g: GridModel, ch: char) -> bool {
    reads_previous(g, ch) ==> prev_cell_on_screen(g)
}

/// Whether a grapheme is empty or a single space.
fn grapheme_is_blank(g: &Vec<char>) -> (r: bool)
    ensures
        r == is_blank_grapheme(g@),
{
    if g.len() == 0 {
        return true;
    }
    let r = g.len() == 1 && g[0] == ' ';
    proof {
        if g@.len() == 1 && g@[0] == ' ' {
            assert(g@ =~= seq![' ']);
        }
    }
    r
}

impl Grid {
    fn set_in_zwj(&mut self, v: bool)
        requires
            old(self).wf(),
        ensures
            final(self)@ == (GridModel { in_zwj_sequence: v, ..old(self)@ }),
            final(self).wf(),
    {
        self.in_zwj_sequence = v;
        proof {
            assert(self@ =~= (GridModel { in_zwj_sequence: v, ..old(self)@ }));
        }
    }

    /// The cell before the cursor in row-major order.
    fn prev_position(&self) -> (r: Option<(usize, usize)>)
        requires
            self.wf(),
            prev_cell_on_screen(self@),
        ensures
            match prev_cell(self@) {
                Some((a, b)) => r == Some((a as usize, b as usize)),
                None => r is None,
            },
    {
        if self.cursor_col == 0 {
            if self.cursor_row > 0 {
                Some((self.cursor_row - 1, self.cols - 1))
            } else {
                None
            }
        } else if self.cursor_col - 1 < self.cols {
            Some((self.cursor_row, self.cursor_col - 1))
        } else {
            Some((self.cursor_row + 1, self.cursor_col - 1 - self.cols))
        }
    }

    /// The cell a combining character joins.
    fn combine_position(&self) -> (r: Option<(usize, usize)>)
        requires
            self.wf(),
            prev_cell_on_screen(self@),
        ensures
            match combine_target(self@) {
                Some((a, b)) => r == Some((a as usize, b as usize)) && 0 <= a < self@.rows && 0
                    <= b < self@.cols,
                None => r is None,
            },
    {
        match self.prev_position() {
            Some((row, col)) => {
                if self.cell(row, col).width == 0 && col > 0 {
                    Some((row, col - 1))
                } else {
                    Some((row, col))
                }
            },
            None => None,
        }
    }

    /// Add ZWJ or Variation Selector to previous cell's grapheme
    fn combine_grapheme(&mut self, ch: char)
        requires
            old(self).wf(),
            prev_cell_on_screen(old(self)@),
        ensures
            final(self)@ == grapheme_extended(old(self)@, ch),
            final(self).wf(),
    {
        if let Some((row, col)) = self.combine_position() {
            let cell = self.cell(row, col);
            if grapheme_is_blank(&cell.grapheme) {
                return ;
            }
            let mut newc = cell.duplicate();
            newc.grapheme.push(ch);
            if is_emoji_codepoint(ch as u32) {
                newc.attrs.insert(CellAttrs { bits: ATTR_IS_EMOJI });
            }
            self.set_cell(row, col, newc);
        }
    }

    /// Combine combining character (dakuten, handakuten, etc.) with previous
    /// cell using NFC normalization
    fn combine_with_previous(&mut self, ch: char)
        requires
            old(self).wf(),
            prev_cell_on_screen(old(self)@),
        ensures
            final(self)@ == mark_combined(old(self)@, ch),
            final(self).wf(),
    {
        if let Some((row, col)) = self.combine_position() {
            let cell = self.cell(row, col);
            if grapheme_is_blank(&cell.grapheme) {
                return ;
            }
            let mut combined = cell.grapheme.clone();
            combined.push(ch);
            let normalized = nfc_chars(&combined);
            let mut newc = cell.duplicate();
            newc.grapheme = normalized;
            self.set_cell(row, col, newc);
        }
    }

    /// Find head cell of wide character (skip continuation cells with width=0)
    fn find_wide_char_head(&self, row: usize, col: usize) -> (r: usize)
        requires
            self.wf(),
            row < self@.rows,
            col < self@.cols,
        ensures
            r == head_col(self@.screen[row as int], col as int),
            r <= col,
    {
        let mut c = col;
        while c > 0 && self.cell(row, c).width == 0
            invariant
                self.wf(),
                row < self@.rows,
                c <= col < self@.cols,
                head_col(self@.screen[row as int], c as int) == head_col(
                    self@.screen[row as int],
                    col as int,
                ),
            decreases c,
        {
            c = c - 1;
        }
        c
    }

    /// Merge Regional Indicator with previous RI to form flag
    fn try_merge_regional_indicator(&mut self, ch: char) -> (merged: bool)
        requires
            old(self).wf(),
            prev_cell_on_screen(old(self)@),
        ensures
            merged == flag_half_before(old(self)@),
            merged ==> final(self)@ == flag_completed(old(self)@, ch),
            !merged ==> final(self)@ == old(self)@,
            final(self).wf(),
    {
        let (row, col) = match self.prev_position() {
            Some(p) => p,
            None => {
                return false;
            },
        };
        let col = self.find_wide_char_head(row, col);
        let cell = self.cell(row, col);
        if cell.grapheme.len() != 1 {
            return false;
        }
        let prev_cp = cell.grapheme[0] as u32;
        if !(0x1F1E6 <= prev_cp && prev_cp <= 0x1F1FF) {
            return false;
        }
        let mut newc = cell.duplicate();
        newc.grapheme.push(ch);
        self.set_cell(row, col, newc);
        true
    }

    /// Clear paired cell when overwriting partial cell of wide character
    fn clear_wide_char_at(&mut self, row: usize, col: usize)
        requires
            old(self).wf(),
            row < old(self)@.rows,
            col < old(self)@.cols,
        ensures
            final(self)@ == wide_cleared(old(self)@, row as int, col as int),
            final(self).wf(),
    {
        let w = self.cell(row, col).width;
        if w == 2 {
            if col + 1 < self.cols {
                self.set_cell(row, col + 1, Cell::empty());
            }
        } else if w == 0 {
            if col > 0 {
                self.set_cell(row, col - 1, Cell::empty());
            }
        }
    }

    /// Cursor to the start of the next line, scrolling at the bottom.
    fn wrap_to_next_line(&mut self)
        requires
            old(self).wf(),
        ensures
            final(self)@ == wrapped_to_next_line(old(self)@),
            final(self).wf(),
    {
        if self.cursor_row + 1 >= self.rows {
            self.set_cursor_col(0);
            self.scroll_up(1);
            let last = self.rows - 1;
            self.set_cursor_row(last);
        } else {
            let r = self.cursor_row + 1;
            self.set_cursor_col(0);
            self.set_cursor_row(r);
        }
    }

    /// The cell a character of width `w` is written as.
    fn make_written_cell(&self, ch: char, w: usize) -> (r: Cell)
        requires
            w <= 3,
        ensures
            r@ == written_cell(self@, ch, w as nat),
    {
        let mut g: Vec<char> = Vec::new();
        g.push(ch);
        let mut attrs = self.pen.attrs;
        if is_emoji_codepoint(ch as u32) {
            attrs.insert(CellAttrs { bits: ATTR_IS_EMOJI });
        }
        let r = Cell {
            grapheme: g,
            fg: self.pen.fg,
            bg: self.pen.bg,
            attrs,
            width: w as u8,
            hyperlink: duplicate_link(&self.current_hyperlink),
            underline_style: self.pen.underline_style,
            underline_color: self.pen.underline_color,
        };
        proof {
            assert(r.grapheme@ =~= seq![ch]);
        }
        r
    }

    /// Records the written character, advances the cursor and updates
    /// images and dirty flags.
    fn finish_char(&mut self, r: usize, c: usize, w: usize, ch: char)
        requires
            old(self).wf(),
            r < old(self)@.rows,
            c < old(self)@.cols,
            1 <= w <= 3,
        ensures
            final(self)@ == (GridModel {
                placements: apply_rule_all(PlacementRule::OffCells(r, c, w), old(self)@.placements),
                cursor_col: (c + w) as nat,
                last_char: ch,
                dirty: old(self)@.dirty.update(r as int, true),
                ..old(self)@
            }),
            final(self).wf(),
    {
        self.remove_images_at_cell(r, c, w);
        self.cursor_col = c + w;
        self.last_char = ch;
        self.mark_dirty(r);
        proof {
            assert(self@ =~= (GridModel {
                placements: apply_rule_all(PlacementRule::OffCells(r, c, w), old(self)@.placements),
                cursor_col: (c + w) as nat,
                last_char: ch,
                dirty: old(self)@.dirty.update(r as int, true),
                ..old(self)@
            }));
        }
    }

    /// Makes the cursor ready for a character of width `w`.
    fn prepare_cursor(&mut self, w: usize)
        requires
            old(self).wf(),
        ensures
            final(self)@ == cursor_prepared(old(self)@, w as nat),
            final(self).wf(),
            final(self)@.cursor_col < final(self)@.cols,
    {
        if self.cursor_col >= self.cols {
            if self.modes.auto_wrap {
                self.wrap_to_next_line();
            } else {
                let last = self.cols - 1;
                self.set_cursor_col(last);
            }
        }
        if w == 2 && self.cursor_col + 1 >= self.cols {
            let r = self.cursor_row;
            let c = self.cursor_col;
            self.clear_wide_char_at(r, c);
            self.set_cell(r, c, Cell::empty());
            self.wrap_to_next_line();
        }
    }

    /// Writes the cells of a character of width `w` at the cursor.
    fn write_char_cells(&mut self, ch: char, w: usize)
        requires
            old(self).wf(),
            old(self)@.cursor_col < old(self)@.cols,
            1 <= w <= 3,
        ensures
            final(self)@ == char_cells_written(old(self)@, ch, w as nat),
            final(self).wf(),
    {
        let ghost g = self@;
        let r = self.cursor_row;
        let c = self.cursor_col;
        let cell = self.make_written_cell(ch, w);
        let mut cont = self.make_written_cell(ch, 2);
        cont.grapheme = Vec::new();
        cont.width = 0;
        proof {
            assert(cont@ == continuation_cell(g, ch)) by {
                assert(cont.grapheme@ =~= Seq::<char>::empty());
            }
        }
        self.clear_wide_char_at(r, c);
        self.set_cell(r, c, cell);
        if w == 2 && c + 1 < self.cols {
            self.clear_wide_char_at(r, c + 1);
            self.set_cell(r, c + 1, cont);
        }
    }

    /// Writes a character of width `w` at the cursor, as [`char_placed`] says.
    fn place_char(&mut self, ch: char, w: usize)
        requires
            old(self).wf(),
            1 <= w <= 3,
        ensures
            final(self)@ == char_placed(old(self)@, ch, w as nat),
            final(self).wf(),
    {
        self.prepare_cursor(w);
        let r = self.cursor_row;
        let c = self.cursor_col;
        self.write_char_cells(ch, w);
        self.finish_char(r, c, w, ch);
    }

    /// Write character at cursor position and advance cursor
    #[verifier::spinoff_prover]
    pub fn put_char(&mut self, ch: char)
        requires
            old(self).wf(),
            put_char_defined(old(self)@, ch),
        ensures
            final(self)@ == after_put_char(old(self)@, ch),
            final(self).wf(),
    {
        if ch == '\u{200D}' {
            self.combine_grapheme(ch);
            self.set_in_zwj(true);
            return ;
        }
        if ch == '\u{FE0F}' {
            self.combine_grapheme(ch);
            return ;
        }
        let was_zwj = self.in_zwj_sequence;
        self.set_in_zwj(false);
        let cp = ch as u32;
        if was_zwj && is_emoji_codepoint(cp) {
            self.combine_grapheme(ch);
            return ;
        }
        if 0x1F1E6 <= cp && cp <= 0x1F1FF {
            if self.try_merge_regional_indicator(ch) {
                return ;
            }
        }
        let char_width = if is_emoji_codepoint(cp) {
            2
        } else {
            match char_display_width(ch) {
                None => {
                    return ;
                },
                Some(w) => {
                    if w == 0 {
                        self.combine_with_previous(ch);
                        return ;
                    }
                    w
                },
            }
        };
        self.place_char(ch, char_width);
    }
}

// ========== Repeat, alternate screen, images, resize ==========
/// `ch` written `n` times.
pub open spec fn put_char_times(g: GridModel, ch: char, n: nat) -> GridModel
    decreases n,
{
    if n == 0 {
        g
    } else {
        after_put_char(put_char_times(g, ch, (n - 1) as nat), ch)
    }
}

/// Every one of `n` writes of the last character is defined.
pub open spec fn repeat_defined(g: GridModel, n: nat) -> bool {
    forall|k: nat| k < n ==> #[trigger] put_char_defined(put_char_times(g, g.last_char, k), g.last_char)
}

proof fn lemma_after_put_char_keeps(g: GridModel, ch: char)
    requires
        g.wf(),
    ensures
        after_put_char(g, ch).last_char == g.last_char || after_put_char(g, ch).last_char == ch,
{
}

/// The main screen saved and a blank alternate screen shown, with the
/// cursor home, a fresh pen, the full scroll region and no images; nothing
/// happens when the alternate screen is already shown.
pub open spec fn entered_alternate(g: GridModel) -> GridModel {
    if g.alternate is Some {
        g
    } else {
        GridModel {
            alternate: Some(
                SavedScreen {
                    screen: g.screen,
                    cursor_row: g.cursor_row,
                    cursor_col: g.cursor_col,
                    pen: g.pen,
                    scroll_top: g.scroll_top,
                    scroll_bottom: g.scroll_bottom,
                },
            ),
            screen: blank_screen(g.cols, g.rows),
            cursor_row: 0,
            cursor_col: 0,
            pen: default_pen(),
            scroll_top: 0,
            scroll_bottom: (g.rows - 1) as nat,
            placements: seq![],
            all_dirty: true,
            dirty: Seq::new(g.rows, |r: int| true),
            ..g
        }
    }
}

/// The saved main screen shown again with its cursor, pen and scroll
/// region, without images; nothing happens on the main screen.
pub open spec fn left_alternate(g: GridModel) -> GridModel {
    match g.alternate {
        Some(saved) => GridModel {
            screen: saved.screen,
            cursor_row: saved.cursor_row,
            cursor_col: saved.cursor_col,
            pen: saved.pen,
            scroll_top: saved.scroll_top,
            scroll_bottom: saved.scroll_bottom,
            alternate: None,
            placements: seq![],
            all_dirty: true,
            dirty: Seq::new(g.rows, |r: int| true),
            ..g
        },
        None => g,
    }
}

/// Switching to the alternate screen and back restores the main screen's
/// cells, cursor, pen and scroll region.
pub proof fn lemma_alternate_round_trip(g: GridModel)
    requires
        g.wf(),
        g.alternate is None,
    ensures
        left_alternate(entered_alternate(g)).screen == g.screen,
        left_alternate(entered_alternate(g)).cursor_row == g.cursor_row,
        left_alternate(entered_alternate(g)).cursor_col == g.cursor_col,
        left_alternate(entered_alternate(g)).pen == g.pen,
        left_alternate(entered_alternate(g)).scroll_top == g.scroll_top,
        left_alternate(entered_alternate(g)).scroll_bottom == g.scroll_bottom,
        left_alternate(entered_alternate(g)).alternate is None,
{
}

/// Cells needed to cover `pixels` with cells `cell` pixels wide, rounding up.
pub open spec fn cells_for(pixels: u32, cell: u32) -> int {
    (pixels + cell - 1) / (cell as int)
}

/// The cursor one line down, scrolling the scroll region at the bottom.
pub open spec fn down_one_scrolling(g: GridModel) -> GridModel {
    if g.cursor_row + 1 >= g.rows {
        GridModel { cursor_row: (g.rows - 1) as nat, ..scrolled_up(g, 1) }
    } else {
        GridModel { cursor_row: g.cursor_row + 1, ..g }
    }
}

/// The cursor `k` lines down, scrolling as needed.
pub open spec fn down_scrolling(g: GridModel, k: nat) -> GridModel
    decreases k,
{
    if k == 0 {
        g
    } else {
        down_one_scrolling(down_scrolling(g, (k - 1) as nat))
    }
}

/// An image placed at the cursor, covering the cells its pixels need; the
/// cursor then moves below it to the start of the line (scrolling as
/// needed) unless asked to stay. Nothing happens while the cell size is
/// unknown (zero).
pub open spec fn image_placed(
    g: GridModel,
    id: u32,
    pixel_width: u32,
    pixel_height: u32,
    cell_width: u32,
    cell_height: u32,
    no_cursor_move: bool,
) -> GridModel {
    if cell_width == 0 || cell_height == 0 {
        g
    } else {
        let h = cells_for(pixel_height, cell_height) as usize;
        let p = ImagePlacement {
            id,
            row: g.cursor_row as usize,
            col: g.cursor_col as usize,
            width_cells: cells_for(pixel_width, cell_width) as usize,
            height_cells: h,
            pixel_width,
            pixel_height,
        };
        let g1 = GridModel { placements: g.placements.push(p), ..g };
        if no_cursor_move {
            g1
        } else {
            GridModel { cursor_col: 0, ..down_scrolling(g1, h as nat) }
        }
    }
}

/// The screen cut or extended to `cols` by `rows` cells, keeping the cells
/// of the common area and filling the rest with empty cells.
pub open spec fn resized_screen(s: Seq<Seq<CellModel>>, old_cols: nat, cols: nat, rows: nat) -> Seq<
    Seq<CellModel>,
> {
    Seq::new(
        rows,
        |r: int|
            Seq::new(
                cols,
                |c: int|
                    if r < s.len() && c < old_cols {
                        s[r][c]
                    } else {
                        default_model()
                    },
            ),
    )
}

/// The grid at a new size: the common area of the screen kept, the cursor
/// and any saved cursor clamped to it, the scroll region reset to the whole
/// screen, images dropped and everything redrawn. The saved main screen of
/// the alternate screen is resized the same way, so that returning to it
/// finds a screen of the current size.
pub open spec fn resized(g: GridModel, cols: nat, rows: nat) -> GridModel {
    if cols == g.cols && rows == g.rows {
        g
    } else {
        GridModel {
            screen: resized_screen(g.screen, g.cols, cols, rows),
            cols,
            rows,
            cursor_row: min_int(g.cursor_row as int, rows - 1) as nat,
            cursor_col: min_int(g.cursor_col as int, cols - 1) as nat,
            scroll_top: 0,
            scroll_bottom: (rows - 1) as nat,
            placements: seq![],
            alternate: match g.alternate {
                Some(saved) => Some(
                    SavedScreen {
                        screen: resized_screen(saved.screen, g.cols, cols, rows),
                        cursor_row: min_int(saved.cursor_row as int, rows - 1) as nat,
                        cursor_col: min_int(saved.cursor_col as int, cols - 1) as nat,
                        scroll_top: min_int(saved.scroll_top as int, rows - 1) as nat,
                        scroll_bottom: min_int(saved.scroll_bottom as int, rows - 1) as nat,
                        pen: saved.pen,
                    },
                ),
                None => None,
            },
            all_dirty: true,
            dirty: Seq::new(rows, |r: int| true),
            ..g
        }
    }
}

/// A copy of every row.
fn copy_rows(src: &Vec<Vec<Cell>>) -> (r: Vec<Vec<Cell>>)
    ensures
        r@.len() == src@.len(),
        rows_view(r@) == rows_view(src@),
{
    let mut r: Vec<Vec<Cell>> = Vec::new();
    let mut i: usize = 0;
    while i < src.len()
        invariant
            0 <= i <= src.len(),
            r@.len() == i,
            rows_view(r@) == rows_view(src@).subrange(0, i as int),
        decreases src.len() - i,
    {
        let row = copy_row(&src[i]);
        let ghost prev = r@;
        r.push(row);
        proof {
            lemma_rows_view_push(prev, row);
            assert(rows_view(r@) =~= rows_view(src@).subrange(0, i + 1));
        }
        i = i + 1;
    }
    proof {
        assert(rows_view(src@).subrange(0, src@.len() as int) =~= rows_view(src@));
    }
    r
}

/// `src` cut or extended to `cols` by `rows` cells.
fn resize_rows(src: &Vec<Vec<Cell>>, old_cols: usize, cols: usize, rows: usize) -> (r: Vec<
    Vec<Cell>,
>)
    requires
        rows_have_width(rows_view(src@), old_cols as nat),
    ensures
        r@.len() == rows,
        rows_view(r@) == resized_screen(rows_view(src@), old_cols as nat, cols as nat, rows as nat),
{
    let empty = Cell::empty();
    let keep_cols = if old_cols < cols {
        old_cols
    } else {
        cols
    };
    let mut r: Vec<Vec<Cell>> = Vec::new();
    let mut i: usize = 0;
    let ghost target = resized_screen(rows_view(src@), old_cols as nat, cols as nat, rows as nat);
    while i < rows
        invariant
            0 <= i <= rows,
            r@.len() == i,
            rows_have_width(rows_view(src@), old_cols as nat),
            empty@ == default_model(),
            keep_cols == min_int(old_cols as int, cols as int),
            target == resized_screen(rows_view(src@), old_cols as nat, cols as nat, rows as nat),
            rows_view(r@) == target.subrange(0, i as int),
        decreases rows - i,
    {
        let mut row: Vec<Cell> = Vec::new();
        if i < src.len() {
            proof {
                assert(rows_view(src@)[i as int].len() == old_cols);
            }
            push_cells(&mut row, &src[i], 0, keep_cols);
            push_copies(&mut row, cols - keep_cols, &empty);
        } else {
            push_copies(&mut row, cols, &empty);
        }
        proof {
            assert(row_view(row@) =~= target[i as int]);
        }
        let ghost prev = r@;
        r.push(row);
        proof {
            lemma_rows_view_push(prev, row);
            assert(rows_view(r@) =~= target.subrange(0, i + 1));
        }
        i = i + 1;
    }
    proof {
        assert(target.subrange(0, rows as int) =~= target);
    }
    r
}

impl Grid {
    /// Repeat last character (CSI b / REP)
    pub fn repeat_char(&mut self, n: usize)
        requires
            old(self).wf(),
            repeat_defined(old(self)@, n as nat),
        ensures
            final(self)@ == put_char_times(old(self)@, old(self)@.last_char, n as nat),
            final(self).wf(),
    {
        let ch = self.last_char;
        let ghost g = self@;
        let mut i: usize = 0;
        while i < n
            invariant
                0 <= i <= n,
                self.wf(),
                ch == g.last_char,
                repeat_defined(g, n as nat),
                self@ == put_char_times(g, ch, i as nat),
            decreases n - i,
        {
            proof {
                assert(put_char_defined(put_char_times(g, g.last_char, i as nat), g.last_char));
            }
            self.put_char(ch);
            i = i + 1;
        }
    }

    /// Switch to alternate screen buffer (?1049 set)
    pub fn enter_alternate_screen(&mut self)
        requires
            old(self).wf(),
        ensures
            final(self)@ == entered_alternate(old(self)@),
            final(self).wf(),
    {
        if self.alternate_screen.is_some() {
            return ;
        }
        let saved = AlternateScreen {
            cells: copy_rows(&self.screen),
            cursor_row: self.cursor_row,
            cursor_col: self.cursor_col,
            pen: self.pen,
            scroll_top: self.scroll_top,
            scroll_bottom: self.scroll_bottom,
        };
        self.alternate_screen = Some(saved);
        self.screen = screen_of(self.cols, self.rows);
        self.cursor_row = 0;
        self.cursor_col = 0;
        self.pen = Pen::default();
        self.scroll_top = 0;
        self.scroll_bottom = self.rows - 1;
        self.image_placements = Vec::new();
        self.all_dirty = true;
        self.dirty_rows = flags_of(self.rows, true);
        proof {
            assert(self@ =~= entered_alternate(old(self)@));
        }
    }

    /// Return to main screen buffer (?1049 reset)
    pub fn leave_alternate_screen(&mut self)
        requires
            old(self).wf(),
        ensures
            final(self)@ == left_alternate(old(self)@),
            final(self).wf(),
    {
        if let Some(saved) = self.alternate_screen.take() {
            self.screen = saved.cells;
            self.cursor_row = saved.cursor_row;
            self.cursor_col = saved.cursor_col;
            self.pen = saved.pen;
            self.scroll_top = saved.scroll_top;
            self.scroll_bottom = saved.scroll_bottom;
            self.image_placements = Vec::new();
            self.all_dirty = true;
            self.dirty_rows = flags_of(self.rows, true);
            proof {
                assert(self@ =~= left_alternate(old(self)@));
            }
        }
    }

    /// Adds an image placement.
    fn push_placement(&mut self, p: ImagePlacement)
        requires
            old(self).wf(),
        ensures
            final(self)@ == (GridModel { placements: old(self)@.placements.push(p), ..old(self)@ }),
            final(self).wf(),
    {
        self.image_placements.push(p);
        proof {
            assert(self@ =~= (GridModel { placements: old(self)@.placements.push(p), ..old(self)@ }));
        }
    }

    /// Moves the cursor one line down, scrolling at the bottom.
    fn move_down_scrolling(&mut self)
        requires
            old(self).wf(),
        ensures
            final(self)@ == down_one_scrolling(old(self)@),
            final(self).wf(),
    {
        if self.cursor_row + 1 >= self.rows {
            self.scroll_up(1);
            let last = self.rows - 1;
            self.set_cursor_row(last);
        } else {
            let r = self.cursor_row + 1;
            self.set_cursor_row(r);
        }
    }

    /// Place image at current cursor position: the placement covers the
    /// cells its pixels need, and unless `no_cursor_move` is set the cursor
    /// moves below the image.
    pub fn place_image(
        &mut self,
        id: u32,
        pixel_width: u32,
        pixel_height: u32,
        cell_width: u32,
        cell_height: u32,
        no_cursor_move: bool,
    )
        requires
            old(self).wf(),
        ensures
            final(self)@ == image_placed(
                old(self)@,
                id,
                pixel_width,
                pixel_height,
                cell_width,
                cell_height,
                no_cursor_move,
            ),
            final(self).wf(),
    {
        if cell_width == 0 || cell_height == 0 {
            return ;
        }
        let wc: u64 = (pixel_width as u64 + cell_width as u64 - 1) / (cell_width as u64);
        let hc: u64 = (pixel_height as u64 + cell_height as u64 - 1) / (cell_height as u64);
        proof {
            let pw = pixel_width as int;
            let cw = cell_width as int;
            let ph = pixel_height as int;
            let ch = cell_height as int;
            assert(wc == (pw + cw - 1) / cw);
            assert(hc == (ph + ch - 1) / ch);
            assert((pw + cw - 1) / cw <= pw + cw - 1) by (nonlinear_arith)
                requires
                    cw >= 1,
                    pw >= 0,
            ;
            assert((ph + ch - 1) / ch <= ph + ch - 1) by (nonlinear_arith)
                requires
                    ch >= 1,
                    ph >= 0,
            ;
        }
        let width_cells = wc as usize;
        let height_cells = hc as usize;
        let p = ImagePlacement {
            id,
            row: self.cursor_row,
            col: self.cursor_col,
            width_cells,
            height_cells,
            pixel_width,
            pixel_height,
        };
        proof {
            assert(width_cells == cells_for(pixel_width, cell_width) as usize);
            assert(height_cells == cells_for(pixel_height, cell_height) as usize);
        }
        self.push_placement(p);
        if no_cursor_move {
            return ;
        }
        let ghost g1 = self@;
        let mut i: usize = 0;
        while i < height_cells
            invariant
                0 <= i <= height_cells,
                height_cells == cells_for(pixel_height, cell_height) as usize,
                self.wf(),
                self@ == down_scrolling(g1, i as nat),
            decreases height_cells - i,
        {
            self.move_down_scrolling();
            i = i + 1;
        }
        self.set_cursor_col(0);
    }

    /// Resize grid, keeping the common area of the screen.
    #[verifier::spinoff_prover]
    #[verifier::rlimit(40)]
    pub fn resize(&mut self, new_cols: usize, new_rows: usize)
        requires
            old(self).wf(),
            new_cols >= 1,
            new_rows >= 1,
            new_cols + 3 <= usize::MAX,
        ensures
            final(self)@ == resized(old(self)@, new_cols as nat, new_rows as nat),
            final(self).wf(),
    {
        if new_cols == self.cols && new_rows == self.rows {
            return ;
        }
        let old_cols = self.cols;
        let new_screen = resize_rows(&self.screen, old_cols, new_cols, new_rows);
        let alt = match self.alternate_screen.take() {
            Some(saved) => Some(resize_saved(saved, old_cols, new_cols, new_rows)),
            None => None,
        };
        self.alternate_screen = alt;
        self.screen = new_screen;
        self.cols = new_cols;
        self.rows = new_rows;
        if self.cursor_row > new_rows - 1 {
            self.cursor_row = new_rows - 1;
        }
        if self.cursor_col > new_cols - 1 {
            self.cursor_col = new_cols - 1;
        }
        self.scroll_top = 0;
        self.scroll_bottom = new_rows - 1;
        self.image_placements = Vec::new();
        self.all_dirty = true;
        self.dirty_rows = flags_of(new_rows, true);
        proof {
            let target = resized(old(self)@, new_cols as nat, new_rows as nat);
            assert(rows_have_width(self@.screen, new_cols as nat));
            assert(self@ =~= target);
        }
    }
}

/// The saved main screen resized as [`resized`] says.
fn resize_saved(saved: AlternateScreen, old_cols: usize, new_cols: usize, new_rows: usize) -> (r:
    AlternateScreen)
    requires
        rows_have_width(rows_view(saved.cells@), old_cols as nat),
        new_cols >= 1,
        new_rows >= 1,
    ensures
        saved_view(Some(r)) == Some(
            SavedScreen {
                screen: resized_screen(
                    rows_view(saved.cells@),
                    old_cols as nat,
                    new_cols as nat,
                    new_rows as nat,
                ),
                cursor_row: min_int(saved.cursor_row as int, new_rows - 1) as nat,
                cursor_col: min_int(saved.cursor_col as int, new_cols - 1) as nat,
                scroll_top: min_int(saved.scroll_top as int, new_rows - 1) as nat,
                scroll_bottom: min_int(saved.scroll_bottom as int, new_rows - 1) as nat,
                pen: saved.pen,
            },
        ),
        r.cells@.len() == new_rows,
{
    AlternateScreen {
        cells: resize_rows(&saved.cells, old_cols, new_cols, new_rows),
        cursor_row: if saved.cursor_row < new_rows - 1 {
            saved.cursor_row
        } else {
            new_rows - 1
        },
        cursor_col: if saved.cursor_col < new_cols - 1 {
            saved.cursor_col
        } else {
            new_cols - 1
        },
        scroll_top: if saved.scroll_top < new_rows - 1 {
            saved.scroll_top
        } else {
            new_rows - 1
        },
        scroll_bottom: if saved.scroll_bottom < new_rows - 1 {
            saved.scroll_bottom
        } else {
            new_rows - 1
        },
        pen: saved.pen,
    }
}

// ========== Checks of what the writing operations require ==========
/// A copy of a vector of plain values.
fn copy_vec<T: Copy>(v: &Vec<T>) -> (r: Vec<T>)
    ensures
        r@ == v@,
{
    let mut r: Vec<T> = Vec::new();
    let mut i: usize = 0;
    while i < v.len()
        invariant
            0 <= i <= v@.len(),
            r@ == v@.subrange(0, i as int),
        decreases v@.len() - i,
    {
        r.push(v[i]);
        i = i + 1;
        proof {
            assert(r@ =~= v@.subrange(0, i as int));
        }
    }
    proof {
        assert(v@.subrange(0, v@.len() as int) =~= v@);
    }
    r
}

/// A copy of the scrollback.
fn copy_history(src: &std::collections::VecDeque<Vec<Cell>>) -> (r: std::collections::VecDeque<
    Vec<Cell>,
>)
    ensures
        rows_view(r@) == rows_view(src@),
{
    let mut r: std::collections::VecDeque<Vec<Cell>> = std::collections::VecDeque::new();
    let mut i: usize = 0;
    while i < src.len()
        invariant
            0 <= i <= src@.len(),
            r@.len() == i,
            rows_view(r@) == rows_view(src@).subrange(0, i as int),
        decreases src@.len() - i,
    {
        let row = copy_row(&src[i]);
        let ghost prev = r@;
        r.push_back(row);
        proof {
            lemma_rows_view_push(prev, row);
            assert(rows_view(r@) =~= rows_view(src@).subrange(0, i + 1));
        }
        i = i + 1;
    }
    proof {
        assert(rows_view(src@).subrange(0, src@.len() as int) =~= rows_view(src@));
    }
    r
}

proof fn lemma_put_char_times_step(g: GridModel, ch: char, k: nat)
    ensures
        put_char_times(g, ch, k + 1) == after_put_char(put_char_times(g, ch, k), ch),
{
}

/// Writing `ch` never reads the cell before the cursor, whatever the state.
pub open spec fn never_reads_previous(ch: char) -> bool {
    let cp = ch as u32;
    !(ch == ZWJ || ch == VS16 || spec_is_emoji(cp) || is_regional_indicator(cp) || unicode_width(ch)
        == Some(0usize))
}

impl Grid {
    /// A copy of the grid.
    fn copy(&self) -> (r: Grid)
        ensures
            r@ == self@,
    {
        let alternate_screen = match &self.alternate_screen {
            Some(a) => Some(
                AlternateScreen {
                    cells: copy_rows(&a.cells),
                    cursor_row: a.cursor_row,
                    cursor_col: a.cursor_col,
                    pen: a.pen,
                    scroll_top: a.scroll_top,
                    scroll_bottom: a.scroll_bottom,
                },
            ),
            None => None,
        };
        let r = Grid {
            screen: copy_rows(&self.screen),
            cols: self.cols,
            rows: self.rows,
            cursor_row: self.cursor_row,
            cursor_col: self.cursor_col,
            pen: self.pen,
            scrollback: copy_history(&self.scrollback),
            max_scrollback: self.max_scrollback,
            saved_cursor: self.saved_cursor,
            last_char: self.last_char,
            scroll_top: self.scroll_top,
            scroll_bottom: self.scroll_bottom,
            in_zwj_sequence: self.in_zwj_sequence,
            alternate_screen,
            bell_triggered: self.bell_triggered,
            current_hyperlink: duplicate_link(&self.current_hyperlink),
            image_placements: copy_vec(&self.image_placements),
            modes: self.modes,
            cursor: self.cursor,
            shell: self.shell,
            keyboard: KeyboardState {
                modify_other_keys: self.keyboard.modify_other_keys,
                kitty_flags: self.keyboard.kitty_flags,
                kitty_stack: copy_vec(&self.keyboard.kitty_stack),
            },
            colors: self.colors,
            dirty_rows: copy_vec(&self.dirty_rows),
            all_dirty: self.all_dirty,
        };
        proof {
            assert(saved_view(r.alternate_screen) == saved_view(self.alternate_screen));
            assert(r@ =~= self@);
        }
        r
    }

    /// Whether writing `ch` at the cursor is defined ([`put_char_defined`]).
    pub fn put_char_is_defined(&self, ch: char) -> (r: bool)
        requires
            self.wf(),
        ensures
            r == put_char_defined(self@, ch),
    {
        let cp = ch as u32;
        let emoji = is_emoji_codepoint(cp);
        let reads = ch == ZWJ || ch == VS16 || (self.in_zwj_sequence && emoji) || (0x1F1E6 <= cp
            && cp <= 0x1F1FF) || (!emoji && char_display_width(ch) == Some(0usize));
        if !reads {
            return true;
        }
        if self.cursor_col == 0 {
            true
        } else if self.cursor_col - 1 < self.cols {
            true
        } else {
            self.cursor_row + 1 < self.rows && self.cursor_col - 1 - self.cols < self.cols
        }
    }

    /// Whether `n` repetitions of the last character are all defined
    /// ([`repeat_defined`]).
    #[verifier::spinoff_prover]
    pub fn repeat_is_defined(&self, n: usize) -> (r: bool)
        requires
            self.wf(),
        ensures
            r == repeat_defined(self@, n as nat),
    {
        let ch = self.last_char;
        let cp = ch as u32;
        let ghost g0 = self@;
        if !(ch == ZWJ || ch == VS16 || is_emoji_codepoint(cp) || (0x1F1E6 <= cp && cp <= 0x1F1FF)
            || char_display_width(ch) == Some(0usize)) {
            proof {
                assert forall|k: nat| k < n implies #[trigger] put_char_defined(
                    put_char_times(g0, g0.last_char, k),
                    g0.last_char,
                ) by {
                    assert(never_reads_previous(ch));
                }
            }
            return true;
        }
        let mut g = self.copy();
        let mut i: usize = 0;
        while i < n
            invariant
                0 <= i <= n,
                g.wf(),
                g0 == self@,
                ch == g0.last_char,
                g@ == put_char_times(g0, ch, i as nat),
                forall|k: nat| k < i ==> #[trigger] put_char_defined(put_char_times(g0, ch, k), ch),
            decreases n - i,
        {
            if !g.put_char_is_defined(ch) {
                proof {
                    assert(!put_char_defined(put_char_times(g0, g0.last_char, i as nat), g0.last_char));
                    assert(!repeat_defined(g0, n as nat));
                }
                return false;
            }
            g.put_char(ch);
            proof {
                lemma_put_char_times_step(g0, ch, i as nat);
            }
            i = i + 1;
        }
        true
    }
}

} // verus!
