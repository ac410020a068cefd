//! Operating system commands (OSC): working directory, hyperlinks, colour
//! queries and changes, the clipboard, shell integration marks and
//! notifications.
//!
//! The VT parser hands over the parameters of an OSC sequence split at
//! `;`. Text fields are taken from the raw bytes of a parameter and
//! converted to strings with invalid UTF-8 replaced by U+FFFD; the
//! separators looked for (`:`, `=`, `;`, `/`) are ASCII, so splitting the
//! raw bytes and converting each field gives the same text as converting
//! first.

use std::collections::VecDeque;
use std::time::Instant;
use vstd::prelude::*;
use vstd::utf8::{decode_utf8, encode_utf8, valid_utf8};
use vstd::string::StringSliceAdditionalSpecFns;

use crate::ascii::{find_byte, find_byte_at, parse_i32_at, parse_signed, parse_unsigned, parse_unsigned_at, split_bytes, split_ranges};
use crate::terminal::codec::{b64_decode_strict, b64_encoded, base64_decode_strict, base64_encode};
use crate::terminal::grid::{link_view, DynamicColors, GridModel, Hyperlink, LinkModel, ShellState};
use crate::terminal::kitty::slice_range;
use crate::terminal::notify::{Notification, NotificationProgress};
use crate::terminal::parser::push_all;
use crate::terminal::term::{Terminal, MAX_NOTIFICATIONS};
use crate::utils::color::{hex_color, is_rgb_prefix, is_valid_utf8, rgb_color};

verus! {

// ============================================================================
// Outside calls
// ============================================================================
/// The text `String::from_utf8_lossy` makes of `b`: the decoded text of
/// well-formed UTF-8, with U+FFFD for each ill-formed part.
pub uninterp spec fn utf8_lossy(b: Seq<u8>) -> Seq<char>;

/// `String::from_utf8_lossy(b)`, owned. Its result is named by
/// `utf8_lossy`; for well-formed UTF-8 it is the decoded text, as std
/// documents ("if the bytes are valid UTF-8 they are returned as is").
#[verifier::external_body]
pub(crate) fn lossy_string(b: &[u8]) -> (r: String)
    ensures
        r@ == utf8_lossy(b@),
        valid_utf8(b@) ==> r@ == decode_utf8(b@),
{
    String::from_utf8_lossy(b).into_owned()
}

/// `std::time::Instant::now()`. Nothing is stated of the moment read.
#[verifier::external_body]
fn instant_now() -> Instant {
    Instant::now()
}

// ============================================================================
// Small helpers
// ============================================================================
/// The bytes of `params[i]`, or nothing past the end.
pub open spec fn param_bytes(params: Seq<Seq<u8>>, i: int) -> Seq<u8> {
    if 0 <= i < params.len() {
        params[i]
    } else {
        seq![]
    }
}

/// The view of a list of OSC parameters.
pub open spec fn osc_view(params: Seq<Vec<u8>>) -> Seq<Seq<u8>> {
    params.map_values(|p: Vec<u8>| p@)
}

/// Lower-case hex digit.
pub open spec fn hex_lower(n: u8) -> u8 {
    if n < 10 {
        (0x30 + n) as u8
    } else {
        (0x57 + n) as u8
    }
}

/// A byte as two lower-case hex digits.
pub open spec fn hex2(v: u8) -> Seq<u8> {
    seq![hex_lower(v / 16), hex_lower(v % 16)]
}

fn push_hex2(out: &mut Vec<u8>, v: u8)
    ensures
        final(out)@ == old(out)@ + hex2(v),
{
    let hi = v / 16;
    let lo = v % 16;
    out.push(if hi < 10 {
        0x30 + hi
    } else {
        0x57 + hi
    });
    out.push(if lo < 10 {
        0x30 + lo
    } else {
        0x57 + lo
    });
    proof {
        assert(out@ =~= old(out)@ + hex2(v));
    }
}

/// Whether `b` holds exactly the bytes `t`.
fn bytes_eq(b: &[u8], t: &[u8]) -> (r: bool)
    ensures
        r == (b@ == t@),
{
    if b.len() != t.len() {
        return false;
    }
    let mut i: usize = 0;
    while i < b.len()
        invariant
            b.len() == t.len(),
            0 <= i <= b.len(),
            forall|j: int| 0 <= j < i ==> b@[j] == t@[j],
        decreases b.len() - i,
    {
        if b[i] != t[i] {
            return false;
        }
        i = i + 1;
    }
    proof {
        assert(b@ =~= t@);
    }
    true
}

// ============================================================================
// OSC 7: working directory
// ============================================================================
/// `file://` as bytes.
pub open spec fn file_scheme() -> Seq<u8> {
    seq![0x66u8, 0x69u8, 0x6cu8, 0x65u8, 0x3au8, 0x2fu8, 0x2fu8]
}

/// The directory an OSC 7 URI `file://host/path` names: from the first
/// `/` after the host on.
pub open spec fn uri_directory(uri: Seq<u8>) -> Option<Seq<u8>> {
    if uri.len() >= 7 && uri.take(7) == file_scheme() {
        let rest = uri.skip(7);
        match find_byte(rest, 0x2f) {
            Some(i) => Some(rest.skip(i)),
            None => None,
        }
    } else {
        None
    }
}

// ============================================================================
// OSC 8: hyperlinks
// ============================================================================
/// `id=` as bytes.
pub open spec fn id_key() -> Seq<u8> {
    seq![0x69u8, 0x64u8, 0x3du8]
}

/// The first `;`-separated piece of `pieces[from..]` that starts with
/// `id=`, without that prefix.
pub open spec fn link_id_from(pieces: Seq<Seq<u8>>, from: int) -> Option<Seq<u8>>
    decreases pieces.len() - from,
{
    if from >= pieces.len() || from < 0 {
        None
    } else if pieces[from].len() >= 3 && pieces[from].take(3) == id_key() {
        Some(pieces[from].skip(3))
    } else {
        link_id_from(pieces, from + 1)
    }
}

/// The hyperlink an OSC 8 sequence sets: none when its URI is empty.
pub open spec fn osc8_link(params: Seq<Seq<u8>>) -> Option<LinkModel> {
    let uri = if params.len() > 2 {
        params[2]
    } else if params.len() > 1 {
        params[1]
    } else {
        seq![]
    };
    if uri.len() == 0 {
        None
    } else {
        Some(
            LinkModel {
                id: if params.len() > 1 {
                    match link_id_from(split_bytes(params[1], 0x3b), 0) {
                        Some(b) => Some(utf8_lossy(b)),
                        None => None,
                    }
                } else {
                    None
                },
                url: utf8_lossy(uri),
            },
        )
    }
}

// ============================================================================
// OSC 10 / 11: default colours
// ============================================================================
/// `?`: a query.
pub open spec fn is_query(b: Seq<u8>) -> bool {
    b == seq![0x3fu8]
}

/// The colour of an OSC 10/11 colour specification: `#RRGGBB`, `#RGB`
/// (one `#`) or `rgb:R/G/B`.
pub open spec fn osc_colour(d: Seq<u8>) -> Option<(u8, u8, u8)> {
    if !valid_utf8(d) {
        None
    } else if d.len() >= 1 && d[0] == 0x23 {
        hex_color(d.drop_first())
    } else if is_rgb_prefix(d) {
        rgb_color(d.skip(4))
    } else {
        None
    }
}

/// Parses an OSC 10/11 colour specification.
pub fn parse_osc_colour(data: &[u8]) -> (r: Option<(u8, u8, u8)>)
    ensures
        r == osc_colour(data@),
{
    if !is_valid_utf8(data) {
        return None;
    }
    if data.len() >= 1 && data[0] == 0x23 {
        proof {
            assert(data@.drop_first() =~= data@.subrange(1, data@.len() as int));
        }
        crate::utils::color::hex_color_at(data, 1)
    } else if data.len() >= 4 && data[0] == 0x72 && data[1] == 0x67 && data[2] == 0x62 && data[3]
        == 0x3a {
        proof {
            assert(data@.skip(4) =~= data@.subrange(4, data@.len() as int));
        }
        crate::utils::color::rgb_color_at(data, 4)
    } else {
        None
    }
}

/// The reply to a colour query `OSC n ; ?`: `ESC ] n ; rgb:RRRR/GGGG/BBBB
/// ESC \` with each component's two hex digits repeated.
pub open spec fn colour_reply(code: Seq<u8>, c: (u8, u8, u8)) -> Seq<u8> {
    seq![0x1bu8, 0x5du8] + code + seq![0x3bu8, 0x72u8, 0x67u8, 0x62u8, 0x3au8] + hex2(c.0) + hex2(
        c.0,
    ) + seq![0x2fu8] + hex2(c.1) + hex2(c.1) + seq![0x2fu8] + hex2(c.2) + hex2(c.2) + seq![
        0x1bu8,
        0x5cu8,
    ]
}

fn push_colour_reply(out: &mut Vec<u8>, code: &[u8], c: (u8, u8, u8))
    ensures
        final(out)@ == old(out)@ + colour_reply(code@, c),
{
    let ghost o = out@;
    out.push(0x1b);
    out.push(0x5d);
    push_all(out, code);
    push_all(out, &[0x3b, 0x72, 0x67, 0x62, 0x3a]);
    push_hex2(out, c.0);
    push_hex2(out, c.0);
    out.push(0x2f);
    push_hex2(out, c.1);
    push_hex2(out, c.1);
    out.push(0x2f);
    push_hex2(out, c.2);
    push_hex2(out, c.2);
    out.push(0x1b);
    out.push(0x5c);
    proof {
        assert([0x3bu8, 0x72u8, 0x67u8, 0x62u8, 0x3au8]@ =~= seq![0x3bu8, 0x72u8, 0x67u8, 0x62u8, 0x3au8]);
        assert(out@ =~= o + colour_reply(code@, c));
    }
}

// ============================================================================
// OSC 133: shell integration
// ============================================================================
/// The exit code of a `D` mark: the rest of the marker after `D` and one
/// more byte, or else the next parameter, as a decimal `i32`.
pub open spec fn exit_code_of(params: Seq<Seq<u8>>) -> Option<i32> {
    let marker = params[1];
    let parsed = if marker.len() > 1 {
        parse_signed(marker.skip(2), 0x8000_0000, 0x7fff_ffff)
    } else if params.len() > 2 && valid_utf8(params[2]) {
        parse_signed(params[2], 0x8000_0000, 0x7fff_ffff)
    } else {
        None
    };
    match parsed {
        Some(v) => Some(v as i32),
        None => None,
    }
}

/// The shell state after an OSC 133 mark at the cursor row `row`: `A`
/// starts a prompt, `C` a command, and a marker starting with `D` ends the
/// command with its exit code; other markers change nothing.
pub open spec fn shell_marked(s: ShellState, params: Seq<Seq<u8>>, row: nat) -> ShellState {
    let marker = params[1];
    if !valid_utf8(marker) {
        s
    } else if marker == seq![0x41u8] {
        ShellState { prompt_row: Some(row as usize), ..s }
    } else if marker == seq![0x43u8] {
        ShellState { command_row: Some(row as usize), ..s }
    } else if marker.len() >= 1 && marker[0] == 0x44 {
        ShellState { last_exit_code: exit_code_of(params), command_row: None, ..s }
    } else {
        s
    }
}

/// Taking the rest of a `D` marker would cut a character.
pub open spec fn exit_code_cuts_char(params: Seq<Seq<u8>>) -> bool {
    let marker = params[1];
    valid_utf8(marker) && marker.len() > 2 && marker[0] == 0x44
        && vstd::utf8::is_continuation_byte(marker[2])
}

// ============================================================================
// OSC 52: clipboard
// ============================================================================
/// The largest OSC 52 payload accepted (10 MiB).
pub const MAX_OSC52_PAYLOAD: usize = 10485760;

/// The reply to a clipboard query: `ESC ] 52 ; c ; <base64> ESC \`.
pub open spec fn clipboard_reply(text: Seq<char>) -> Seq<u8> {
    seq![0x1bu8, 0x5du8, 0x35u8, 0x32u8, 0x3bu8, 0x63u8, 0x3bu8] + b64_encoded(encode_utf8(text))
        + seq![0x1bu8, 0x5cu8]
}

/// The text an OSC 52 payload sets: its strict base64 decoding, when that
/// is UTF-8.
pub open spec fn clipboard_text(data: Seq<u8>) -> Option<Seq<char>> {
    match b64_decode_strict(data) {
        Some(d) => if valid_utf8(d) {
            Some(decode_utf8(d))
        } else {
            None
        },
        None => None,
    }
}

/// What OSC 7 does to the terminal `old`, giving `new`.
pub open spec fn cwd_outcome(old: Terminal, new: Terminal, params: Seq<Vec<u8>>) -> bool {
    let ps = osc_view(params);
    let dir = if ps.len() >= 2 {
        uri_directory(ps[1])
    } else {
        None
    };
    match dir {
        Some(d) => new.current_directory matches Some(s) && s@ == utf8_lossy(d) && new == (Terminal {
            current_directory: new.current_directory,
            ..old
        }),
        None => new == old,
    }
}

/// What OSC 8 does to the terminal `old`, giving `new`.
pub open spec fn link_outcome(old: Terminal, new: Terminal, params: Seq<Vec<u8>>) -> bool {
    &&& new.grid@ == (GridModel { hyperlink: osc8_link(osc_view(params)), ..old.grid@ })
    &&& new.same_apart_from_grid_and_reply(old)
    &&& new.pty_response == old.pty_response
}

/// What OSC 10 (`fg`) or OSC 11 does to the terminal `old`, giving `new`.
pub open spec fn colour_outcome(old: Terminal, new: Terminal, params: Seq<Vec<u8>>, fg: bool) -> bool {
    &&& new.same_apart_from_grid_and_reply(old)
    &&& params.len() < 2 ==> new.grid == old.grid && new.pty_response == old.pty_response
    &&& params.len() >= 2 ==> new.grid@ == (GridModel {
        colors: colours_set(old.grid@.colors, params[1]@, fg),
        ..old.grid@
    }) && new.pty_response@ == old.pty_response@ + colour_query_reply(
        old.grid@.colors,
        params[1]@,
        fg,
    )
}

/// What OSC 110 (`fg`) or OSC 111 does to the terminal `old`, giving `new`.
pub open spec fn colour_reset_outcome(old: Terminal, new: Terminal, fg: bool) -> bool {
    &&& new.same_apart_from_grid_and_reply(old)
    &&& new.pty_response == old.pty_response
    &&& new.grid@ == crate::terminal::grid::mark_rows_all(
        GridModel {
            colors: if fg {
                DynamicColors { fg: None, ..old.grid@.colors }
            } else {
                DynamicColors { bg: None, ..old.grid@.colors }
            },
            ..old.grid@
        },
    )
}

/// What OSC 52 does to the terminal `old`, giving `new`.
pub open spec fn clipboard_outcome(old: Terminal, new: Terminal, params: Seq<Vec<u8>>) -> bool {
    let ps = osc_view(params);
    if ps.len() < 3 || ps[2].len() > MAX_OSC52_PAYLOAD {
        new == old
    } else if is_query(ps[2]) {
        new == (Terminal { pty_response: new.pty_response, ..old }) && new.pty_response@
            == old.pty_response@ + clipboard_reply(old.clipboard@)
    } else {
        match clipboard_text(ps[2]) {
            Some(t) => new.clipboard@ == t && new == (Terminal {
                clipboard: new.clipboard,
                clipboard_changed: true,
                ..old
            }),
            None => new == old,
        }
    }
}

/// What OSC 133 does to the terminal `old`, giving `new`.
pub open spec fn shell_mark_outcome(old: Terminal, new: Terminal, params: Seq<Vec<u8>>) -> bool {
    &&& new.same_apart_from_grid_and_reply(old)
    &&& new.pty_response == old.pty_response
    &&& params.len() < 2 ==> new.grid == old.grid
    &&& params.len() >= 2 ==> new.grid@ == (GridModel {
        shell: shell_marked(old.grid@.shell, osc_view(params), old.grid@.cursor_row),
        ..old.grid@
    })
}

/// What OSC 9 does to the terminal `old`, giving `new`.
pub open spec fn notify_outcome(old: Terminal, new: Terminal, params: Seq<Vec<u8>>) -> bool {
    let ps = osc_view(params);
    if ps.len() < 2 {
        new == old
    } else if ps[1] == seq![0x34u8] {
        new == (Terminal { active_progress: progress_of(ps), ..old })
    } else {
        exists|n: Notification|
            {
                &&& n.id is None
                &&& #[trigger] n.title@ == message_upto(ps, ps.len() as int)
                &&& n.body@.len() == 0
                &&& n.urgency == 1
                &&& (old.notifications_enabled ==> new.notifications@ == history_after(
                    old.notifications@,
                    n,
                ) && new.notification_seq == vstd::wrapping::u64_specs::wrapping_add(
                    old.notification_seq,
                    1,
                ) && new == (Terminal {
                    notifications: new.notifications,
                    notification_seq: new.notification_seq,
                    ..old
                }))
                &&& (!old.notifications_enabled ==> new == old)
            }
    }
}

impl Terminal {
    /// OSC 7: the working directory from `file://host/path`.
    fn osc_cwd(&mut self, params: &Vec<Vec<u8>>)
        ensures
            cwd_outcome(*old(self), *final(self), params@),

    {
        if params.len() < 2 {
            return;
        }
        let uri = &params[1];
        if uri.len() < 7 || !bytes_eq(slice_range(uri.as_slice(), 0, 7).as_slice(), &[0x66, 0x69, 0x6c, 0x65, 0x3a, 0x2f, 0x2f]) {
            proof {
                assert([0x66u8, 0x69u8, 0x6cu8, 0x65u8, 0x3au8, 0x2fu8, 0x2fu8]@ =~= file_scheme());
                assert(uri@.subrange(0, 7) =~= uri@.take(7));
            }
            return;
        }
        proof {
            assert([0x66u8, 0x69u8, 0x6cu8, 0x65u8, 0x3au8, 0x2fu8, 0x2fu8]@ =~= file_scheme());
            assert(uri@.subrange(0, 7) =~= uri@.take(7));
            assert(uri@.subrange(7, uri@.len() as int) =~= uri@.skip(7));
        }
        match find_byte_at(uri.as_slice(), 7, uri.len(), 0x2f) {
            Some(pos) => {
                let dir = slice_range(uri.as_slice(), 7 + pos, uri.len());
                proof {
                    assert(dir@ =~= uri@.skip(7).skip(pos as int));
                }
                self.current_directory = Some(lossy_string(dir.as_slice()));
            },
            None => {},
        }
    }

    /// OSC 8: starts a hyperlink (a non-empty URI, with an optional
    /// `id=` piece in the link parameters) or ends it (an empty URI).
    fn osc_link(&mut self, params: &Vec<Vec<u8>>)
        requires
            old(self).wf(),
        ensures
            final(self).wf(),
            link_outcome(*old(self), *final(self), params@),

    {
        let ghost ps = osc_view(params@);
        let n = params.len();
        if n < 2 {
            proof {
                assert(osc8_link(ps) is None);
            }
            self.grid.set_hyperlink(None);
            return;
        }
        let uri: &Vec<u8> = if n > 2 {
            &params[2]
        } else {
            &params[1]
        };
        if uri.len() == 0 {
            proof {
                assert(osc8_link(ps) is None);
            }
            self.grid.set_hyperlink(None);
            return;
        }
        let p1 = &params[1];
        let pieces = split_ranges(p1.as_slice(), 0, p1.len(), 0x3b);
        let ghost split = split_bytes(p1@.subrange(0, p1@.len() as int), 0x3b);
        proof {
            assert(p1@.subrange(0, p1@.len() as int) =~= p1@);
        }
        let mut k: usize = 0;
        while k < pieces.len() && !piece_is_id(p1, pieces[k].0, pieces[k].1)
            invariant
                pieces@.len() == split.len(),
                split == split_bytes(p1@, 0x3b),
                forall|j: int|
                    0 <= j < pieces@.len() ==> {
                        &&& (#[trigger] pieces@[j]).0 <= pieces@[j].1 <= p1@.len()
                        &&& p1@.subrange(pieces@[j].0 as int, pieces@[j].1 as int) == split[j]
                    },
                0 <= k <= pieces@.len(),
                forall|j: int| 0 <= j < k ==> !(split[j].len() >= 3 && split[j].take(3) == id_key()),
            decreases pieces@.len() - k,
        {
            k = k + 1;
        }
        let id = if k < pieces.len() {
            let (s, e) = pieces[k];
            let v = slice_range(p1.as_slice(), s + 3, e);
            proof {
                assert(v@ =~= split[k as int].skip(3));
                lemma_link_id_first(split, k as int);
            }
            Some(lossy_string(v.as_slice()))
        } else {
            proof {
                lemma_link_id_none(split, 0);
            }
            None
        };
        let url = lossy_string(uri.as_slice());
        let link = Hyperlink { id, url };
        proof {
            assert(link_view(Some(link)) == osc8_link(ps));
        }
        self.grid.set_hyperlink(Some(link));
    }
}

/// Whether `b[s..e]` starts with `id=`.
fn piece_is_id(b: &Vec<u8>, s: usize, e: usize) -> (r: bool)
    requires
        s <= e <= b@.len(),
    ensures
        r == (b@.subrange(s as int, e as int).len() >= 3 && b@.subrange(s as int, e as int).take(3)
            == id_key()),
{
    let r = e - s >= 3 && b[s] == 0x69 && b[s + 1] == 0x64 && b[s + 2] == 0x3d;
    proof {
        let t = b@.subrange(s as int, e as int);
        if t.len() >= 3 {
            if r {
                assert(t.take(3) =~= id_key());
            } else if t.take(3) == id_key() {
                assert(t.take(3)[0] == 0x69 && t.take(3)[1] == 0x64 && t.take(3)[2] == 0x3d);
            }
        }
    }
    r
}

proof fn lemma_link_id_first(split: Seq<Seq<u8>>, k: int)
    requires
        0 <= k < split.len(),
        split[k].len() >= 3 && split[k].take(3) == id_key(),
        forall|j: int| 0 <= j < k ==> !(split[j].len() >= 3 && split[j].take(3) == id_key()),
    ensures
        link_id_from(split, 0) == Some(split[k].skip(3)),
{
    lemma_link_id_from(split, 0, k);
}

proof fn lemma_link_id_from(split: Seq<Seq<u8>>, from: int, k: int)
    requires
        0 <= from <= k < split.len(),
        split[k].len() >= 3 && split[k].take(3) == id_key(),
        forall|j: int| from <= j < k ==> !(split[j].len() >= 3 && split[j].take(3) == id_key()),
    ensures
        link_id_from(split, from) == Some(split[k].skip(3)),
    decreases k - from,
{
    if from < k {
        lemma_link_id_from(split, from + 1, k);
    }
}

proof fn lemma_link_id_none(split: Seq<Seq<u8>>, from: int)
    requires
        0 <= from,
        forall|j: int| from <= j < split.len() ==> !(split[j].len() >= 3 && split[j].take(3) == id_key()),
    ensures
        link_id_from(split, from) is None,
    decreases split.len() - from,
{
    if from < split.len() {
        lemma_link_id_none(split, from + 1);
    }
}

/// The dynamic colours after OSC 10 (`fg`) or OSC 11 (`!fg`) with the
/// parameter `p`: a colour specification sets the colour; anything else
/// (a query among them) changes nothing.
pub open spec fn colours_set(c: DynamicColors, p: Seq<u8>, fg: bool) -> DynamicColors {
    if is_query(p) {
        c
    } else {
        match osc_colour(p) {
            Some(rgb) => if fg {
                DynamicColors { fg: Some(rgb), ..c }
            } else {
                DynamicColors { bg: Some(rgb), ..c }
            },
            None => c,
        }
    }
}

/// The reply to OSC 10 (`fg`) or OSC 11 with the parameter `p`: the
/// current colour (white, resp. black, when unset) for a query.
pub open spec fn colour_query_reply(c: DynamicColors, p: Seq<u8>, fg: bool) -> Seq<u8> {
    if !is_query(p) {
        seq![]
    } else if fg {
        colour_reply(seq![0x31u8, 0x30u8], match c.fg {
            Some(v) => v,
            None => (255u8, 255u8, 255u8),
        })
    } else {
        colour_reply(seq![0x31u8, 0x31u8], match c.bg {
            Some(v) => v,
            None => (0u8, 0u8, 0u8),
        })
    }
}

impl Terminal {
    /// OSC 10 (`fg`) and OSC 11: query or set the default foreground or
    /// background colour.
    fn osc_colour(&mut self, params: &Vec<Vec<u8>>, fg: bool)
        requires
            old(self).wf(),
        ensures
            final(self).wf(),
            colour_outcome(*old(self), *final(self), params@, fg),

    {
        if params.len() < 2 {
            return;
        }
        let p = &params[1];
        let cur = DynamicColors { fg: self.grid.osc_fg_color(), bg: self.grid.osc_bg_color() };
        if p.len() == 1 && p[0] == 0x3f {
            proof {
                assert(p@ =~= seq![0x3fu8]);
            }
            if fg {
                let c = match cur.fg {
                    Some(v) => v,
                    None => (255, 255, 255),
                };
                push_colour_reply(&mut self.pty_response, &[0x31, 0x30], c);
                proof {
                    assert([0x31u8, 0x30u8]@ =~= seq![0x31u8, 0x30u8]);
                }
            } else {
                let c = match cur.bg {
                    Some(v) => v,
                    None => (0, 0, 0),
                };
                push_colour_reply(&mut self.pty_response, &[0x31, 0x31], c);
                proof {
                    assert([0x31u8, 0x31u8]@ =~= seq![0x31u8, 0x31u8]);
                }
            }
            proof {
                assert(old(self).grid@.colors == cur);
                assert(self.grid@ =~= (GridModel {
                    colors: colours_set(old(self).grid@.colors, params@[1]@, fg),
                    ..old(self).grid@
                }));
            }
            return;
        }
        proof {
            if is_query(p@) {
                assert(p@[0] == 0x3f);
            }
            assert(old(self).grid@.colors == cur);
        }
        match parse_osc_colour(p.as_slice()) {
            Some(rgb) => {
                if fg {
                    self.grid.set_colors(DynamicColors { fg: Some(rgb), bg: cur.bg });
                } else {
                    self.grid.set_colors(DynamicColors { fg: cur.fg, bg: Some(rgb) });
                }
            },
            None => {},
        }
        proof {
            assert(self.pty_response@ =~= old(self).pty_response@ + Seq::<u8>::empty());
            assert(self.grid@ =~= (GridModel {
                colors: colours_set(old(self).grid@.colors, params@[1]@, fg),
                ..old(self).grid@
            }));
        }
    }

    /// OSC 110 (`fg`) and OSC 111: reset the default foreground or
    /// background colour and redraw everything.
    fn osc_colour_reset(&mut self, fg: bool)
        requires
            old(self).wf(),
        ensures
            final(self).wf(),
            colour_reset_outcome(*old(self), *final(self), fg),

    {
        let cur = DynamicColors { fg: self.grid.osc_fg_color(), bg: self.grid.osc_bg_color() };
        if fg {
            self.grid.set_colors(DynamicColors { fg: None, bg: cur.bg });
        } else {
            self.grid.set_colors(DynamicColors { fg: cur.fg, bg: None });
        }
        self.grid.mark_all_dirty();
    }

    /// OSC 52: a clipboard query (`?`) is answered with the clipboard in
    /// base64; otherwise strict base64 of UTF-8 text sets the clipboard.
    /// Payloads over `MAX_OSC52_PAYLOAD` bytes are ignored.
    fn osc_clipboard(&mut self, params: &Vec<Vec<u8>>)
        ensures
            clipboard_outcome(*old(self), *final(self), params@),

    {
        if params.len() < 3 {
            return;
        }
        let data = &params[2];
        if data.len() > MAX_OSC52_PAYLOAD {
            return;
        }
        if data.len() == 1 && data[0] == 0x3f {
            proof {
                assert(data@ =~= seq![0x3fu8]);
            }
            let encoded = base64_encode(self.clipboard.as_str().as_bytes());
            let ghost o = self.pty_response@;
            push_all(&mut self.pty_response, &[0x1b, 0x5d, 0x35, 0x32, 0x3b, 0x63, 0x3b]);
            push_all(&mut self.pty_response, encoded.as_slice());
            push_all(&mut self.pty_response, &[0x1b, 0x5c]);
            proof {
                assert([0x1bu8, 0x5du8, 0x35u8, 0x32u8, 0x3bu8, 0x63u8, 0x3bu8]@ =~= seq![
                    0x1bu8,
                    0x5du8,
                    0x35u8,
                    0x32u8,
                    0x3bu8,
                    0x63u8,
                    0x3bu8,
                ]);
                assert([0x1bu8, 0x5cu8]@ =~= seq![0x1bu8, 0x5cu8]);
                assert(self.pty_response@ =~= o + clipboard_reply(old(self).clipboard@));
            }
            return;
        }
        proof {
            if is_query(data@) {
                assert(data@[0] == 0x3f);
            }
        }
        match base64_decode_strict(data.as_slice()) {
            Some(decoded) => {
                if is_valid_utf8(decoded.as_slice()) {
                    self.clipboard = lossy_string(decoded.as_slice());
                    self.clipboard_changed = true;
                }
            },
            None => {},
        }
    }

    /// OSC 133: shell integration marks at the cursor row.
    fn osc_shell_mark(&mut self, params: &Vec<Vec<u8>>)
        requires
            old(self).wf(),
            params@.len() >= 2 ==> !exit_code_cuts_char(osc_view(params@)),
        ensures
            final(self).wf(),
            shell_mark_outcome(*old(self), *final(self), params@),

    {
        if params.len() < 2 {
            return;
        }
        let ghost ps = osc_view(params@);
        proof {
            assert(ps[1] == params@[1]@);
        }
        let marker = &params[1];
        let row = self.grid.cursor_row();
        let cur = ShellState {
            prompt_row: self.grid.shell_prompt_row(),
            command_row: self.grid.shell_command_row(),
            last_exit_code: self.grid.shell_last_exit_code(),
        };
        proof {
            assert(cur == old(self).grid@.shell);
        }
        if !is_valid_utf8(marker.as_slice()) {
            proof {
                assert(self.grid@ =~= (GridModel { shell: shell_marked(cur, ps, row as nat), ..old(self).grid@ }));
            }
            return;
        }
        if marker.len() == 1 && marker[0] == 0x41 {
            proof {
                assert(marker@ =~= seq![0x41u8]);
            }
            self.grid.set_shell(ShellState { prompt_row: Some(row), ..cur });
        } else if marker.len() == 1 && marker[0] == 0x43 {
            proof {
                assert(marker@ =~= seq![0x43u8]);
                assert(marker@ != seq![0x41u8]);
            }
            self.grid.set_shell(ShellState { command_row: Some(row), ..cur });
        } else if marker.len() >= 1 && marker[0] == 0x44 {
            proof {
                assert(marker@ != seq![0x41u8]);
                assert(marker@ != seq![0x43u8]);
            }
            let code: Option<i32> = if marker.len() > 1 {
                if marker.len() >= 2 {
                    proof {
                        assert(marker@.skip(2) =~= marker@.subrange(2, marker@.len() as int));
                    }
                    parse_i32_at(marker.as_slice(), 2, marker.len())
                } else {
                    None
                }
            } else if params.len() > 2 && is_valid_utf8(params[2].as_slice()) {
                proof {
                    assert(params@[2]@.subrange(0, params@[2]@.len() as int) =~= params@[2]@);
                }
                parse_i32_at(params[2].as_slice(), 0, params[2].len())
            } else {
                None
            };
            proof {
                assert(code == exit_code_of(ps));
            }
            self.grid.set_shell(ShellState { last_exit_code: code, command_row: None, ..cur });
        } else {
            proof {
                if marker@ == seq![0x41u8] || marker@ == seq![0x43u8] {
                    assert(marker@.len() == 1);
                }
            }
        }
    }
}

// ============================================================================
// Notifications
// ============================================================================
/// The history after `n` arrives: appended, the oldest dropped beyond
/// `MAX_NOTIFICATIONS`.
pub open spec fn history_after(h: Seq<Notification>, n: Notification) -> Seq<Notification> {
    let s = h.push(n);
    if s.len() > MAX_NOTIFICATIONS {
        s.drop_first()
    } else {
        s
    }
}

/// The notification history stays within `MAX_NOTIFICATIONS` entries: a
/// new notification is always kept, as the newest, and only the oldest entry
/// makes way for it.
pub proof fn lemma_history_bounded(h: Seq<Notification>, n: Notification)
    requires
        h.len() <= MAX_NOTIFICATIONS,
    ensures
        history_after(h, n).len() <= MAX_NOTIFICATIONS,
        history_after(h, n).last() == n,
        history_after(h, n) == h.push(n).skip(h.len() + 1 - history_after(h, n).len()),
{
    let s = h.push(n);
    if s.len() > MAX_NOTIFICATIONS {
        assert(s.drop_first() =~= s.skip(1));
    } else {
        assert(s.skip(0) =~= s);
    }
}

impl Terminal {
    /// Adds a notification to the history (when notifications are on) and
    /// counts it.
    pub fn push_notification(&mut self, notif: Notification)
        ensures
            old(self).notifications_enabled ==> final(self).notifications@ == history_after(
                old(self).notifications@,
                notif,
            ) && final(self).notification_seq == vstd::wrapping::u64_specs::wrapping_add(
                old(self).notification_seq,
                1,
            ) && *final(self) == (Terminal {
                notifications: final(self).notifications,
                notification_seq: final(self).notification_seq,
                ..*old(self)
            }),
            !old(self).notifications_enabled ==> *final(self) == *old(self),
    {
        if !self.notifications_enabled {
            return;
        }
        self.notifications.push_back(notif);
        if self.notifications.len() > MAX_NOTIFICATIONS {
            self.notifications.pop_front();
        }
        self.notification_seq = self.notification_seq.wrapping_add(1);
    }
}

/// `;` encodes as the byte 0x3b.
proof fn lemma_encode_semicolon()
    ensures
        encode_utf8(seq![';']) == seq![0x3bu8],
{
    assert((0x3bu32 & 0x7Fu32) == 0x3bu32) by (bit_vector);
    assert(seq![';'].drop_first() =~= Seq::<char>::empty());
    assert(';' as u32 == 0x3b);
    assert(vstd::utf8::has_width_1_encoding(0x3b));
    assert(vstd::utf8::encode_scalar(0x3b) =~= seq![0x3bu8]);
    assert(seq![';'][0] as u32 == 0x3b);
    assert(encode_utf8(seq![';']) =~= vstd::utf8::encode_scalar(0x3b) + encode_utf8(Seq::<char>::empty()));
    assert(encode_utf8(seq![';']) =~= seq![0x3bu8]);
}

/// The UTF-8 encoding of a concatenation is the concatenation of the
/// encodings.
pub(crate) proof fn lemma_encode_concat(a: Seq<char>, b: Seq<char>)
    ensures
        encode_utf8(a + b) == encode_utf8(a) + encode_utf8(b),
    decreases a.len(),
{
    if a.len() == 0 {
        assert(a + b =~= b);
        assert(encode_utf8(a) + encode_utf8(b) =~= encode_utf8(b));
    } else {
        assert((a + b).drop_first() =~= a.drop_first() + b);
        lemma_encode_concat(a.drop_first(), b);
        assert((a + b)[0] == a[0]);
        assert(encode_utf8(a + b) =~= encode_utf8(a) + encode_utf8(b));
    }
}

/// The text of an OSC 9 message: the first parameter if it is UTF-8, then
/// each further parameter after a `;`.
pub open spec fn message_upto(ps: Seq<Seq<u8>>, n: int) -> Seq<char>
    decreases n,
{
    if n <= 2 {
        if valid_utf8(ps[1]) {
            decode_utf8(ps[1])
        } else {
            seq![]
        }
    } else {
        message_upto(ps, n - 1) + seq![';'] + utf8_lossy(ps[n - 1])
    }
}

/// `str::parse::<u8>()` of a parameter, 0 when it is not UTF-8 or no such
/// number.
pub open spec fn param_u8(b: Seq<u8>) -> u8 {
    if valid_utf8(b) {
        match parse_unsigned(b, false, 255) {
            Some(v) => v as u8,
            None => 0,
        }
    } else {
        0
    }
}

/// The progress bar after `OSC 9 ; 4 ; state ; percent` (cleared by state
/// 0 or missing fields; percent capped at 100).
pub open spec fn progress_of(ps: Seq<Seq<u8>>) -> Option<NotificationProgress> {
    if ps.len() >= 4 {
        let state = param_u8(ps[2]);
        let pct = param_u8(ps[3]);
        if state == 0 {
            None
        } else {
            Some(NotificationProgress { state, percent: if pct < 100 { pct } else { 100 } })
        }
    } else {
        None
    }
}

fn param_u8_exec(b: &Vec<u8>) -> (r: u8)
    ensures
        r == param_u8(b@),
{
    if !is_valid_utf8(b.as_slice()) {
        return 0;
    }
    proof {
        assert(b@.subrange(0, b@.len() as int) =~= b@);
    }
    match parse_unsigned_at(b.as_slice(), 0, b.len(), false, 255) {
        Some(v) => v as u8,
        None => 0,
    }
}

impl Terminal {
    /// OSC 9: a progress report (`9 ; 4 ; ...`) or a desktop notification
    /// whose title is the message.
    fn osc_notify(&mut self, params: &Vec<Vec<u8>>)
        ensures
            notify_outcome(*old(self), *final(self), params@),

    {
        let ghost ps = osc_view(params@);
        if params.len() < 2 {
            return;
        }
        let first = &params[1];
        proof {
            assert(ps[1] == first@);
        }
        if first.len() == 1 && first[0] == 0x34 {
            proof {
                assert(first@ =~= seq![0x34u8]);
            }
            if params.len() >= 4 {
                let state = param_u8_exec(&params[2]);
                let pct = param_u8_exec(&params[3]);
                proof {
                    assert(ps[2] == params@[2]@ && ps[3] == params@[3]@);
                }
                if state == 0 {
                    self.active_progress = None;
                } else {
                    self.active_progress = Some(
                        NotificationProgress {
                            state,
                            percent: if pct < 100 {
                                pct
                            } else {
                                100
                            },
                        },
                    );
                }
            } else {
                self.active_progress = None;
            }
            return;
        }
        proof {
            if ps[1] == seq![0x34u8] {
                assert(first@[0] == 0x34);
            }
        }
        let mut bytes: Vec<u8> = Vec::new();
        if is_valid_utf8(first.as_slice()) {
            push_all(&mut bytes, first.as_slice());
            proof {
                vstd::utf8::decode_utf8_encode_utf8(first@);
            }
        }
        proof {
            assert(bytes@ == encode_utf8(message_upto(ps, 2)));
        }
        let mut i: usize = 2;
        while i < params.len()
            invariant
                2 <= i <= params@.len(),
                ps == osc_view(params@),
                bytes@ == encode_utf8(message_upto(ps, i as int)),
            decreases params@.len() - i,
        {
            let piece = lossy_string(params[i].as_slice());
            let ghost before = bytes@;
            bytes.push(0x3b);
            push_all(&mut bytes, piece.as_str().as_bytes());
            proof {
                assert(ps[i as int] == params@[i as int]@);
                let m = message_upto(ps, i as int);
                lemma_encode_semicolon();
                lemma_encode_concat(m, seq![';']);
                lemma_encode_concat(m + seq![';'], utf8_lossy(ps[i as int]));
                assert(bytes@ =~= encode_utf8(message_upto(ps, i + 1)));
            }
            i = i + 1;
        }
        proof {
            vstd::utf8::encode_utf8_valid_utf8(message_upto(ps, ps.len() as int));
            vstd::utf8::encode_utf8_decode_utf8(message_upto(ps, ps.len() as int));
        }
        let title = lossy_string(bytes.as_slice());
        let n = Notification {
            id: None,
            title,
            body: String::new(),
            urgency: 1,
            timestamp: instant_now(),
        };
        let ghost nv = n;
        self.push_notification(n);
        proof {
            assert(nv.title@ == message_upto(ps, ps.len() as int));
        }
    }
}

// ============================================================================
// OSC 99: Kitty notifications
// ============================================================================
/// The metadata of an OSC 99 sequence, as read so far.
pub ghost struct NotifyMeta {
    /// `i=`: the notification's identifier
    pub id: Option<Seq<u8>>,
    /// `d=`: whether the notification is complete (anything but `0`)
    pub done: bool,
    /// `p=`: what the payload is (`title`, `body`, or `?` for a query)
    pub kind: Seq<u8>,
    /// `u=`: urgency 0 to 2
    pub urgency: u8,
    /// `e=1`: close the notification with the identifier read so far
    pub close: bool,
}

/// `title` as bytes.
pub open spec fn title_kind() -> Seq<u8> {
    seq![0x74u8, 0x69u8, 0x74u8, 0x6cu8, 0x65u8]
}

/// `body` as bytes.
pub open spec fn body_kind() -> Seq<u8> {
    seq![0x62u8, 0x6fu8, 0x64u8, 0x79u8]
}

/// Metadata before any `key=value` piece.
pub open spec fn meta_start() -> NotifyMeta {
    NotifyMeta { id: None, done: true, kind: title_kind(), urgency: 1, close: false }
}

/// Metadata after the piece `kv`; once closing, the rest is not read.
pub open spec fn meta_step(m: NotifyMeta, kv: Seq<u8>) -> NotifyMeta {
    if m.close {
        m
    } else {
        match find_byte(kv, 0x3d) {
            None => m,
            Some(i) => {
                let key = kv.take(i);
                let v = kv.skip(i + 1);
                if key == seq![0x69u8] {
                    NotifyMeta { id: Some(v), ..m }
                } else if key == seq![0x64u8] {
                    NotifyMeta { done: v != seq![0x30u8], ..m }
                } else if key == seq![0x70u8] {
                    NotifyMeta { kind: v, ..m }
                } else if key == seq![0x75u8] {
                    NotifyMeta {
                        urgency: match parse_unsigned(v, false, 255) {
                            Some(x) => if x < 2 {
                                x as u8
                            } else {
                                2
                            },
                            None => 1,
                        },
                        ..m
                    }
                } else if key == seq![0x65u8] && v == seq![0x31u8] {
                    NotifyMeta { close: true, ..m }
                } else {
                    m
                }
            },
        }
    }
}

/// Metadata after the first `n` pieces.
pub open spec fn meta_of(pieces: Seq<Seq<u8>>, n: int) -> NotifyMeta
    decreases n,
{
    if n <= 0 {
        meta_start()
    } else {
        meta_step(meta_of(pieces, n - 1), pieces[n - 1])
    }
}

/// The metadata of an OSC 99 parameter: `:`-separated `key=value` pieces.
pub open spec fn notify_meta(p: Seq<u8>) -> NotifyMeta {
    let pieces = split_bytes(p, 0x3a);
    meta_of(pieces, pieces.len() as int)
}

/// The key under which a notification is pending: its identifier, or
/// the empty text.
pub open spec fn note_key(n: Notification) -> Seq<char> {
    match n.id {
        Some(s) => s@,
        None => seq![],
    }
}

/// The identifier text of metadata `m`.
pub open spec fn meta_key(m: NotifyMeta) -> Seq<char> {
    match m.id {
        Some(i) => utf8_lossy(i),
        None => seq![],
    }
}

/// The first pending notification with key `k`.
pub open spec fn find_note(p: Seq<Notification>, k: Seq<char>) -> Option<int> {
    if exists|j: int| 0 <= j < p.len() && note_key(#[trigger] p[j]) == k {
        Some(choose|j: int| 0 <= j < p.len() && note_key(#[trigger] p[j]) == k && forall|i: int| 0 <= i < j ==> note_key(#[trigger] p[i]) != k)
    } else {
        None
    }
}

proof fn lemma_find_note(p: Seq<Notification>, k: Seq<char>)
    ensures
        match find_note(p, k) {
            Some(j) => 0 <= j < p.len() && note_key(p[j]) == k && forall|i: int|
                0 <= i < j ==> note_key(#[trigger] p[i]) != k,
            None => forall|i: int| 0 <= i < p.len() ==> note_key(#[trigger] p[i]) != k,
        },
{
    if exists|j: int| 0 <= j < p.len() && note_key(#[trigger] p[j]) == k {
        let w = choose|j: int| 0 <= j < p.len() && note_key(#[trigger] p[j]) == k;
        lemma_first_note(p, k, w);
    }
}

proof fn lemma_first_note(p: Seq<Notification>, k: Seq<char>, w: int)
    requires
        0 <= w < p.len(),
        note_key(p[w]) == k,
    ensures
        exists|j: int| 0 <= j < p.len() && note_key(#[trigger] p[j]) == k && forall|i: int|
            0 <= i < j ==> note_key(#[trigger] p[i]) != k,
    decreases w,
{
    if exists|i: int| 0 <= i < w && note_key(#[trigger] p[i]) == k {
        let v = choose|i: int| 0 <= i < w && note_key(#[trigger] p[i]) == k;
        lemma_first_note(p, k, v);
    } else {
        assert(0 <= w < p.len() && note_key(p[w]) == k && forall|i: int| 0 <= i < w ==> note_key(#[trigger] p[i]) != k);
    }
}

/// The pending notifications without the one with key `k`.
pub open spec fn without_note(p: Seq<Notification>, k: Seq<char>) -> Seq<Notification> {
    match find_note(p, k) {
        Some(j) => p.remove(j),
        None => p,
    }
}

/// `new` is `old` with the payload put in the title or the body, as
/// `kind` says (other kinds change nothing).
pub open spec fn note_filled(old: Notification, new: Notification, kind: Seq<u8>, payload: Seq<char>) -> bool {
    &&& new.id == old.id
    &&& new.urgency == old.urgency
    &&& new.timestamp == old.timestamp
    &&& if kind == title_kind() {
        new.title@ == payload && new.body == old.body
    } else if kind == body_kind() {
        new.body@ == payload && new.title == old.title
    } else {
        new.title == old.title && new.body == old.body
    }
}

/// `n` is a new notification of metadata `m` with the payload put in
/// place.
pub open spec fn note_new(n: Notification, m: NotifyMeta, payload: Seq<char>) -> bool {
    &&& (match n.id {
        Some(s) => m.id matches Some(i) && s@ == utf8_lossy(i),
        None => m.id is None,
    })
    &&& n.urgency == m.urgency
    &&& n.title@ == (if m.kind == title_kind() {
        payload
    } else {
        seq![]
    })
    &&& n.body@ == (if m.kind == body_kind() {
        payload
    } else {
        seq![]
    })
}

/// A complete notification shows its body as title when it has no title.
pub open spec fn note_finished(b: Notification, n: Notification) -> bool {
    if b.title@.len() == 0 && b.body@.len() > 0 {
        &&& n.title@ == b.body@
        &&& n.body@.len() == 0
        &&& n.id == b.id
        &&& n.urgency == b.urgency
        &&& n.timestamp == b.timestamp
    } else {
        n == b
    }
}

/// The capability reply to `p=?`.
pub open spec fn notify_query_reply(m: NotifyMeta) -> Seq<u8> {
    seq![0x1bu8, 0x5du8, 0x39u8, 0x39u8, 0x3bu8, 0x69u8, 0x3du8] + encode_utf8(meta_key(m))
        + notify_caps()
}

/// `:p=?;p=title,body:a=focus:o=always:u=0,1,2 ESC \`.
pub open spec fn notify_caps() -> Seq<u8> {
    ":p=?;p=title,body:a=focus:o=always:u=0,1,2".spec_bytes() + seq![0x1bu8, 0x5cu8]
}

/// An incomplete notification of metadata `m` waits: the pending one with
/// its key gets the payload, or a new one is added.
pub open spec fn partial_stored(old: Terminal, new: Terminal, m: NotifyMeta, payload: Seq<char>) -> bool {
    let p = old.pending_notifications@;
    let q = new.pending_notifications@;
    &&& new == (Terminal { pending_notifications: new.pending_notifications, ..old })
    &&& match find_note(p, meta_key(m)) {
        Some(j) => q.len() == p.len() && (forall|i: int|
            0 <= i < p.len() && i != j ==> #[trigger] q[i] == p[i]) && note_filled(
            p[j],
            q[j],
            m.kind,
            payload,
        ),
        None => q.len() == p.len() + 1 && (forall|i: int| 0 <= i < p.len() ==> #[trigger] q[i] == p[i])
            && note_new(q[p.len() as int], m, payload),
    }
}

/// A complete notification of metadata `m` is shown: the pending one
/// with its key (taken out) or a new one, with the payload put in.
pub open spec fn completed_shown(old: Terminal, new: Terminal, m: NotifyMeta, payload: Seq<char>) -> bool {
    let p = old.pending_notifications@;
    let k = meta_key(m);
    exists|b: Notification, n: Notification|
        {
            &&& match find_note(p, k) {
                Some(j) => note_filled(Notification { urgency: m.urgency, ..p[j] }, b, m.kind, payload),
                None => note_new(b, m, payload),
            }
            &&& #[trigger] note_finished(b, n)
            &&& new.pending_notifications@ == without_note(p, k)
            &&& (old.notifications_enabled ==> new.notifications@ == history_after(
                old.notifications@,
                n,
            ) && new.notification_seq == vstd::wrapping::u64_specs::wrapping_add(
                old.notification_seq,
                1,
            ) && new == (Terminal {
                notifications: new.notifications,
                notification_seq: new.notification_seq,
                pending_notifications: new.pending_notifications,
                ..old
            }))
            &&& (!old.notifications_enabled ==> new == (Terminal {
                pending_notifications: new.pending_notifications,
                ..old
            }))
        }
}

/// What an OSC 99 sequence does to the terminal `old`, giving `new`.
pub open spec fn osc99_outcome(old: Terminal, new: Terminal, ps: Seq<Seq<u8>>) -> bool {
    if ps.len() < 2 {
        new == old
    } else {
        let m = notify_meta(ps[1]);
        let payload = utf8_lossy_or_empty(ps);
        if m.close {
            new == (Terminal { pending_notifications: new.pending_notifications, ..old })
                && new.pending_notifications@ == (if m.id is Some {
                without_note(old.pending_notifications@, meta_key(m))
            } else {
                old.pending_notifications@
            })
        } else if m.kind == seq![0x3fu8] {
            new == (Terminal { pty_response: new.pty_response, ..old }) && new.pty_response@
                == old.pty_response@ + notify_query_reply(m)
        } else if !m.done {
            partial_stored(old, new, m, payload)
        } else {
            completed_shown(old, new, m, payload)
        }
    }
}

/// Exec form of the metadata: byte ranges of `i=` and `p=` values.
struct MetaRanges {
    id: Option<(usize, usize)>,
    done: bool,
    kind: Option<(usize, usize)>,
    urgency: u8,
    close: bool,
}

/// The ranges `r` describe the metadata `m` of the bytes `b`.
spec fn ranges_describe(b: Seq<u8>, r: MetaRanges, m: NotifyMeta) -> bool {
    &&& match r.id {
        Some((s, e)) => s <= e <= b.len() && m.id == Some(b.subrange(s as int, e as int)),
        None => m.id is None,
    }
    &&& match r.kind {
        Some((s, e)) => s <= e <= b.len() && m.kind == b.subrange(s as int, e as int),
        None => m.kind == title_kind(),
    }
    &&& r.done == m.done
    &&& r.urgency == m.urgency
    &&& r.close == m.close
}

/// Reads the `key=value` pieces of an OSC 99 metadata parameter.
fn read_meta(b: &Vec<u8>) -> (r: MetaRanges)
    ensures
        ranges_describe(b@, r, notify_meta(b@)),
{
    let pieces = split_ranges(b.as_slice(), 0, b.len(), 0x3a);
    let ghost split = split_bytes(b@.subrange(0, b@.len() as int), 0x3a);
    proof {
        assert(b@.subrange(0, b@.len() as int) =~= b@);
    }
    let mut r = MetaRanges { id: None, done: true, kind: None, urgency: 1, close: false };
    let mut k: usize = 0;
    while k < pieces.len()
        invariant
            pieces@.len() == split.len(),
            split == split_bytes(b@, 0x3a),
            forall|j: int|
                0 <= j < pieces@.len() ==> {
                    &&& (#[trigger] pieces@[j]).0 <= pieces@[j].1 <= b@.len()
                    &&& b@.subrange(pieces@[j].0 as int, pieces@[j].1 as int) == split[j]
                },
            0 <= k <= pieces@.len(),
            ranges_describe(b@, r, meta_of(split, k as int)),
        decreases pieces@.len() - k,
    {
        let (s, e) = pieces[k];
        let ghost kv = split[k as int];
        let ghost m0 = meta_of(split, k as int);
        if !r.close {
            match find_byte_at(b.as_slice(), s, e, 0x3d) {
                None => {},
                Some(i) => {
                    let ks = s;
                    let ke = s + i;
                    let vs = s + i + 1;
                    proof {
                        assert(kv.take(i as int) =~= b@.subrange(ks as int, ke as int));
                        assert(kv.skip(i + 1) =~= b@.subrange(vs as int, e as int));
                    }
                    let klen = ke - ks;
                    let c = if klen == 1 { b[ks] } else { 0 };
                    proof {
                        if klen == 1 {
                            assert(kv.take(i as int) =~= seq![c]);
                        }
                    }
                    if klen == 1 && c == 0x69 {
                        r.id = Some((vs, e));
                    } else if klen == 1 && c == 0x64 {
                        r.done = !(e - vs == 1 && b[vs] == 0x30);
                        proof {
                            let v = kv.skip(i + 1);
                            if v == seq![0x30u8] {
                                assert(v[0] == 0x30);
                            }
                            if e - vs == 1 && b@[vs as int] == 0x30 {
                                assert(v =~= seq![0x30u8]);
                            }
                        }
                    } else if klen == 1 && c == 0x70 {
                        r.kind = Some((vs, e));
                    } else if klen == 1 && c == 0x75 {
                        r.urgency = match parse_unsigned_at(b.as_slice(), vs, e, false, 255) {
                            Some(x) => if x < 2 {
                                x as u8
                            } else {
                                2
                            },
                            None => 1,
                        };
                    } else if klen == 1 && c == 0x65 && e - vs == 1 && b[vs] == 0x31 {
                        proof {
                            assert(kv.skip(i + 1) =~= seq![0x31u8]);
                        }
                        r.close = true;
                    } else {
                        proof {
                            let v = kv.skip(i + 1);
                            if kv.take(i as int) == seq![0x65u8] && v == seq![0x31u8] {
                                assert(v[0] == 0x31);
                            }
                            if klen != 1 {
                                assert(kv.take(i as int).len() != 1);
                            }
                        }
                    }
                },
            }
        }
        proof {
            assert(meta_of(split, k + 1) == meta_step(m0, kv));
        }
        k = k + 1;
    }
    r
}

/// A copy of the text `b[s..e]` with invalid UTF-8 replaced.
fn lossy_range(b: &Vec<u8>, s: usize, e: usize) -> (r: String)
    requires
        s <= e <= b@.len(),
    ensures
        r@ == utf8_lossy(b@.subrange(s as int, e as int)),
{
    let v = slice_range(b.as_slice(), s, e);
    lossy_string(v.as_slice())
}

impl Terminal {
    /// A new notification of metadata `m`.
    fn new_note(id: Option<String>, payload: String, title: bool, body: bool, urgency: u8, m: Ghost<NotifyMeta>) -> (n: Notification)
        requires
            match id {
                Some(s) => m@.id matches Some(i) && s@ == utf8_lossy(i),
                None => m@.id is None,
            },
            title == (m@.kind == title_kind()),
            body == (m@.kind == body_kind()),
            urgency == m@.urgency,
        ensures
            note_new(n, m@, payload@),
    {
        Notification {
            id,
            title: if title {
                payload.clone()
            } else {
                String::new()
            },
            body: if body {
                payload
            } else {
                String::new()
            },
            urgency,
            timestamp: instant_now(),
        }
    }

    /// Puts the payload in the title or the body of `entry`.
    fn fill_note(entry: &mut Notification, payload: String, title: bool, body: bool, kind: Ghost<Seq<u8>>)
        requires
            title == (kind@ == title_kind()),
            body == (kind@ == body_kind()),
        ensures
            note_filled(*old(entry), *final(entry), kind@, payload@),
    {
        if title {
            entry.title = payload;
        } else if body {
            entry.body = payload;
        }
    }

}

/// Index of the first pending notification with key `k`.
fn note_index(p: &Vec<Notification>, k: &String) -> (r: Option<usize>)
    ensures
        r is None <==> find_note(p@, k@) is None,
        r matches Some(j) ==> j < p@.len() && find_note(p@, k@) == Some(j as int),
{
    proof {
        lemma_find_note(p@, k@);
    }
    let mut j: usize = 0;
    while j < p.len()
        invariant
            0 <= j <= p@.len(),
            forall|i: int| 0 <= i < j ==> note_key(#[trigger] p@[i]) != k@,
            match find_note(p@, k@) {
                Some(x) => 0 <= x < p@.len() && note_key(p@[x]) == k@ && forall|i: int|
                    0 <= i < x ==> note_key(#[trigger] p@[i]) != k@,
                None => forall|i: int| 0 <= i < p@.len() ==> note_key(#[trigger] p@[i]) != k@,
            },
        decreases p@.len() - j,
    {
        let hit = match &p[j].id {
            Some(s) => *s == *k,
            None => k.as_str().is_empty(),
        };
        if hit {
            proof {
                assert(note_key(p@[j as int]) == k@);
            }
            return Some(j);
        }
        j = j + 1;
    }
    None
}

/// Stores an incomplete notification among the pending ones.
fn store_partial(
    pending: &mut Vec<Notification>,
    id: Option<String>,
    key: &String,
    payload: String,
    title: bool,
    body: bool,
    urgency: u8,
    m: Ghost<NotifyMeta>,
)
    requires
        match id {
            Some(s) => m@.id matches Some(i) && s@ == utf8_lossy(i),
            None => m@.id is None,
        },
        key@ == meta_key(m@),
        title == (m@.kind == title_kind()),
        body == (m@.kind == body_kind()),
        urgency == m@.urgency,
    ensures
        ({
            let p = old(pending)@;
            let q = final(pending)@;
            match find_note(p, meta_key(m@)) {
                Some(j) => q.len() == p.len() && (forall|i: int|
                    0 <= i < p.len() && i != j ==> #[trigger] q[i] == p[i]) && note_filled(
                    p[j],
                    q[j],
                    m@.kind,
                    payload@,
                ),
                None => q.len() == p.len() + 1 && (forall|i: int|
                    0 <= i < p.len() ==> #[trigger] q[i] == p[i]) && note_new(q[p.len() as int], m@, payload@),
            }
        }),
{
    let ghost p = pending@;
    proof {
        lemma_find_note(p, key@);
    }
    match note_index(pending, key) {
        Some(j) => {
            let mut entry = pending.remove(j);
            Terminal::fill_note(&mut entry, payload, title, body, Ghost(m@.kind));
            let ghost e = entry;
            pending.insert(j, entry);
            proof {
                assert(pending@ =~= p.update(j as int, e));
            }
        },
        None => {
            let n = Terminal::new_note(id, payload, title, body, urgency, m);
            pending.push(n);
        },
    }
}

/// Takes the complete notification out of the pending ones (or makes a
/// new one) with the payload put in, before the body-as-title rule.
fn take_complete(
    pending: &mut Vec<Notification>,
    id: Option<String>,
    key: &String,
    payload: String,
    title: bool,
    body: bool,
    urgency: u8,
    m: Ghost<NotifyMeta>,
) -> (b: Notification)
    requires
        match id {
            Some(s) => m@.id matches Some(i) && s@ == utf8_lossy(i),
            None => m@.id is None,
        },
        key@ == meta_key(m@),
        title == (m@.kind == title_kind()),
        body == (m@.kind == body_kind()),
        urgency == m@.urgency,
    ensures
        match find_note(old(pending)@, meta_key(m@)) {
            Some(j) => note_filled(
                Notification { urgency: m@.urgency, ..old(pending)@[j] },
                b,
                m@.kind,
                payload@,
            ),
            None => note_new(b, m@, payload@),
        },
        final(pending)@ == without_note(old(pending)@, meta_key(m@)),
{
    proof {
        lemma_find_note(pending@, key@);
    }
    let ghost p = pending@;
    match note_index(pending, key) {
        Some(j) => {
            let mut entry = pending.remove(j);
            entry.urgency = urgency;
            Terminal::fill_note(&mut entry, payload, title, body, Ghost(m@.kind));
            entry
        },
        None => Terminal::new_note(id, payload, title, body, urgency, m),
    }
}

/// A complete notification shows its body as title when it has no title.
fn finish_note(b: Notification) -> (n: Notification)
    ensures
        note_finished(b, n),
{
    if b.title.as_str().is_empty() && !b.body.as_str().is_empty() {
        Notification {
            id: b.id,
            title: b.body,
            body: String::new(),
            urgency: b.urgency,
            timestamp: b.timestamp,
        }
    } else {
        b
    }
}

impl Terminal {
    /// OSC 99: Kitty notifications. Metadata `i=`, `d=`, `p=`, `u=`, `e=`
    /// in the first parameter, the payload in the second. Incomplete
    /// notifications wait under their identifier; `p=?` asks what is
    /// supported; `e=1` closes a waiting notification.
    #[verifier::spinoff_prover]
    fn osc_kitty_notify(&mut self, params: &Vec<Vec<u8>>)
        ensures
            osc99_outcome(*old(self), *final(self), osc_view(params@)),
    {
        let ghost ps = osc_view(params@);
        if params.len() < 2 {
            return;
        }
        let meta_bytes = &params[1];
        proof {
            assert(ps[1] == meta_bytes@);
        }
        let r = read_meta(meta_bytes);
        let ghost m = notify_meta(ps[1]);
        let payload: String = if params.len() > 2 {
            proof {
                assert(ps[2] == params@[2]@);
            }
            lossy_string(params[2].as_slice())
        } else {
            String::new()
        };
        proof {
            assert(payload@ == utf8_lossy_or_empty(ps));
        }
        let id: Option<String> = match r.id {
            Some((s, e)) => Some(lossy_range(meta_bytes, s, e)),
            None => None,
        };
        let key: String = match &id {
            Some(s) => s.clone(),
            None => String::new(),
        };
        proof {
            assert(id.is_some() == (m.id is Some));
            assert(key@ == meta_key(m));
            lemma_find_note(self.pending_notifications@, key@);
        }
        if r.close {
            if id.is_some() {
                match note_index(&self.pending_notifications, &key) {
                    Some(j) => {
                        self.pending_notifications.remove(j);
                    },
                    None => {},
                }
            }
            return;
        }
        let (kind_is_title, kind_is_body, kind_is_query) = match r.kind {
            Some((s, e)) => {
                let kb = slice_range(meta_bytes.as_slice(), s, e);
                let t = bytes_eq(kb.as_slice(), &[0x74, 0x69, 0x74, 0x6c, 0x65]);
                let b = bytes_eq(kb.as_slice(), &[0x62, 0x6f, 0x64, 0x79]);
                let q = bytes_eq(kb.as_slice(), &[0x3f]);
                proof {
                    assert([0x74u8, 0x69u8, 0x74u8, 0x6cu8, 0x65u8]@ =~= title_kind());
                    assert([0x62u8, 0x6fu8, 0x64u8, 0x79u8]@ =~= body_kind());
                    assert([0x3fu8]@ =~= seq![0x3fu8]);
                }
                (t, b, q)
            },
            None => {
                proof {
                    assert(title_kind()[0] != body_kind()[0]);
                    assert(title_kind().len() != seq![0x3fu8].len());
                }
                (true, false, false)
            },
        };
        if kind_is_query {
            let ghost o = self.pty_response@;
            push_all(&mut self.pty_response, &[0x1b, 0x5d, 0x39, 0x39, 0x3b, 0x69, 0x3d]);
            push_all(&mut self.pty_response, key.as_str().as_bytes());
            push_all(&mut self.pty_response, ":p=?;p=title,body:a=focus:o=always:u=0,1,2".as_bytes());
            push_all(&mut self.pty_response, &[0x1b, 0x5c]);
            proof {
                assert([0x1bu8, 0x5du8, 0x39u8, 0x39u8, 0x3bu8, 0x69u8, 0x3du8]@ =~= seq![
                    0x1bu8,
                    0x5du8,
                    0x39u8,
                    0x39u8,
                    0x3bu8,
                    0x69u8,
                    0x3du8,
                ]);
                assert([0x1bu8, 0x5cu8]@ =~= seq![0x1bu8, 0x5cu8]);
                assert(self.pty_response@ =~= o + notify_query_reply(m));
            }
            return;
        }
        if !r.done {
            store_partial(
                &mut self.pending_notifications,
                id,
                &key,
                payload,
                kind_is_title,
                kind_is_body,
                r.urgency,
                Ghost(m),
            );
        } else {
            let ghost pl = payload@;
            let b = take_complete(
                &mut self.pending_notifications,
                id,
                &key,
                payload,
                kind_is_title,
                kind_is_body,
                r.urgency,
                Ghost(m),
            );
            let n = finish_note(b);
            let ghost nv = n;
            self.push_notification(n);
            proof {
                assert(note_finished(b, nv));
            }
        }
    }
}

/// The payload of an OSC 99 sequence: the text of its third parameter.
pub open spec fn utf8_lossy_or_empty(ps: Seq<Seq<u8>>) -> Seq<char> {
    if ps.len() > 2 {
        utf8_lossy(ps[2])
    } else {
        seq![]
    }
}

// ============================================================================
// Dispatch
// ============================================================================
/// An OSC sequence is defined: exit codes whose reading by byte position
/// would cut a character are left out.
pub open spec fn osc_defined(params: Seq<Vec<u8>>) -> bool {
    let ps = osc_view(params);
    ps.len() >= 2 ==> (ps[0] == seq![0x31u8, 0x33u8, 0x33u8] ==> !exit_code_cuts_char(ps))
}

/// What an OSC sequence does to the terminal `old`, giving `new`, by its
/// command number: 7, 8, 9, 10, 11, 52, 99, 110, 111 and 133 act; the
/// others are ignored.
pub open spec fn osc_outcome(old: Terminal, new: Terminal, params: Seq<Vec<u8>>) -> bool {
    if params.len() == 0 {
        new == old
    } else {
        let c = params[0]@;
        if c == seq![0x37u8] {
            cwd_outcome(old, new, params)
        } else if c == seq![0x38u8] {
            link_outcome(old, new, params)
        } else if c == seq![0x31u8, 0x30u8] {
            colour_outcome(old, new, params, true)
        } else if c == seq![0x31u8, 0x31u8] {
            colour_outcome(old, new, params, false)
        } else if c == seq![0x35u8, 0x32u8] {
            clipboard_outcome(old, new, params)
        } else if c == seq![0x31u8, 0x31u8, 0x30u8] {
            colour_reset_outcome(old, new, true)
        } else if c == seq![0x31u8, 0x31u8, 0x31u8] {
            colour_reset_outcome(old, new, false)
        } else if c == seq![0x39u8] {
            notify_outcome(old, new, params)
        } else if c == seq![0x39u8, 0x39u8] {
            osc99_outcome(old, new, osc_view(params))
        } else if c == seq![0x31u8, 0x33u8, 0x33u8] {
            shell_mark_outcome(old, new, params)
        } else {
            new == old
        }
    }
}

impl Terminal {
    /// An OSC sequence as the VT parser delivers it, split at `;`.
    pub fn osc_dispatch(&mut self, params: &Vec<Vec<u8>>)
        requires
            old(self).wf(),
            osc_defined(params@),
        ensures
            final(self).wf(),
            osc_outcome(*old(self), *final(self), params@),
    {
        if params.len() == 0 {
            return;
        }
        let c = params[0].as_slice();
        proof {
            assert(osc_view(params@)[0] == params@[0]@);
            if params@.len() >= 2 {
                assert(osc_view(params@)[1] == params@[1]@);
            }
        }
        if bytes_eq(c, &[0x37]) {
            proof {
                assert([0x37u8]@ =~= seq![0x37u8]);
            }
            self.osc_cwd(params);
        } else if bytes_eq(c, &[0x38]) {
            proof {
                assert([0x38u8]@ =~= seq![0x38u8]);
            }
            self.osc_link(params);
        } else if bytes_eq(c, &[0x31, 0x30]) {
            proof {
                assert([0x31u8, 0x30u8]@ =~= seq![0x31u8, 0x30u8]);
            }
            self.osc_colour(params, true);
        } else if bytes_eq(c, &[0x31, 0x31]) {
            proof {
                assert([0x31u8, 0x31u8]@ =~= seq![0x31u8, 0x31u8]);
            }
            self.osc_colour(params, false);
        } else if bytes_eq(c, &[0x35, 0x32]) {
            proof {
                assert([0x35u8, 0x32u8]@ =~= seq![0x35u8, 0x32u8]);
            }
            self.osc_clipboard(params);
        } else if bytes_eq(c, &[0x31, 0x31, 0x30]) {
            proof {
                assert([0x31u8, 0x31u8, 0x30u8]@ =~= seq![0x31u8, 0x31u8, 0x30u8]);
            }
            self.osc_colour_reset(true);
        } else if bytes_eq(c, &[0x31, 0x31, 0x31]) {
            proof {
                assert([0x31u8, 0x31u8, 0x31u8]@ =~= seq![0x31u8, 0x31u8, 0x31u8]);
            }
            self.osc_colour_reset(false);
        } else if bytes_eq(c, &[0x39]) {
            proof {
                assert([0x39u8]@ =~= seq![0x39u8]);
            }
            self.osc_notify(params);
        } else if bytes_eq(c, &[0x39, 0x39]) {
            proof {
                assert([0x39u8, 0x39u8]@ =~= seq![0x39u8, 0x39u8]);
            }
            self.osc_kitty_notify(params);
        } else if bytes_eq(c, &[0x31, 0x33, 0x33]) {
            proof {
                assert([0x31u8, 0x33u8, 0x33u8]@ =~= seq![0x31u8, 0x33u8, 0x33u8]);
            }
            self.osc_shell_mark(params);
        } else {
            proof {
                assert([0x37u8]@ =~= seq![0x37u8]);
                assert([0x38u8]@ =~= seq![0x38u8]);
                assert([0x31u8, 0x30u8]@ =~= seq![0x31u8, 0x30u8]);
                assert([0x31u8, 0x31u8]@ =~= seq![0x31u8, 0x31u8]);
                assert([0x35u8, 0x32u8]@ =~= seq![0x35u8, 0x32u8]);
                assert([0x31u8, 0x31u8, 0x30u8]@ =~= seq![0x31u8, 0x31u8, 0x30u8]);
                assert([0x31u8, 0x31u8, 0x31u8]@ =~= seq![0x31u8, 0x31u8, 0x31u8]);
                assert([0x39u8]@ =~= seq![0x39u8]);
                assert([0x39u8, 0x39u8]@ =~= seq![0x39u8, 0x39u8]);
                assert([0x31u8, 0x33u8, 0x33u8]@ =~= seq![0x31u8, 0x33u8, 0x33u8]);
            }
        }
    }
}

// ============================================================================
// Checking what dispatch requires
// ============================================================================
fn is_continuation(b: u8) -> (r: bool)
    ensures
        r == vstd::utf8::is_continuation_byte(b),
{
    0x80 <= b && b <= 0xbf
}

/// Whether slicing an OSC 133 `D` marker would cut a character.
fn marker_cuts_char(m: &[u8]) -> (r: bool)
    ensures
        r == (valid_utf8(m@) && m@.len() > 2 && m@[0] == 0x44 && vstd::utf8::is_continuation_byte(
            m@[2],
        )),
{
    m.len() > 2 && m[0] == 0x44 && is_continuation(m[2]) && is_valid_utf8(m)
}

/// Whether [`Terminal::osc_dispatch`] of these parameters is defined.
pub fn osc_is_defined(params: &Vec<Vec<u8>>) -> (r: bool)
    ensures
        r == osc_defined(params@),
{
    let ghost ps = osc_view(params@);
    proof {
        assert(ps.len() == params@.len());
    }
    if params.len() < 2 {
        return true;
    }
    proof {
        assert(ps[0] == params@[0]@);
        assert(ps[1] == params@[1]@);
    }
    let p0 = params[0].as_slice();
    let shell = p0.len() == 3 && p0[0] == 0x31 && p0[1] == 0x33 && p0[2] == 0x33;
    proof {
        if p0@.len() == 3 && p0@[0] == 0x31 && p0@[1] == 0x33 && p0@[2] == 0x33 {
            assert(ps[0] =~= seq![0x31u8, 0x33u8, 0x33u8]);
        }
    }
    if shell && marker_cuts_char(params[1].as_slice()) {
        return false;
    }
    true
}

} // verus!
