//! The "listening on" popup of TCP mode: the addresses to offer, which one
//! is selected, and the text to copy for it.
use vstd::prelude::*;
use vstd::string::StrSliceExecFns;
use crate::text::{concat, decimal, decimal_spec};
use crate::app::Key;

verus! {

/// How an address is offered: as `addr:port` or as an `nc` command.
#[derive(Clone, Copy, PartialEq, Eq, Structural, Debug)]
pub enum ListenDisplayMode {
    AddrPort,
    NcCommand,
}

/// One address row of the popup.
pub struct ListenAddrEntry {
    pub ip: String,
    pub is_v6: bool,
    pub is_self_assigned: bool,
    pub row: u16,
}

pub struct ListenState {
    pub port: Option<u16>,
    pub has_connection: bool,
    pub display_mode: ListenDisplayMode,
    pub addr_list: Vec<ListenAddrEntry>,
    pub selected_idx: usize,
    pub popup_area: Option<(u16, u16, u16, u16)>,
}

/// The text offered for an address.
pub open spec fn addr_text(ip: Seq<char>, port: u16, is_v6: bool, mode: ListenDisplayMode) -> Seq<char> {
    let p = decimal_spec(port as nat);
    match mode {
        ListenDisplayMode::AddrPort => if is_v6 {
            seq!['['] + ip + seq![']', ':'] + p
        } else {
            ip + seq![':'] + p
        },
        ListenDisplayMode::NcCommand => if is_v6 {
            seq!['n', 'c', ' ', '-', '6', ' '] + ip + seq![' '] + p
        } else {
            seq!['n', 'c', ' '] + ip + seq![' '] + p
        },
    }
}

/// The text offered for an address: `[ip]:port` or `ip:port`, or the `nc`
/// command that connects to it.
pub fn format_addr_display(ip: &str, port: u16, is_v6: bool, mode: ListenDisplayMode) -> (r: String)
    ensures
        r@ == addr_text(ip@, port, is_v6, mode),
{
    let p = decimal(port as u64);
    let r = match mode {
        ListenDisplayMode::AddrPort => if is_v6 {
            concat(concat(concat("[", ip).as_str(), "]:").as_str(), p.as_str())
        } else {
            concat(concat(ip, ":").as_str(), p.as_str())
        },
        ListenDisplayMode::NcCommand => if is_v6 {
            concat(concat(concat("nc -6 ", ip).as_str(), " ").as_str(), p.as_str())
        } else {
            concat(concat(concat("nc ", ip).as_str(), " ").as_str(), p.as_str())
        },
    };
    proof {
        reveal_strlit("[");
        reveal_strlit("]:");
        reveal_strlit(":");
        reveal_strlit("nc -6 ");
        reveal_strlit(" ");
        reveal_strlit("nc ");
        let ps = decimal_spec(port as nat);
        assert(seq!['['] + ip@ + seq![']', ':'] + ps =~= "["@ + ip@ + "]:"@ + ps);
        assert(ip@ + seq![':'] + ps =~= ip@ + ":"@ + ps);
        assert(seq!['n', 'c', ' ', '-', '6', ' '] + ip@ + seq![' '] + ps =~= "nc -6 "@ + ip@ + " "@ + ps);
        assert(seq!['n', 'c', ' '] + ip@ + seq![' '] + ps =~= "nc "@ + ip@ + " "@ + ps);
    }
    r
}

/// The width of an address row: a two-column marker, then the text.
pub fn calc_addr_line_width(ip: &str, port: u16, is_v6: bool, display_mode: ListenDisplayMode) -> (r: usize)
    requires
        ip@.len() <= 1000,
    ensures
        r == 2 + addr_text(ip@, port, is_v6, display_mode).len(),
{
    let text = format_addr_display(ip, port, is_v6, display_mode);
    let n = text.as_str().unicode_len();
    proof {
        lemma_decimal_len(port as nat);
    }
    2 + n
}

proof fn lemma_decimal_len(n: nat)
    ensures
        decimal_spec(n).len() <= n + 1,
    decreases n,
{
    if n >= 10 {
        lemma_decimal_len(n / 10);
    }
}

/// The first address row from `i` on that lies on screen row `y` when the
/// popup's top is at `py`; the list's length when none does.
pub open spec fn first_row(list: Seq<ListenAddrEntry>, py: int, y: int, i: int) -> int
    decreases list.len() - i,
{
    if i < 0 || i >= list.len() {
        list.len() as int
    } else if y == py + list[i].row {
        i
    } else {
        first_row(list, py, y, i + 1)
    }
}

/// What the caller should do after a key while the popup shows.
pub enum PopupOutcome {
    Continue,
    Quit,
    /// Copy this text.
    Copy(String),
}

impl ListenState {
    /// Routes a key while the popup shows: quit, switch the address form,
    /// move the selection, or copy the selected address.
    pub fn handle_popup_key(&mut self, key: Key) -> (r: PopupOutcome)
        ensures
            final(self).addr_list == old(self).addr_list,
            final(self).port == old(self).port,
            final(self).popup_area == old(self).popup_area,
            final(self).has_connection == old(self).has_connection,
            key == Key::CtrlC || key == Key::Char('q') ==> r is Quit && *final(self) == *old(self),
            key == Key::Tab ==> r is Continue && final(self).selected_idx == old(self).selected_idx
                && final(self).display_mode != old(self).display_mode,
            (key == Key::Up || key == Key::Char('k')) && old(self).addr_list@.len() > 0 ==> r is Continue
                && final(self).display_mode == old(self).display_mode && final(self).selected_idx == if old(
                self,
            ).selected_idx > 0 {
                old(self).selected_idx - 1
            } else {
                old(self).addr_list@.len() - 1
            },
            (key == Key::Down || key == Key::Char('j')) && old(self).addr_list@.len() > 0 ==> r is Continue
                && final(self).display_mode == old(self).display_mode && final(self).selected_idx == (old(
                self,
            ).selected_idx + 1) % (old(self).addr_list@.len() as int),
            key == Key::Enter ==> *final(self) == *old(self) && ((r is Copy) <==> (old(self).port is Some
                && old(self).selected_idx < old(self).addr_list@.len())),
            key == Key::Enter && r is Copy ==> (r->Copy_0)@ == addr_text(
                old(self).addr_list@[old(self).selected_idx as int].ip@,
                old(self).port->0,
                old(self).addr_list@[old(self).selected_idx as int].is_v6,
                old(self).display_mode,
            ),
            !(key == Key::CtrlC || key == Key::Char('q') || key == Key::Tab || key == Key::Up || key == Key::Char('k')
                || key == Key::Down || key == Key::Char('j') || key == Key::Enter) ==> r is Continue && *final(self)
                == *old(self),
    {
        match key {
            Key::CtrlC | Key::Char('q') => PopupOutcome::Quit,
            Key::Tab => {
                self.toggle_display_mode();
                PopupOutcome::Continue
            },
            Key::Up | Key::Char('k') => {
                self.select_prev();
                PopupOutcome::Continue
            },
            Key::Down | Key::Char('j') => {
                self.select_next();
                PopupOutcome::Continue
            },
            Key::Enter => match self.get_selected_copy_text() {
                Some(t) => PopupOutcome::Copy(t),
                None => PopupOutcome::Continue,
            },
            _ => PopupOutcome::Continue,
        }
    }

    /// A popup for `port`, before any client came.
    pub fn new(port: Option<u16>) -> (r: ListenState)
        ensures
            r.port == port,
            !r.has_connection,
            r.display_mode == ListenDisplayMode::AddrPort,
            r.addr_list@.len() == 0,
            r.selected_idx == 0,
            r.popup_area is None,
    {
        ListenState {
            port,
            has_connection: false,
            display_mode: ListenDisplayMode::AddrPort,
            addr_list: Vec::new(),
            selected_idx: 0,
            popup_area: None,
        }
    }

    /// The popup shows while listening and no client has come.
    pub fn show_popup(&self) -> (r: bool)
        ensures
            r == (self.port is Some && !self.has_connection),
    {
        self.port.is_some() && !self.has_connection
    }

    pub fn toggle_display_mode(&mut self)
        ensures
            final(self).display_mode == match old(self).display_mode {
                ListenDisplayMode::AddrPort => ListenDisplayMode::NcCommand,
                ListenDisplayMode::NcCommand => ListenDisplayMode::AddrPort,
            },
            final(self).selected_idx == old(self).selected_idx,
            final(self).addr_list == old(self).addr_list,
            final(self).port == old(self).port,
            final(self).popup_area == old(self).popup_area,
            final(self).has_connection == old(self).has_connection,
    {
        self.display_mode = match self.display_mode {
            ListenDisplayMode::AddrPort => ListenDisplayMode::NcCommand,
            ListenDisplayMode::NcCommand => ListenDisplayMode::AddrPort,
        };
    }

    /// Selects the next address, wrapping around.
    pub fn select_next(&mut self)
        ensures
            old(self).addr_list@.len() > 0 ==> final(self).selected_idx == (old(self).selected_idx + 1) % (old(
                self,
            ).addr_list@.len() as int),
            old(self).addr_list@.len() == 0 ==> final(self).selected_idx == old(self).selected_idx,
            final(self).addr_list == old(self).addr_list,
            final(self).display_mode == old(self).display_mode,
            final(self).port == old(self).port,
            final(self).popup_area == old(self).popup_area,
            final(self).has_connection == old(self).has_connection,
    {
        let n = self.addr_list.len();
        if n > 0 {
            self.selected_idx = ((self.selected_idx as u128 + 1) % (n as u128)) as usize;
        }
    }

    /// Selects the previous address, wrapping around.
    pub fn select_prev(&mut self)
        ensures
            old(self).addr_list@.len() > 0 ==> final(self).selected_idx == if old(self).selected_idx > 0 {
                old(self).selected_idx - 1
            } else {
                old(self).addr_list@.len() - 1
            },
            old(self).addr_list@.len() == 0 ==> final(self).selected_idx == old(self).selected_idx,
            final(self).addr_list == old(self).addr_list,
            final(self).display_mode == old(self).display_mode,
            final(self).port == old(self).port,
            final(self).popup_area == old(self).popup_area,
            final(self).has_connection == old(self).has_connection,
    {
        let n = self.addr_list.len();
        if n > 0 {
            self.selected_idx = if self.selected_idx > 0 { self.selected_idx - 1 } else { n - 1 };
        }
    }

    /// The text to copy for the selected address, when listening and the
    /// selection is an address.
    pub fn get_selected_copy_text(&self) -> (r: Option<String>)
        ensures
            r is Some <==> (self.port is Some && self.selected_idx < self.addr_list@.len()),
            r matches Some(t) ==> t@ == addr_text(
                self.addr_list@[self.selected_idx as int].ip@,
                self.port->0,
                self.addr_list@[self.selected_idx as int].is_v6,
                self.display_mode,
            ),
    {
        match self.port {
            Some(port) => {
                if self.selected_idx < self.addr_list.len() {
                    let entry = &self.addr_list[self.selected_idx];
                    Some(format_addr_display(entry.ip.as_str(), port, entry.is_v6, self.display_mode))
                } else {
                    None
                }
            },
            None => None,
        }
    }

    /// A click at `(x, y)`: inside the popup, on an address row, it selects
    /// the first such row and gives its text to copy (when listening).
    pub fn handle_click(&mut self, x: u16, y: u16) -> (r: Option<String>)
        ensures
            final(self).addr_list == old(self).addr_list,
            final(self).display_mode == old(self).display_mode,
            final(self).port == old(self).port,
            ({
                let hit = old(self).popup_area matches Some(a) && a.0 <= x < a.0 + a.2 && a.1 <= y < a.1 + a.3;
                let row = first_row(old(self).addr_list@, (old(self).popup_area->0).1 as int, y as int, 0);
                &&& (hit && row < old(self).addr_list@.len()) ==> final(self).selected_idx == row && (r is Some
                    <==> old(self).port is Some) && (r matches Some(t) ==> t@ == addr_text(
                    old(self).addr_list@[row].ip@,
                    old(self).port->0,
                    old(self).addr_list@[row].is_v6,
                    old(self).display_mode,
                ))
                &&& !(hit && row < old(self).addr_list@.len()) ==> r is None && final(self).selected_idx
                    == old(self).selected_idx
            }),
    {
        let (px, py, pw, ph) = match self.popup_area {
            Some(a) => a,
            None => {
                return None;
            },
        };
        if (x as u32) < (px as u32) || (x as u32) >= px as u32 + pw as u32 || (y as u32) < (py as u32) || (y as u32)
            >= py as u32 + ph as u32 {
            return None;
        }
        let mut idx: usize = 0;
        while idx < self.addr_list.len()
            invariant
                idx <= self.addr_list@.len(),
                self.addr_list == old(self).addr_list,
                self.display_mode == old(self).display_mode,
                self.port == old(self).port,
                self.selected_idx == old(self).selected_idx,
                self.popup_area == old(self).popup_area,
                old(self).popup_area == Some((px, py, pw, ph)),
                px <= x < px + pw,
                py <= y < py + ph,
                first_row(self.addr_list@, py as int, y as int, 0) == first_row(self.addr_list@, py as int, y as int, idx as int),
            decreases self.addr_list@.len() - idx,
        {
            if y as u32 == py as u32 + self.addr_list[idx].row as u32 {
                assert(first_row(self.addr_list@, py as int, y as int, idx as int) == idx as int);
                assert(px <= x < px + pw && py <= y < py + ph);
                self.selected_idx = idx;
                return self.get_selected_copy_text();
            }
            idx = idx + 1;
        }
        None
    }
}

/// Whether an IPv4 address, by its octets, is self-assigned (169.254/16).
pub fn is_self_assigned(octets: [u8; 4]) -> (r: bool)
    ensures
        r == (octets[0] == 169 && octets[1] == 254),
{
    octets[0] == 169 && octets[1] == 254
}

/// Whether an IPv6 address, by its first segment, is link-local (fe80::/10).
pub fn is_link_local_v6(first_segment: u16) -> (r: bool)
    ensures
        r == (0xfe80 <= first_segment <= 0xfebf),
{
    let r = (first_segment & 0xffc0) == 0xfe80;
    assert(r == (0xfe80 <= first_segment <= 0xfebf)) by (bit_vector)
        requires
            r == ((first_segment & 0xffc0) == 0xfe80),
    ;
    r
}

} // verus!
