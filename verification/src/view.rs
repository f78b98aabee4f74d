//! What the screen shows, computed from the state: the header line, the
//! group list and the node list with its latencies.  The terminal layer only
//! turns these values into widgets.

use vstd::prelude::*;
use crate::state::App;
use crate::text::{joined, latency_label, latency_text, same_text};

verus! {

/// Colors the screen uses.
#[derive(Clone, Copy, Debug, PartialEq, Eq, Structural)]
pub enum Color {
    Green,
    Yellow,
    Blue,
    Gray,
    Red,
    Cyan,
    White,
    DarkGray,
    Magenta,
}

/// What the header shows after the connection dot.
pub enum HeaderContent {
    /// The last API error, prefixed with `API unreachable: `.
    Error(String),
    /// The key hints and the current mode, upper-cased, with its color and hint.
    Modes { mode: String, mode_color: Color, hint: String },
}

/// The header line.
pub struct HeaderView {
    /// Color of the connection dot.
    pub status_color: Color,
    pub content: HeaderContent,
}

/// The mark in front of a group name.
#[derive(Clone, Copy, Debug, PartialEq, Eq, Structural)]
pub enum Marker {
    /// The GLOBAL group while the mode is global (`[ACTIVE] `).
    Active,
    /// The group in which a node was last switched (a star).
    LastUpdated,
    /// No mark.
    Plain,
}

/// One line of the group list.
pub struct GroupRow {
    pub marker: Marker,
    pub name: String,
    /// The name as shown: tagged `[S] `, as every listed group is selectable.
    pub label: String,
    pub color: Color,
    pub bold: bool,
}

/// How a node line is drawn.
#[derive(Clone, Copy, Debug, PartialEq, Eq, Structural)]
pub enum RowStyle {
    /// The line under the cursor: green and bold.
    Selected,
    /// The group's active node: cyan.
    Current,
    /// Any other line: white.
    Normal,
}

/// One line of the node list.
pub struct ProxyRow {
    /// The node is the group's active one (shown with a check mark).
    pub current: bool,
    /// The node's name with a space on each side.
    pub label: String,
    pub style: RowStyle,
    /// The latency column.
    pub latency: String,
    pub latency_color: Color,
}

/// The right-hand panel.
pub enum ProxyPanel {
    /// The nodes of the selected group.
    Nodes { title: String, rows: Vec<ProxyRow>, offset: usize, selected: usize },
    /// No group to show: a message and its color.
    Empty { message: String, color: Color },
}

/// Renders the state; every function here is a reading of it.
pub struct Ui;

/// Upper-case form of a string, as `str::to_uppercase` computes it.
pub uninterp spec fn uppercase(s: Seq<char>) -> Seq<char>;

/// `str::to_uppercase`; the contract names its result.
#[verifier::external_body]
fn to_uppercase(s: &str) -> (r: String)
    ensures
        r@ == uppercase(s@),
{
    s.to_uppercase()
}


/// Color of the mode name: green for rule, yellow for global, blue for
/// direct, gray for anything else.
pub open spec fn mode_color_of(mode: Seq<char>) -> Color {
    if mode == "rule"@ {
        Color::Green
    } else if mode == "global"@ {
        Color::Yellow
    } else if mode == "direct"@ {
        Color::Blue
    } else {
        Color::Gray
    }
}

/// The hint shown after the mode name.
pub open spec fn mode_hint_of(mode: Seq<char>) -> Seq<char> {
    if mode == "rule"@ {
        " (Rule-based proxy)"@
    } else if mode == "global"@ {
        " (Global group)"@
    } else if mode == "direct"@ {
        " (Direct connection)"@
    } else {
        ""@
    }
}

/// Color of a latency: green below 200 ms, yellow from 200 to 500 ms, red
/// above 500 ms, dark gray when untested or timed out.
pub open spec fn latency_color_of(delay: Option<u64>) -> Color {
    match delay {
        None => Color::DarkGray,
        Some(d) => if d < 200 {
            Color::Green
        } else if d <= 500 {
            Color::Yellow
        } else {
            Color::Red
        },
    }
}

/// Rank of a latency color, from best to worst.
pub open spec fn latency_rank(c: Color) -> int {
    match c {
        Color::Green => 0,
        Color::Yellow => 1,
        Color::Red => 2,
        _ => 3,
    }
}

/// A slower node never shows a better latency color than a faster one.
pub proof fn lemma_latency_color_monotone(a: u64, b: u64)
    requires
        a <= b,
    ensures
        latency_rank(latency_color_of(Some(a))) <= latency_rank(latency_color_of(Some(b))),
{
}

/// Every measured latency gets a band color: green below 200 ms, yellow
/// from 200 to 500 ms, red above 500 ms; only an untested node is gray.
pub proof fn lemma_latency_color_bands(d: u64)
    ensures
        d < 200 ==> latency_color_of(Some(d)) == Color::Green,
        200 <= d <= 500 ==> latency_color_of(Some(d)) == Color::Yellow,
        d > 500 ==> latency_color_of(Some(d)) == Color::Red,
        latency_color_of(Some(d)) != Color::DarkGray,
        latency_color_of(None) == Color::DarkGray,
{
}

/// The latency of node `i` of group `g`, when one was measured.
pub open spec fn delay_at(app: App, g: int, i: int) -> Option<u64> {
    if 0 <= g < app.proxy_delays@.len() && 0 <= i < app.proxy_delays@[g]@.len() {
        app.proxy_delays@[g]@[i]
    } else {
        None
    }
}

/// Whether node `i` of group `g` is the group's active node.
pub open spec fn is_current_at(app: App, g: int, i: int) -> bool {
    0 <= g < app.current_proxies@.len() && app.current_proxies@[g]@ == app.proxies@[g].1@[i]@
}

/// The first line shown of a list of `len` lines in a frame `height` rows
/// high, two of them border: 0 while every line fits; otherwise, once the
/// cursor `selected` reaches the last visible row, the number of lines it
/// is past the visible rows, plus one; else 0.  (When the selected line
/// would still fall outside, ratatui moves the list further itself.)
pub open spec fn offset_for(len: int, selected: int, height: int) -> int {
    let avail = if height >= 2 { height - 2 } else { 0 };
    if len <= avail {
        0
    } else if selected >= (if avail >= 1 { avail - 1 } else { 0 }) {
        (if selected >= avail { selected - avail } else { 0 }) + 1
    } else {
        0
    }
}

/// The color a latency is shown in.
pub fn latency_color(delay: Option<u64>) -> (r: Color)
    ensures
        r == latency_color_of(delay),
{
    match delay {
        None => Color::DarkGray,
        Some(d) => if d < 200 {
            Color::Green
        } else if d <= 500 {
            Color::Yellow
        } else {
            Color::Red
        },
    }
}

/// The first line shown of the node list (see [`offset_for`]).
pub fn list_offset(len: usize, selected: usize, height: u16) -> (r: usize)
    requires
        !(height <= 2 && len > 0 && selected == usize::MAX),
    ensures
        r == offset_for(len as int, selected as int, height as int),
{
    let avail: usize = height.saturating_sub(2) as usize;
    if len <= avail {
        0
    } else if selected >= avail.saturating_sub(1) {
        selected.saturating_sub(avail) + 1
    } else {
        0
    }
}



impl Ui {
    /// The header: a green dot when the controller answers, red when not;
    /// then the last error, or the key hints and the current mode.
    pub fn header(app: &App) -> (r: HeaderView)
        ensures
            r.status_color == (if app.api_connected { Color::Green } else { Color::Red }),
            match app.api_error {
                Some(e) => r.content matches HeaderContent::Error(m) && m@ == "API unreachable: "@
                    + e@,
                None => r.content matches HeaderContent::Modes { mode, mode_color, hint }
                    && mode@ == uppercase(app.mode@) && mode_color == mode_color_of(app.mode@)
                    && hint@ == mode_hint_of(app.mode@),
            },
    {
        let status_color = if app.api_connected {
            Color::Green
        } else {
            Color::Red
        };
        let content = match &app.api_error {
            Some(e) => HeaderContent::Error(joined("API unreachable: ", e.as_str())),
            None => {
                let (mode_color, hint) = if same_text(&app.mode, "rule") {
                    (Color::Green, String::from_str(" (Rule-based proxy)"))
                } else if same_text(&app.mode, "global") {
                    (Color::Yellow, String::from_str(" (Global group)"))
                } else if same_text(&app.mode, "direct") {
                    (Color::Blue, String::from_str(" (Direct connection)"))
                } else {
                    (Color::Gray, String::new())
                };
                proof {
                    reveal_strlit("");
                }
                HeaderContent::Modes { mode: to_uppercase(app.mode.as_str()), mode_color, hint }
            },
        };
        HeaderView { status_color, content }
    }

    /// Whether the offset arithmetic of the node panel would overflow in a
    /// frame `height` rows high: the panel shows nodes, the frame has no
    /// row inside its border, and the cursor is at the largest index.
    pub open spec fn panel_overflows_at(app: App, height: u16) -> bool {
        &&& height <= 2
        &&& app.selected_proxy == usize::MAX
        &&& app.selected_group < app.proxies@.len()
        &&& app.node_count(app.selected_group as int) > 0
    }

    /// See [`Ui::panel_overflows_at`].
    pub fn panel_overflows(app: &App, height: u16) -> (r: bool)
        ensures
            r == Self::panel_overflows_at(*app, height),
    {
        height <= 2 && app.selected_proxy == usize::MAX && app.selected_group < app.proxies.len()
            && app.proxies[app.selected_group].1.len() > 0
    }

    /// Title of the group list.
    pub fn groups_title() -> (r: String)
        ensures
            r@ == " Groups [S=Selectable] "@,
    {
        String::from_str(" Groups [S=Selectable] ")
    }

    /// One line per group, in order.  The selected group is green and bold;
    /// while the mode is global the group named GLOBAL is cyan and marked
    /// active; the group last switched in is yellow and starred; the rest white.
    pub fn group_rows(app: &App) -> (r: Vec<GroupRow>)
        ensures
            r@.len() == app.proxies@.len(),
            forall|i: int|
                0 <= i < r@.len() ==> {
                    let selected = i == app.selected_group;
                    let global = app.mode@ == "global"@ && app.proxies@[i].0@ == "GLOBAL"@;
                    let last = app.last_updated_group == Some(i as usize);
                    &&& (#[trigger] r@[i]).name@ == app.proxies@[i].0@
                    &&& r@[i].label@ == "[S] "@ + app.proxies@[i].0@
                    &&& r@[i].bold == selected
                    &&& r@[i].color == (if selected {
                        Color::Green
                    } else if global {
                        Color::Cyan
                    } else if last {
                        Color::Yellow
                    } else {
                        Color::White
                    })
                    &&& r@[i].marker == (if global {
                        Marker::Active
                    } else if last {
                        Marker::LastUpdated
                    } else {
                        Marker::Plain
                    })
                },
    {
        let global_mode = same_text(&app.mode, "global");
        let mut rows: Vec<GroupRow> = Vec::new();
        let mut i: usize = 0;
        while i < app.proxies.len()
            invariant
                i <= app.proxies@.len(),
                global_mode == (app.mode@ == "global"@),
                rows@.len() == i,
                forall|k: int|
                    0 <= k < i ==> {
                        let selected = k == app.selected_group;
                        let global = app.mode@ == "global"@ && app.proxies@[k].0@ == "GLOBAL"@;
                        let last = app.last_updated_group == Some(k as usize);
                        &&& (#[trigger] rows@[k]).name@ == app.proxies@[k].0@
                        &&& rows@[k].label@ == "[S] "@ + app.proxies@[k].0@
                        &&& rows@[k].bold == selected
                        &&& rows@[k].color == (if selected {
                            Color::Green
                        } else if global {
                            Color::Cyan
                        } else if last {
                            Color::Yellow
                        } else {
                            Color::White
                        })
                        &&& rows@[k].marker == (if global {
                            Marker::Active
                        } else if last {
                            Marker::LastUpdated
                        } else {
                            Marker::Plain
                        })
                    },
            decreases app.proxies@.len() - i,
        {
            let name = &app.proxies[i].0;
            let selected = i == app.selected_group;
            let last = match app.last_updated_group {
                Some(g) => g == i,
                None => false,
            };
            let global = global_mode && same_text(name, "GLOBAL");
            let color = if selected {
                Color::Green
            } else if global {
                Color::Cyan
            } else if last {
                Color::Yellow
            } else {
                Color::White
            };
            let marker = if global {
                Marker::Active
            } else if last {
                Marker::LastUpdated
            } else {
                Marker::Plain
            };
            let label = joined("[S] ", name.as_str());
            rows.push(GroupRow { marker, name: name.clone(), label, color, bold: selected });
            i = i + 1;
        }
        rows
    }

    /// The node line `i` of group `g`: marked when it is the active node,
    /// styled by cursor and activity, with its latency and color.
    pub open spec fn row_shows(app: App, g: int, i: int, row: ProxyRow) -> bool {
        let current = is_current_at(app, g, i);
        &&& row.current == current
        &&& row.label@ == " "@ + app.proxies@[g].1@[i]@ + " "@
        &&& row.style == (if i == app.selected_proxy {
            RowStyle::Selected
        } else if current {
            RowStyle::Current
        } else {
            RowStyle::Normal
        })
        &&& row.latency@ == latency_text(delay_at(app, g, i))
        &&& row.latency_color == latency_color_of(delay_at(app, g, i))
    }

    /// The node panel of the selected group in a frame `height` rows high;
    /// when there is no such group, a message: red when the controller does
    /// not answer, gray when it lists no group.
    pub fn proxy_panel(app: &App, height: u16) -> (r: ProxyPanel)
        requires
            !Self::panel_overflows_at(*app, height),
        ensures
            ({
                let g = app.selected_group as int;
                if g < app.proxies@.len() {
                    &&& r matches ProxyPanel::Nodes { title, rows, offset, selected }
                    &&& title@ == " "@ + app.proxies@[g].0@ + " "@
                    &&& selected == app.selected_proxy
                    &&& offset == offset_for(
                        app.proxies@[g].1@.len() as int,
                        app.selected_proxy as int,
                        height as int,
                    )
                    &&& rows@.len() == app.proxies@[g].1@.len()
                    &&& forall|i: int|
                        0 <= i < rows@.len() ==> Self::row_shows(*app, g, i, #[trigger] rows@[i])
                } else if app.api_connected {
                    r matches ProxyPanel::Empty { message, color } && message@
                        == "No proxy groups available"@ && color == Color::Gray
                } else {
                    r matches ProxyPanel::Empty { message, color } && message@
                        == "Cannot connect to Mihomo API"@ && color == Color::Red
                }
            }),
    {
        let g = app.selected_group;
        if g < app.proxies.len() {
            let name = &app.proxies[g].0;
            let nodes = &app.proxies[g].1;
            let mut rows: Vec<ProxyRow> = Vec::new();
            let mut i: usize = 0;
            while i < nodes.len()
                invariant
                    g < app.proxies@.len(),
                    nodes == &app.proxies@[g as int].1,
                    i <= nodes@.len(),
                    rows@.len() == i,
                    forall|k: int|
                        0 <= k < i ==> Self::row_shows(*app, g as int, k, #[trigger] rows@[k]),
                decreases nodes@.len() - i,
            {
                let node = &nodes[i];
                let current = g < app.current_proxies.len() && app.current_proxies[g] == *node;
                let delay = if g < app.proxy_delays.len() && i < app.proxy_delays[g].len() {
                    app.proxy_delays[g][i]
                } else {
                    None
                };
                let style = if i == app.selected_proxy {
                    RowStyle::Selected
                } else if current {
                    RowStyle::Current
                } else {
                    RowStyle::Normal
                };
                let mut label = joined(" ", node.as_str());
                label.append(" ");
                let row = ProxyRow {
                    current,
                    label,
                    style,
                    latency: latency_label(delay),
                    latency_color: latency_color(delay),
                };
                assert(delay == delay_at(*app, g as int, i as int));
                rows.push(row);
                i = i + 1;
            }
            let offset = list_offset(nodes.len(), app.selected_proxy, height);
            let mut title = joined(" ", name.as_str());
            title.append(" ");
            ProxyPanel::Nodes { title, rows, offset, selected: app.selected_proxy }
        } else if app.api_connected {
            ProxyPanel::Empty {
                message: String::from_str("No proxy groups available"),
                color: Color::Gray,
            }
        } else {
            ProxyPanel::Empty {
                message: String::from_str("Cannot connect to Mihomo API"),
                color: Color::Red,
            }
        }
    }
}

} // verus!
